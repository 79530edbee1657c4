use vstd::prelude::*;

verus! {

/// ASCII whitespace as the map format uses it: space, tab, and the other
/// ASCII control characters that count as whitespace, so that a carriage
/// return before a line feed never leaks into a field.
pub open spec fn is_space(b: u8) -> bool {
    b == 32 || b == 9 || b == 11 || b == 12 || b == 13
}

/// Executable mirror of `is_space`.
pub fn byte_is_space(b: u8) -> (r: bool)
    ensures
        r == is_space(b),
{
    b == 32 || b == 9 || b == 11 || b == 12 || b == 13
}

/// The tokens of `s` split at every occurrence of `d`: n delimiters give
/// n + 1 tokens, and adjacent delimiters give empty tokens.
pub open spec fn split_on(s: Seq<u8>, d: u8) -> Seq<Seq<u8>>
    decreases s.len(),
{
    if s.len() == 0 {
        seq![Seq::<u8>::empty()]
    } else if s[0] == d {
        seq![Seq::<u8>::empty()] + split_on(s.drop_first(), d)
    } else {
        let rest = split_on(s.drop_first(), d);
        seq![seq![s[0]] + rest[0]] + rest.drop_first()
    }
}

pub proof fn lemma_split_on_len(s: Seq<u8>, d: u8)
    ensures
        split_on(s, d).len() >= 1,
    decreases s.len(),
{
    if s.len() == 0 {
    } else {
        lemma_split_on_len(s.drop_first(), d);
    }
}

/// Splitting a delimiter-free sequence gives that sequence as the one token.
pub proof fn lemma_split_on_whole(s: Seq<u8>, d: u8)
    requires
        forall|k: int| 0 <= k < s.len() ==> s[k] != d,
    ensures
        split_on(s, d) == seq![s],
    decreases s.len(),
{
    if s.len() == 0 {
        assert(s =~= Seq::<u8>::empty());
        assert(split_on(s, d) =~~= seq![s]);
    } else {
        lemma_split_on_whole(s.drop_first(), d);
        assert(seq![s[0]] + s.drop_first() =~= s);
        assert(split_on(s, d) =~~= seq![s]);
    }
}

/// Peeling the first token off a split: if the first occurrence of `d` is at
/// `e`, the split is the prefix before `e` followed by the split of the rest.
pub proof fn lemma_split_on_step(s: Seq<u8>, d: u8, e: int)
    requires
        0 <= e < s.len(),
        s[e] == d,
        forall|k: int| 0 <= k < e ==> s[k] != d,
    ensures
        split_on(s, d) == seq![s.take(e)] + split_on(s.skip(e + 1), d),
    decreases e,
{
    if e == 0 {
        assert(s.take(0) =~= Seq::<u8>::empty());
        assert(s.skip(1) =~= s.drop_first());
        assert(split_on(s, d) =~~= seq![s.take(0)] + split_on(s.skip(1), d));
    } else {
        let t = s.drop_first();
        lemma_split_on_step(t, d, e - 1);
        lemma_split_on_len(t.skip(e), d);
        assert(seq![s[0]] + t.take(e - 1) =~= s.take(e));
        assert(t.skip(e) =~= s.skip(e + 1));
        let rest = split_on(t, d);
        assert(rest[0] == t.take(e - 1));
        assert(rest.drop_first() =~~= split_on(t.skip(e), d));
        assert(split_on(s, d) =~~= seq![s.take(e)] + split_on(s.skip(e + 1), d));
    }
}

/// The half-open ranges of the tokens of `s` split at every occurrence of
/// `d`, in order; range `k` delimits token `k` of `split_on`.
pub fn split_ranges(s: &[u8], d: u8) -> (r: Vec<(usize, usize)>)
    ensures
        r@.len() == split_on(s@, d).len(),
        forall|k: int| 0 <= k < r@.len() ==> (#[trigger] r@[k]).0 <= r@[k].1 <= s@.len(),
        forall|k: int|
            0 <= k < r@.len() ==> #[trigger] split_on(s@, d)[k] == s@.subrange(
                r@[k].0 as int,
                r@[k].1 as int,
            ),
{
    let mut r: Vec<(usize, usize)> = Vec::new();
    let mut start: usize = 0;
    let mut i: usize = 0;
    let ghost mut done: Seq<Seq<u8>> = Seq::empty();
    proof {
        assert(s@.skip(0) =~= s@);
        assert(done + split_on(s@, d) =~~= split_on(s@, d));
    }
    while i < s.len()
        invariant
            0 <= start <= i <= s@.len(),
            forall|k: int| start <= k < i ==> s@[k] != d,
            split_on(s@, d) == done + split_on(s@.skip(start as int), d),
            done.len() == r@.len(),
            forall|k: int| 0 <= k < r@.len() ==> (#[trigger] r@[k]).0 <= r@[k].1 <= s@.len(),
            forall|k: int|
                0 <= k < r@.len() ==> #[trigger] done[k] == s@.subrange(
                    r@[k].0 as int,
                    r@[k].1 as int,
                ),
        decreases s@.len() - i,
    {
        if s[i] == d {
            proof {
                let tail = s@.skip(start as int);
                lemma_split_on_step(tail, d, i - start);
                assert(tail.take(i - start) =~= s@.subrange(start as int, i as int));
                assert(tail.skip(i - start + 1) =~= s@.skip(i + 1));
                assert(done + (seq![s@.subrange(start as int, i as int)] + split_on(
                    s@.skip(i + 1),
                    d,
                )) =~~= (done + seq![s@.subrange(start as int, i as int)]) + split_on(
                    s@.skip(i + 1),
                    d,
                ));
                done = done + seq![s@.subrange(start as int, i as int)];
            }
            r.push((start, i));
            start = i + 1;
        }
        i = i + 1;
    }
    proof {
        let tail = s@.skip(start as int);
        lemma_split_on_whole(tail, d);
        assert(tail =~= s@.subrange(start as int, s@.len() as int));
        assert(done + seq![tail] =~~= split_on(s@, d));
    }
    r.push((start, s.len()));
    r
}

/// The whitespace-delimited tokens of `s`, in order: runs of whitespace
/// separate tokens and never produce empty ones.
pub open spec fn ws_tokens(s: Seq<u8>) -> Seq<Seq<u8>>
    decreases s.len(),
{
    if s.len() == 0 {
        Seq::empty()
    } else if is_space(s[0]) {
        ws_tokens(s.drop_first())
    } else {
        let rest = ws_tokens(s.drop_first());
        if s.len() > 1 && !is_space(s[1]) {
            seq![seq![s[0]] + rest[0]] + rest.drop_first()
        } else {
            seq![seq![s[0]]] + rest
        }
    }
}

/// Peeling the first token off: if `s` opens with a maximal non-whitespace
/// run of length `e`, that run is the first token and the rest of the tokens
/// are those of the remainder.
pub proof fn lemma_ws_tokens_step(s: Seq<u8>, e: int)
    requires
        0 < e <= s.len(),
        forall|k: int| 0 <= k < e ==> !is_space(s[k]),
        e == s.len() || is_space(s[e]),
    ensures
        ws_tokens(s) == seq![s.take(e)] + ws_tokens(s.skip(e)),
    decreases e,
{
    let t = s.drop_first();
    if e == 1 {
        assert(s.take(1) =~= seq![s[0]]);
        assert(s.skip(1) =~= t);
        assert(ws_tokens(s) =~~= seq![s.take(1)] + ws_tokens(s.skip(1)));
    } else {
        lemma_ws_tokens_step(t, e - 1);
        let rest = ws_tokens(t);
        assert(rest[0] == t.take(e - 1));
        assert(seq![s[0]] + t.take(e - 1) =~= s.take(e));
        assert(rest.drop_first() =~~= ws_tokens(t.skip(e - 1)));
        assert(t.skip(e - 1) =~= s.skip(e));
        assert(ws_tokens(s) =~~= seq![s.take(e)] + ws_tokens(s.skip(e)));
    }
}

/// The half-open ranges of the whitespace-delimited tokens of `s`, in order;
/// range `k` delimits token `k` of `ws_tokens`.
pub fn ws_fields(s: &[u8]) -> (r: Vec<(usize, usize)>)
    ensures
        r@.len() == ws_tokens(s@).len(),
        forall|k: int|
            0 <= k < r@.len() ==> #[trigger] r@[k].0 < r@[k].1 <= s@.len()
                && ws_tokens(s@)[k] == s@.subrange(r@[k].0 as int, r@[k].1 as int),
{
    let mut r: Vec<(usize, usize)> = Vec::new();
    let mut i: usize = 0;
    let ghost mut done: Seq<Seq<u8>> = Seq::empty();
    proof {
        assert(s@.skip(0) =~= s@);
        assert(done + ws_tokens(s@) =~~= ws_tokens(s@));
    }
    while i < s.len()
        invariant
            0 <= i <= s@.len(),
            ws_tokens(s@) == done + ws_tokens(s@.skip(i as int)),
            done.len() == r@.len(),
            forall|k: int|
                0 <= k < r@.len() ==> #[trigger] r@[k].0 < r@[k].1 <= s@.len()
                    && done[k] == s@.subrange(r@[k].0 as int, r@[k].1 as int),
        decreases s@.len() - i,
    {
        if byte_is_space(s[i]) {
            proof {
                let tail = s@.skip(i as int);
                assert(tail.drop_first() =~= s@.skip(i + 1));
                assert(ws_tokens(tail) == ws_tokens(s@.skip(i + 1)));
            }
            i = i + 1;
        } else {
            let start = i;
            let mut j = i + 1;
            while j < s.len() && !byte_is_space(s[j])
                invariant
                    start < j <= s@.len(),
                    start < s@.len(),
                    forall|k: int| start <= k < j ==> !is_space(s@[k]),
                decreases s@.len() - j,
            {
                j = j + 1;
            }
            proof {
                let tail = s@.skip(start as int);
                lemma_ws_tokens_step(tail, j - start);
                assert(tail.take(j - start) =~= s@.subrange(start as int, j as int));
                assert(tail.skip(j - start) =~= s@.skip(j as int));
                assert(done + (seq![s@.subrange(start as int, j as int)] + ws_tokens(
                    s@.skip(j as int),
                )) =~~= (done + seq![s@.subrange(start as int, j as int)]) + ws_tokens(
                    s@.skip(j as int),
                ));
                done = done + seq![s@.subrange(start as int, j as int)];
            }
            let ghost r_old = r@;
            r.push((start, j));
            proof {
                assert(r@ == r_old.push((start, j)));
                assert(forall|k: int| 0 <= k < r_old.len() ==> r@[k] == r_old[k]);
                assert(r@[r@.len() - 1] == (start, j));
            }
            i = j;
        }
    }
    proof {
        assert(s@.skip(i as int) =~= Seq::<u8>::empty());
        assert(done + ws_tokens(Seq::<u8>::empty()) =~~= done);
    }
    r
}

/// Value of one hexadecimal digit, or -1 for any other byte.
pub open spec fn hex_digit_val(b: u8) -> int {
    if 48 <= b <= 57 {
        b - 48
    } else if 97 <= b <= 102 {
        b - 87
    } else if 65 <= b <= 70 {
        b - 55
    } else {
        -1
    }
}

pub open spec fn is_hex_digit(b: u8) -> bool {
    hex_digit_val(b) >= 0
}

pub open spec fn all_hex(s: Seq<u8>) -> bool {
    forall|k: int| 0 <= k < s.len() ==> is_hex_digit(#[trigger] s[k])
}

/// The number that the digit sequence `s` denotes in base 16.
pub open spec fn hex_val(s: Seq<u8>) -> int
    decreases s.len(),
{
    if s.len() == 0 {
        0
    } else {
        hex_val(s.drop_last()) * 16 + hex_digit_val(s.last())
    }
}

/// What a hexadecimal field means: a value only when the field is non-empty,
/// all digits, and fits the machine word.
pub open spec fn spec_hex_usize(s: Seq<u8>) -> Option<usize> {
    if s.len() >= 1 && all_hex(s) && hex_val(s) <= usize::MAX {
        Some(hex_val(s) as usize)
    } else {
        None
    }
}

pub proof fn lemma_hex_val_nonneg(s: Seq<u8>)
    requires
        all_hex(s),
    ensures
        hex_val(s) >= 0,
    decreases s.len(),
{
    if s.len() == 0 {
    } else {
        assert(all_hex(s.drop_last()));
        lemma_hex_val_nonneg(s.drop_last());
    }
}

/// A digit string is worth at least any of its prefixes.
pub proof fn lemma_hex_prefix_le(s: Seq<u8>, j: int)
    requires
        all_hex(s),
        0 <= j <= s.len(),
    ensures
        hex_val(s.take(j)) <= hex_val(s),
    decreases s.len() - j,
{
    if j == s.len() {
        assert(s.take(j) =~= s);
    } else {
        lemma_hex_prefix_le(s, j + 1);
        let t = s.take(j + 1);
        assert(all_hex(t));
        assert(t.drop_last() =~= s.take(j));
        lemma_hex_val_nonneg(s.take(j));
        assert(hex_val(t) == hex_val(s.take(j)) * 16 + hex_digit_val(s[j]));
    }
}

/// Parses a whole field as a base-16 machine word: `Some` exactly when the
/// field is non-empty, all hexadecimal digits, and the value fits.
pub fn parse_hex_usize(s: &[u8]) -> (r: Option<usize>)
    ensures
        r == spec_hex_usize(s@),
{
    if s.len() == 0 {
        return None;
    }
    let mut v: u128 = 0;
    let mut i: usize = 0;
    while i < s.len()
        invariant
            0 <= i <= s@.len(),
            all_hex(s@.take(i as int)),
            v == hex_val(s@.take(i as int)),
            v <= usize::MAX,
        decreases s@.len() - i,
    {
        let b = s[i];
        let d: u128 = if 48 <= b && b <= 57 {
            (b - 48) as u128
        } else if 97 <= b && b <= 102 {
            (b - 87) as u128
        } else if 65 <= b && b <= 70 {
            (b - 55) as u128
        } else {
            assert(!is_hex_digit(s@[i as int]));
            return None;
        };
        proof {
            assert(s@.take(i + 1).drop_last() =~= s@.take(i as int));
            assert(s@.take(i + 1).last() == s@[i as int]);
            assert(all_hex(s@.take(i + 1)));
        }
        v = v * 16 + d;
        i = i + 1;
        if v > usize::MAX as u128 {
            proof {
                if all_hex(s@) {
                    lemma_hex_prefix_le(s@, i as int);
                }
            }
            return None;
        }
    }
    proof {
        assert(s@.take(s@.len() as int) =~= s@);
    }
    Some(v as usize)
}

/// Value of one decimal digit, or -1 for any other byte.
pub open spec fn dec_digit_val(b: u8) -> int {
    if 48 <= b <= 57 {
        b - 48
    } else {
        -1
    }
}

pub open spec fn is_dec_digit(b: u8) -> bool {
    dec_digit_val(b) >= 0
}

pub open spec fn all_dec(s: Seq<u8>) -> bool {
    forall|k: int| 0 <= k < s.len() ==> is_dec_digit(#[trigger] s[k])
}

/// The number that the digit sequence `s` denotes in base 10.
pub open spec fn dec_val(s: Seq<u8>) -> int
    decreases s.len(),
{
    if s.len() == 0 {
        0
    } else {
        dec_val(s.drop_last()) * 10 + dec_digit_val(s.last())
    }
}

/// What a signed decimal field means: an optional sign, then at least one
/// digit, and the value must fit a 32-bit signed integer.
pub open spec fn spec_dec_i32(s: Seq<u8>) -> Option<i32> {
    let neg = s.len() >= 1 && s[0] == 45;
    let ds = if s.len() >= 1 && (s[0] == 43 || s[0] == 45) {
        s.drop_first()
    } else {
        s
    };
    if ds.len() >= 1 && all_dec(ds) {
        if neg {
            if -dec_val(ds) >= i32::MIN {
                Some((-dec_val(ds)) as i32)
            } else {
                None
            }
        } else {
            if dec_val(ds) <= i32::MAX {
                Some(dec_val(ds) as i32)
            } else {
                None
            }
        }
    } else {
        None
    }
}

pub proof fn lemma_dec_val_nonneg(s: Seq<u8>)
    requires
        all_dec(s),
    ensures
        dec_val(s) >= 0,
    decreases s.len(),
{
    if s.len() == 0 {
    } else {
        assert(all_dec(s.drop_last()));
        lemma_dec_val_nonneg(s.drop_last());
    }
}

/// A digit string is worth at least any of its prefixes.
pub proof fn lemma_dec_prefix_le(s: Seq<u8>, j: int)
    requires
        all_dec(s),
        0 <= j <= s.len(),
    ensures
        dec_val(s.take(j)) <= dec_val(s),
    decreases s.len() - j,
{
    if j == s.len() {
        assert(s.take(j) =~= s);
    } else {
        lemma_dec_prefix_le(s, j + 1);
        let t = s.take(j + 1);
        assert(all_dec(t));
        assert(t.drop_last() =~= s.take(j));
        lemma_dec_val_nonneg(s.take(j));
        assert(dec_val(t) == dec_val(s.take(j)) * 10 + dec_digit_val(s[j]));
    }
}

/// Parses a whole field as a signed base-10 32-bit integer: `Some` exactly
/// when the field is an optional sign, then one or more decimal digits, and
/// the value fits.
pub fn parse_dec_i32(s: &[u8]) -> (r: Option<i32>)
    ensures
        r == spec_dec_i32(s@),
{
    if s.len() == 0 {
        return None;
    }
    let neg = s[0] == 45;
    let k0: usize = if s[0] == 43 || s[0] == 45 {
        1
    } else {
        0
    };
    let ghost ds = if k0 == 1 {
        s@.drop_first()
    } else {
        s@
    };
    if s.len() == k0 {
        assert(ds.len() == 0);
        return None;
    }
    let bound: u64 = if neg {
        2147483648
    } else {
        2147483647
    };
    let mut v: u64 = 0;
    let mut i: usize = k0;
    while i < s.len()
        invariant
            k0 <= i <= s@.len(),
            k0 == 0 || k0 == 1,
            s@.len() >= 1,
            (k0 == 1) == (s@[0] == 43 || s@[0] == 45),
            neg == (s@[0] == 45),
            ds == if k0 == 1 {
                s@.drop_first()
            } else {
                s@
            },
            ds.len() == s@.len() - k0,
            neg ==> bound == 2147483648,
            !neg ==> bound == 2147483647,
            all_dec(ds.take(i - k0)),
            v == dec_val(ds.take(i - k0)),
            v <= bound,
        decreases s@.len() - i,
    {
        let b = s[i];
        if !(48 <= b && b <= 57) {
            assert(ds[i - k0] == s@[i as int]);
            assert(!is_dec_digit(ds[i - k0]));
            return None;
        }
        let d: u64 = (b - 48) as u64;
        proof {
            assert(ds.take(i - k0 + 1).drop_last() =~= ds.take(i - k0));
            assert(ds.take(i - k0 + 1).last() == ds[i - k0]);
            assert(ds[i - k0] == s@[i as int]);
            assert(all_dec(ds.take(i - k0 + 1)));
        }
        v = v * 10 + d;
        i = i + 1;
        if v > bound {
            proof {
                if all_dec(ds) {
                    lemma_dec_prefix_le(ds, i - k0);
                    assert(ds.take(ds.len() as int) =~= ds);
                }
            }
            return None;
        }
    }
    proof {
        assert(ds.take(ds.len() as int) =~= ds);
    }
    if neg {
        let w: i64 = -(v as i64);
        assert(w >= i32::MIN && w <= 0);
        Some(w as i32)
    } else {
        Some(v as i32)
    }
}

/// The permission characters of a mode token, in token order.  The
/// placeholder `-` marks an absent permission and the `p` of a private
/// mapping carries no permission of its own; every other character (read,
/// write, execute, shared) is kept.
pub open spec fn kept_modes(s: Seq<u8>) -> Seq<u8>
    decreases s.len(),
{
    if s.len() == 0 {
        Seq::empty()
    } else {
        let rest = kept_modes(s.drop_last());
        if s.last() == 45 || s.last() == 112 {
            rest
        } else {
            rest.push(s.last())
        }
    }
}

/// Collects the permission characters of a mode token.
pub fn parse_modes(s: &[u8]) -> (r: Vec<u8>)
    ensures
        r@ == kept_modes(s@),
{
    let mut r: Vec<u8> = Vec::new();
    let mut i: usize = 0;
    proof {
        assert(s@.take(0) =~= Seq::<u8>::empty());
    }
    while i < s.len()
        invariant
            0 <= i <= s@.len(),
            r@ == kept_modes(s@.take(i as int)),
        decreases s@.len() - i,
    {
        proof {
            assert(s@.take(i + 1).drop_last() =~= s@.take(i as int));
            assert(s@.take(i + 1).last() == s@[i as int]);
        }
        let b = s[i];
        if b != 45 && b != 112 {
            r.push(b);
        }
        i = i + 1;
    }
    proof {
        assert(s@.take(s@.len() as int) =~= s@);
    }
    r
}

/// Index of the first occurrence of `d` in `s`, or `s.len()` if absent.
pub open spec fn first_pos(s: Seq<u8>, d: u8) -> int
    decreases s.len(),
{
    if s.len() == 0 {
        0
    } else if s[0] == d {
        0
    } else {
        1 + first_pos(s.drop_first(), d)
    }
}

pub proof fn lemma_first_pos(s: Seq<u8>, d: u8)
    ensures
        0 <= first_pos(s, d) <= s.len(),
        first_pos(s, d) < s.len() ==> s[first_pos(s, d)] == d,
        forall|k: int| 0 <= k < first_pos(s, d) ==> s[k] != d,
    decreases s.len(),
{
    if s.len() == 0 {
    } else if s[0] == d {
    } else {
        lemma_first_pos(s.drop_first(), d);
        assert forall|k: int| 0 <= k < first_pos(s, d) implies s[k] != d by {
            if k > 0 {
                assert(s.drop_first()[k - 1] == s[k]);
            }
        }
    }
}

/// The two halves of a device field: what stands before the first colon and
/// what stands after it, or two empty strings when there is no colon.
pub open spec fn dev_fields(t: Seq<u8>) -> (Seq<u8>, Seq<u8>) {
    let p = first_pos(t, 58);
    if p == t.len() {
        (Seq::empty(), Seq::empty())
    } else {
        (t.take(p), t.skip(p + 1))
    }
}

/// Splits a device field at its first colon.
pub fn parse_dev(t: &[u8]) -> (r: (Vec<u8>, Vec<u8>))
    ensures
        r.0@ == dev_fields(t@).0,
        r.1@ == dev_fields(t@).1,
{
    proof {
        lemma_first_pos(t@, 58);
    }
    let mut i: usize = 0;
    while i < t.len()
        invariant
            0 <= i <= t@.len(),
            forall|k: int| 0 <= k < i ==> t@[k] != 58,
        decreases t@.len() - i,
    {
        if t[i] == 58 {
            proof {
                lemma_first_pos(t@, 58);
                assert(first_pos(t@, 58) == i);
            }
            let major = vstd::slice::slice_to_vec(&t[0..i]);
            let minor = vstd::slice::slice_to_vec(&t[i + 1..t.len()]);
            proof {
                assert(t@.subrange(0, i as int) =~= t@.take(i as int));
                assert(t@.subrange(i + 1, t@.len() as int) =~= t@.skip(i + 1));
            }
            return (major, minor);
        }
        i = i + 1;
    }
    proof {
        lemma_first_pos(t@, 58);
        assert(first_pos(t@, 58) == t@.len());
    }
    (Vec::new(), Vec::new())
}

} // verus!
