use vstd::prelude::*;

verus! {

/// The pattern `p` occurs in `b` at offset `i`.
pub open spec fn match_at(b: Seq<u8>, p: Seq<u8>, i: int) -> bool {
    0 <= i && i + p.len() <= b.len() && b.subrange(i, i + p.len() as int) == p
}

/// Compares the pattern against the window of `data` that starts at `i`.
fn window_eq(data: &[u8], i: usize, pattern: &[u8]) -> (r: bool)
    requires
        i + pattern@.len() <= data@.len(),
    ensures
        r == match_at(data@, pattern@, i as int),
{
    let n = pattern.len();
    let dlen = data.len();
    proof {
        assert(dlen == data@.len());
    }
    let mut j: usize = 0;
    while j < n
        invariant
            0 <= j <= n,
            n == pattern@.len(),
            i + n <= data@.len(),
            data@.len() <= usize::MAX,
            forall|k: int| 0 <= k < j ==> data@[i + k] == pattern@[k],
        decreases n - j,
    {
        if data[i + j] != pattern[j] {
            proof {
                assert(data@.subrange(i as int, i + pattern@.len()) != pattern@) by {
                    assert(data@.subrange(i as int, i + pattern@.len())[j as int] == data@[i + j]);
                }
            }
            return false;
        }
        j = j + 1;
    }
    proof {
        assert(data@.subrange(i as int, i + pattern@.len()) =~= pattern@);
    }
    true
}

/// Every address at which the pattern occurs in the buffer, as absolute
/// addresses against `base`: occurrences may overlap, the listing is
/// strictly ascending and complete, and a buffer without an occurrence
/// gives an empty listing.
pub fn scan_buffer(data: &[u8], base: usize, pattern: &[u8]) -> (r: Vec<usize>)
    requires
        pattern@.len() >= 1,
        base + data@.len() <= usize::MAX,
    ensures
        forall|k: int|
            0 <= k < r@.len() ==> base <= #[trigger] r@[k] && match_at(
                data@,
                pattern@,
                r@[k] - base,
            ),
        forall|i: int| match_at(data@, pattern@, i) ==> r@.contains((base + i) as usize),
        forall|k1: int, k2: int| 0 <= k1 < k2 < r@.len() ==> r@[k1] < r@[k2],
        (forall|i: int| !match_at(data@, pattern@, i)) ==> r@.len() == 0,
{
    let mut r: Vec<usize> = Vec::new();
    if data.len() < pattern.len() {
        proof {
            assert(forall|i: int| !match_at(data@, pattern@, i));
        }
        return r;
    }
    let last = data.len() - pattern.len();
    let mut i: usize = 0;
    while i <= last
        invariant
            0 <= i <= last + 1,
            last == data@.len() - pattern@.len(),
            pattern@.len() >= 1,
            base + data@.len() <= usize::MAX,
            forall|k: int|
                0 <= k < r@.len() ==> base <= #[trigger] r@[k] && r@[k] < base + i && match_at(
                    data@,
                    pattern@,
                    r@[k] - base,
                ),
            forall|j: int| 0 <= j < i && match_at(data@, pattern@, j) ==> r@.contains(
                (base + j) as usize,
            ),
            forall|k1: int, k2: int| 0 <= k1 < k2 < r@.len() ==> r@[k1] < r@[k2],
        decreases last + 1 - i,
    {
        if window_eq(data, i, pattern) {
            let ghost r_old = r@;
            r.push(base + i);
            proof {
                assert(forall|k: int| 0 <= k < r_old.len() ==> r@[k] == r_old[k]);
                assert(r@[r@.len() - 1] == base + i);
                assert(forall|j: int|
                    0 <= j < i + 1 && match_at(data@, pattern@, j) ==> r@.contains(
                        (base + j) as usize,
                    )) by {
                    assert(forall|x: usize| r_old.contains(x) ==> r@.contains(x));
                    assert(r@.contains((base + i) as usize)) by {
                        assert(r@[r@.len() - 1] == (base + i) as usize);
                    }
                };
            }
        } else {
            proof {
                assert(forall|j: int|
                    0 <= j < i + 1 && match_at(data@, pattern@, j) ==> r@.contains(
                        (base + j) as usize,
                    ));
            }
        }
        i = i + 1;
    }
    proof {
        assert(forall|j: int| match_at(data@, pattern@, j) ==> 0 <= j < i);
        if forall|j: int| !match_at(data@, pattern@, j) {
            if r@.len() > 0 {
                assert(match_at(data@, pattern@, r@[0] - base));
            }
        }
    }
    r
}

} // verus!
