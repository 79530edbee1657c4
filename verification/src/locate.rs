use vstd::prelude::*;
use crate::parsing::{parse_dec_i32, spec_dec_i32, split_on, split_ranges};
use crate::region::MemMap;

verus! {

/// The identifiers among a token list: each token that is a valid signed
/// decimal 32-bit number contributes its value, in order; the rest are
/// passed over.
pub open spec fn pids_of(tokens: Seq<Seq<u8>>) -> Seq<i32>
    decreases tokens.len(),
{
    if tokens.len() == 0 {
        Seq::empty()
    } else {
        let rest = pids_of(tokens.drop_first());
        match spec_dec_i32(tokens[0]) {
            Some(v) => seq![v] + rest,
            None => rest,
        }
    }
}

/// The meaning of a name-lookup's output: one trailing line feed is
/// trimmed, the rest splits at every space, and every numeric token is an
/// identifier.  Empty output means no match — never an error.
pub open spec fn spec_parse_pids(out: Seq<u8>) -> Seq<i32> {
    let body = if out.len() > 0 && out.last() == 10 {
        out.drop_last()
    } else {
        out
    };
    pids_of(split_on(body, 32))
}

/// Empty lookup output means zero matches: `parse_pids` then returns the
/// empty list, never an error.
pub proof fn lemma_empty_output_no_pids()
    ensures
        spec_parse_pids(Seq::empty()) == Seq::<i32>::empty(),
{
    let e = Seq::<u8>::empty();
    assert(split_on(e, 32) == seq![e]);
    assert(pids_of(seq![e].drop_first()) == Seq::<i32>::empty()) by {
        assert(seq![e].drop_first() =~~= Seq::<Seq<u8>>::empty());
    }
    assert(spec_dec_i32(e) is None);
    assert(pids_of(seq![e]) =~= Seq::<i32>::empty());
}

/// Lookup output that holds one numeric token and a trailing line feed
/// means one match: `parse_pids` then returns that one identifier.
pub proof fn lemma_single_token_single_pid(t: Seq<u8>, v: i32)
    requires
        t.len() > 0,
        forall|k: int| 0 <= k < t.len() ==> t[k] != 32 && t[k] != 10,
        spec_dec_i32(t) == Some(v),
    ensures
        spec_parse_pids(t.push(10)) == seq![v],
{
    let out = t.push(10);
    assert(out.last() == 10);
    assert(out.drop_last() =~= t);
    crate::parsing::lemma_split_on_whole(t, 32);
    assert(pids_of(seq![t].drop_first()) == Seq::<i32>::empty()) by {
        assert(seq![t].drop_first() =~~= Seq::<Seq<u8>>::empty());
    }
    assert(pids_of(seq![t]) =~= seq![v]);
}

impl MemMap {
    /// Parses the whitespace-separated decimal identifiers that a
    /// name-to-process lookup reports.  Total: any output gives a (possibly
    /// empty) list, exactly the numeric tokens in reported order.
    pub fn parse_pids(output: &[u8]) -> (r: Vec<i32>)
        ensures
            r@ == spec_parse_pids(output@),
    {
        let body: &[u8] = if output.len() > 0 && output[output.len() - 1] == 10 {
            &output[0..output.len() - 1]
        } else {
            &output[0..output.len()]
        };
        proof {
            assert(output@.subrange(0, output@.len() as int) =~= output@);
            if output@.len() > 0 && output@.last() == 10 {
                assert(body@ =~= output@.drop_last());
            } else {
                assert(body@ =~= output@);
            }
        }
        let tokens = split_ranges(body, 32);
        let ghost all = split_on(body@, 32);
        let mut r: Vec<i32> = Vec::new();
        let mut k: usize = 0;
        proof {
            assert(all.skip(0) =~~= all);
            assert(r@ + pids_of(all) =~= pids_of(all));
            assert forall|t: int|
                0 <= t < tokens@.len() implies (#[trigger] tokens@[t]).0 <= tokens@[t].1
                <= body@.len() && all[t] == body@.subrange(
                tokens@[t].0 as int,
                tokens@[t].1 as int,
            ) by {
                assert(tokens@[t].0 <= tokens@[t].1 <= body@.len() && split_on(body@, 32)[t]
                    == body@.subrange(tokens@[t].0 as int, tokens@[t].1 as int));
            }
        }
        while k < tokens.len()
            invariant
                0 <= k <= tokens@.len(),
                tokens@.len() == all.len(),
                all == split_on(body@, 32),
                forall|t: int|
                    0 <= t < tokens@.len() ==> (#[trigger] tokens@[t]).0 <= tokens@[t].1
                        <= body@.len() && all[t] == body@.subrange(
                        tokens@[t].0 as int,
                        tokens@[t].1 as int,
                    ),
                pids_of(all) == r@ + pids_of(all.skip(k as int)),
            decreases tokens@.len() - k,
        {
            let (a, b) = tokens[k];
            let parsed = parse_dec_i32(&body[a..b]);
            proof {
                let tail = all.skip(k as int);
                assert(tail[0] == all[k as int]);
                assert(tail.drop_first() =~~= all.skip(k + 1));
                assert(pids_of(tail) == match spec_dec_i32(all[k as int]) {
                    Some(v) => seq![v] + pids_of(all.skip(k + 1)),
                    None => pids_of(all.skip(k + 1)),
                });
            }
            match parsed {
                Some(v) => {
                    let ghost r_old = r@;
                    r.push(v);
                    proof {
                        assert(r@ =~= r_old + seq![v]);
                        assert(r@ + pids_of(all.skip(k + 1)) =~= r_old + (seq![v] + pids_of(
                            all.skip(k + 1),
                        )));
                    }
                },
                None => {},
            }
            k = k + 1;
        }
        proof {
            assert(all.skip(k as int) =~~= Seq::<Seq<u8>>::empty());
            assert(r@ + pids_of(all.skip(k as int)) =~= r@);
        }
        r
    }
}

} // verus!
