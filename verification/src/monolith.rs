//! The monolithic enumeration baseline's compute core.
//!
//! The baseline skips the staged pipeline: it enumerates the unordered
//! data-center combinations directly, applies the distance filter, builds
//! each surviving pair's placement and reports the count. It serves as a
//! single-threaded reference point for the pipelined run.

use crate::placement::{has_dc_pair, DataCenterId, Placement};
use crate::stages::{
    filter_valid_placements, lemma_valid_pairs_characterisation, placements_match, valid_pairs_of,
};
use crate::pipeline::{all_realise_valid_pairs, realises_valid_pair};
use crate::workload::Workload;
use vstd::prelude::*;

verus! {

/// Every unordered combination of two distinct data centers, as the ordered
/// pair with the smaller id first, in lexicographic order.
pub fn enumerate_combination_pairs(num_d: usize) -> (out: Vec<(DataCenterId, DataCenterId)>)
    requires
        num_d <= u16::MAX + 1,
    ensures
        forall|i: int|
            0 <= i < out@.len() ==> (#[trigger] out@[i]).0 < out@[i].1 && out@[i].1 < num_d,
        forall|a: int, b: int|
            0 <= a < b < num_d ==> #[trigger] out@.contains((a as DataCenterId, b as DataCenterId)),
{
    let mut out: Vec<(DataCenterId, DataCenterId)> = Vec::new();
    let mut a: usize = 0;
    while a < num_d
        invariant
            num_d <= u16::MAX + 1,
            a <= num_d,
            forall|i: int|
                0 <= i < out@.len() ==> (#[trigger] out@[i]).0 < out@[i].1 && out@[i].1 < num_d,
            forall|x: int, y: int|
                0 <= x < y < num_d && x < a ==> #[trigger] out@.contains(
                    (x as DataCenterId, y as DataCenterId),
                ),
        decreases num_d - a,
    {
        let mut b: usize = a + 1;
        while b < num_d
            invariant
                num_d <= u16::MAX + 1,
                a < num_d,
                a + 1 <= b <= num_d,
                forall|i: int|
                    0 <= i < out@.len() ==> (#[trigger] out@[i]).0 < out@[i].1 && out@[i].1
                        < num_d,
                forall|x: int, y: int|
                    0 <= x < y < num_d && x < a ==> #[trigger] out@.contains(
                        (x as DataCenterId, y as DataCenterId),
                    ),
                forall|y: int|
                    a < y < b ==> #[trigger] out@.contains((a as DataCenterId, y as DataCenterId)),
            decreases num_d - b,
        {
            let ghost out_before = out@;
            out.push((a as DataCenterId, b as DataCenterId));
            proof {
                assert(out@.last() == (a as DataCenterId, b as DataCenterId));
                assert forall|x: int, y: int|
                    #![trigger out@.contains((x as DataCenterId, y as DataCenterId))]
                    0 <= x < y < num_d && x < a implies out@.contains(
                    (x as DataCenterId, y as DataCenterId),
                ) by {
                    let k = (x as DataCenterId, y as DataCenterId);
                    assert(out_before.contains(k));
                    let i = choose|i: int| 0 <= i < out_before.len() && out_before[i] == k;
                    assert(out@[i] == k);
                }
                assert forall|y: int|
                    #![trigger out@.contains((a as DataCenterId, y as DataCenterId))]
                    a < y < b + 1 implies out@.contains(
                    (a as DataCenterId, y as DataCenterId),
                ) by {
                    let k = (a as DataCenterId, y as DataCenterId);
                    if y < b {
                        assert(out_before.contains(k));
                        let i = choose|i: int| 0 <= i < out_before.len() && out_before[i] == k;
                        assert(out@[i] == k);
                    } else {
                        assert(out@[out@.len() - 1] == k);
                    }
                }
            }
            b += 1;
        }
        a += 1;
    }
    out
}

/// One run of the monolithic enumeration baseline: the valid placements of
/// every unordered combination, with their count, which the baseline's
/// running count reaches after the last arrival.
pub fn run_monolith_enumeration(w: &Workload) -> (r: (Vec<Placement>, usize))
    requires
        w.wf(),
    ensures
        r.1 == r.0@.len(),
        all_realise_valid_pairs(*w, r.0@),
        forall|i: int| 0 <= i < r.0@.len() ==> (#[trigger] r.0@[i]).d_0 < r.0@[i].d_1,
        forall|a: int, b: int|
            0 <= a < b < w.num_d && #[trigger] w.valid_pair(a, b) ==> has_dc_pair(
                r.0@,
                (a as DataCenterId, b as DataCenterId),
            ),
{
    let pairs = enumerate_combination_pairs(w.num_d);
    let ghost pair_seq = pairs@;
    let placements = filter_valid_placements(w, pairs);
    let count = placements.len();
    proof {
        let vp = valid_pairs_of(*w, pair_seq);
        assert(placements_match(*w, vp, placements@));
        assert forall|i: int| 0 <= i < placements@.len() implies realises_valid_pair(
            *w,
            #[trigger] placements@[i],
        ) && placements@[i].d_0 < placements@[i].d_1 by {
            assert(placements@[i].dc_pair() == vp[i]);
            assert(vp.contains(vp[i]));
            lemma_valid_pairs_characterisation(*w, pair_seq, vp[i]);
            let j = choose|j: int| 0 <= j < pair_seq.len() && pair_seq[j] == vp[i];
        }
        assert forall|a: int, b: int|
            0 <= a < b < w.num_d && #[trigger] w.valid_pair(a, b) implies has_dc_pair(
            placements@,
            (a as DataCenterId, b as DataCenterId),
        ) by {
            let k = (a as DataCenterId, b as DataCenterId);
            assert(pair_seq.contains(k));
            lemma_valid_pairs_characterisation(*w, pair_seq, k);
            assert(vp.contains(k));
            let j = choose|j: int| 0 <= j < vp.len() && vp[j] == k;
            assert(placements@[j].dc_pair() == k);
        }
    }
    (placements, count)
}

} // verus!
