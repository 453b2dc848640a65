//! The pipelined skyline computation, run to quiescence.
//!
//! The driver wires the stages as the pipeline does: the enumerator's id set
//! is broadcast to every filter stage's build side and round-robin
//! distributed over their probe sides; every valid placement is broadcast to
//! every dominance stage's build side while the candidates are round-robin
//! partitioned over their probe sides; all valid placements and all
//! dominated placements meet in the aggregation stage, whose difference
//! yields the skyline and the final count. Here the stages are drained in
//! topological order on one thread, which one sweep brings to quiescence; a
//! multi-threaded driver may interleave the same pushes arbitrarily, since
//! every operator accumulates.

use crate::placement::{
    dominates, has_dc_pair, lemma_has_dc_pair_append, lemma_has_dc_pair_push, mirrors,
    DataCenterId, Placement,
};
use crate::cross_join::probe_pairs;
use crate::stages::{
    distribute_ids, enumerate_data_centers, lemma_valid_pairs_characterisation, placements_match,
    rr_index, valid_pairs_of, AggregationStage, DominanceDetectionStage, PlacementFilterStage,
};
use crate::workload::Workload;
use vstd::prelude::*;

verus! {

/// The placement `(d0, d1)` is dominated by some valid placement: that
/// placement's latency profile is strictly better for every client.
pub open spec fn spec_dominated(w: Workload, d0: int, d1: int) -> bool {
    exists|e0: int, e1: int|
        #[trigger] w.valid_pair(e0, e1) && dominates(
            w.placement_latencies(e0, e1),
            w.placement_latencies(d0, d1),
        )
}

/// The placement `(d0, d1)` belongs to the skyline: it is valid and no
/// valid placement dominates it.
pub open spec fn in_skyline(w: Workload, d0: int, d1: int) -> bool {
    w.valid_pair(d0, d1) && !spec_dominated(w, d0, d1)
}

/// The placement is a valid pair of the workload and carries exactly the
/// latency profile the codec assigns to its pair.
pub open spec fn realises_valid_pair(w: Workload, p: Placement) -> bool {
    &&& w.valid_pair(p.d_0 as int, p.d_1 as int)
    &&& p.latency@ == w.placement_latencies(p.d_0 as int, p.d_1 as int)
}

/// Every placement of `s` realises a valid pair of `w`.
pub open spec fn all_realise_valid_pairs(w: Workload, s: Seq<Placement>) -> bool {
    forall|i: int| 0 <= i < s.len() ==> realises_valid_pair(w, #[trigger] s[i])
}

/// The stream `all` holds a placement for every valid pair whose second
/// component is the data center `b`.
pub open spec fn covers_probe(w: Workload, all: Seq<Placement>, b: DataCenterId) -> bool {
    forall|a: int|
        0 <= a < w.num_d && #[trigger] w.valid_pair(a, b as int) ==> has_dc_pair(
            all,
            (a as DataCenterId, b),
        )
}

/// A stream that covers a probe id still covers it after more placements
/// arrive.
proof fn lemma_covers_probe_append(
    w: Workload,
    s: Seq<Placement>,
    t: Seq<Placement>,
    b: DataCenterId,
)
    requires
        covers_probe(w, s, b),
    ensures
        covers_probe(w, s + t, b),
{
    assert forall|a: int|
        0 <= a < w.num_d && #[trigger] w.valid_pair(a, b as int) implies has_dc_pair(
        s + t,
        (a as DataCenterId, b),
    ) by {
        lemma_has_dc_pair_append(s, t, (a as DataCenterId, b));
    }
}

/// The filter phase of one run: every data-center id is broadcast to each
/// filter stage's build side and round-robin distributed over the stages'
/// probe sides; the concatenation of everything the stages emit is the
/// stream of all valid placements.
pub fn filter_phase(w: &Workload, num_filter: usize) -> (all_valid: Vec<Placement>)
    requires
        w.wf(),
        num_filter >= 1,
        w.num_d + num_filter <= usize::MAX,
    ensures
        all_realise_valid_pairs(*w, all_valid@),
        forall|a: int, b: int|
            0 <= a < w.num_d && 0 <= b < w.num_d && #[trigger] w.valid_pair(a, b)
                ==> has_dc_pair(all_valid@, (a as DataCenterId, b as DataCenterId)),
{
    let ids = enumerate_data_centers(w.num_d);
    let slots = distribute_ids(&ids, num_filter);
    let mut all_valid: Vec<Placement> = Vec::new();
    let mut f: usize = 0;
    while f < num_filter
        invariant
            w.wf(),
            num_filter >= 1,
            w.num_d + num_filter <= usize::MAX,
            f <= num_filter,
            ids@.len() == w.num_d,
            forall|i: int| 0 <= i < w.num_d ==> ids@[i] == i as DataCenterId,
            slots@.len() == num_filter,
            forall|j: int, t: int|
                0 <= j < num_filter && 0 <= t < slots@[j]@.len() ==> #[trigger] slots@[j]@[t]
                    == ids@[rr_index(j, t, num_filter as int)],
            forall|j: int, t: int|
                0 <= j < num_filter && 0 <= t ==> ((#[trigger] rr_index(j, t, num_filter as int))
                    < ids@.len() <==> t < slots@[j]@.len()),
            all_realise_valid_pairs(*w, all_valid@),
            forall|q: int, t: int|
                0 <= q < f && 0 <= t < slots@[q]@.len() ==> covers_probe(
                    *w,
                    all_valid@,
                    #[trigger] slots@[q]@[t],
                ),
        decreases num_filter - f,
    {
        let mut stage = PlacementFilterStage::new(w.num_d);
        let mut i: usize = 0;
        while i < ids.len()
            invariant
                w.wf(),
                ids@.len() == w.num_d,
                forall|t: int| 0 <= t < w.num_d ==> ids@[t] == t as DataCenterId,
                i <= ids@.len(),
                stage.wf(),
                stage.num_d == w.num_d,
                stage.join.build@ == ids@.take(i as int),
                stage.join.probe@.len() == 0,
            decreases ids@.len() - i,
        {
            proof {
                if stage.join.build@.contains(ids@[i as int]) {
                    let t = choose|t: int|
                        0 <= t < i && ids@.take(i as int)[t] == ids@[i as int];
                    assert(ids@[t] == t as DataCenterId);
                }
            }
            let _discard = stage.push_build_dc(w, ids[i]);
            proof {
                assert(stage.join.build@ =~= ids@.take(i + 1 as int));
            }
            i += 1;
        }
        proof {
            assert(stage.join.build@ =~= ids@);
        }
        let slot_len = slots[f].len();
        let mut t: usize = 0;
        while t < slot_len
            invariant
                w.wf(),
                num_filter >= 1,
                f < num_filter,
                t <= slot_len,
                ids@.len() == w.num_d,
                forall|i2: int| 0 <= i2 < w.num_d ==> ids@[i2] == i2 as DataCenterId,
                slots@.len() == num_filter,
                slot_len == slots@[f as int]@.len(),
                forall|j: int, t2: int|
                    0 <= j < num_filter && 0 <= t2 < slots@[j]@.len() ==> #[trigger] slots@[j]@[t2]
                        == ids@[rr_index(j, t2, num_filter as int)],
                forall|j: int, t2: int|
                    0 <= j < num_filter && 0 <= t2 ==> ((#[trigger] rr_index(
                        j,
                        t2,
                        num_filter as int,
                    )) < ids@.len() <==> t2 < slots@[j]@.len()),
                stage.wf(),
                stage.num_d == w.num_d,
                stage.join.build@ == ids@,
                all_realise_valid_pairs(*w, all_valid@),
                forall|x: DataCenterId|
                    stage.join.probe@.contains(x) ==> covers_probe(*w, all_valid@, x),
                forall|q: int, t2: int|
                    0 <= q < f && 0 <= t2 < slots@[q]@.len() ==> covers_probe(
                        *w,
                        all_valid@,
                        #[trigger] slots@[q]@[t2],
                    ),
                forall|t2: int|
                    0 <= t2 < t ==> covers_probe(*w, all_valid@, #[trigger] slots@[f as int]@[t2]),
            decreases slot_len - t,
        {
            let d = slots[f][t];
            proof {
                assert(slots@[f as int]@[t as int] == ids@[rr_index(
                    f as int,
                    t as int,
                    num_filter as int,
                )]);
                assert(rr_index(f as int, t as int, num_filter as int) < ids@.len());
                assert(d < w.num_d);
            }
            let ghost old_probe = stage.join.probe@;
            let ghost old_all = all_valid@;
            let mut outs = stage.push_probe_dc(w, d);
            all_valid.append(&mut outs);
            proof {
                let ghost added = all_valid@.skip(old_all.len() as int);
                assert(all_valid@ == old_all + added);
                // every placement appended realises a valid pair
                assert(all_realise_valid_pairs(*w, all_valid@)) by {
                    assert forall|i2: int|
                        0 <= i2 < all_valid@.len() implies realises_valid_pair(
                        *w,
                        #[trigger] all_valid@[i2],
                    ) by {
                        if i2 >= old_all.len() {
                            let vp = valid_pairs_of(*w, probe_pairs(d, ids@));
                            assert(placements_match(*w, vp, added));
                            let j = i2 - old_all.len();
                            assert(added[j].dc_pair() == vp[j]);
                            assert(vp.contains(vp[j]));
                            lemma_valid_pairs_characterisation(
                                *w,
                                probe_pairs(d, ids@),
                                vp[j],
                            );
                        }
                    }
                }
                // the id just pushed is now covered
                assert(covers_probe(*w, all_valid@, d)) by {
                    if old_probe.contains(d) {
                        lemma_covers_probe_append(*w, old_all, added, d);
                        assert(old_all + added =~= all_valid@);
                    } else {
                        let vp = valid_pairs_of(*w, probe_pairs(d, ids@));
                        assert(placements_match(*w, vp, added));
                        assert forall|a: int|
                            0 <= a < w.num_d && #[trigger] w.valid_pair(a, d as int)
                                implies has_dc_pair(
                            all_valid@,
                            (a as DataCenterId, d),
                        ) by {
                            let k = (a as DataCenterId, d);
                            assert(probe_pairs(d, ids@)[a] == (ids@[a], d));
                            assert(probe_pairs(d, ids@).contains(k));
                            lemma_valid_pairs_characterisation(*w, probe_pairs(d, ids@), k);
                            assert(vp.contains(k));
                            let j = choose|j: int| 0 <= j < vp.len() && vp[j] == k;
                            assert(added[j].dc_pair() == k);
                            assert(all_valid@[old_all.len() + j].dc_pair() == k);
                        }
                    }
                }
                // previously covered ids stay covered
                assert forall|x: DataCenterId|
                    stage.join.probe@.contains(x) implies covers_probe(*w, all_valid@, x) by {
                    if x != d {
                        assert(old_probe.contains(x)) by {
                            if !old_probe.contains(x) {
                                assert(stage.join.probe@ == old_probe.push(d));
                                let ix = choose|ix: int|
                                    0 <= ix < stage.join.probe@.len() && stage.join.probe@[ix]
                                        == x;
                                assert(ix < old_probe.len());
                            }
                        }
                        lemma_covers_probe_append(*w, old_all, added, x);
                        assert(old_all + added =~= all_valid@);
                    }
                }
                assert forall|q: int, t2: int|
                    0 <= q < f && 0 <= t2 < slots@[q]@.len() implies covers_probe(
                    *w,
                    all_valid@,
                    #[trigger] slots@[q]@[t2],
                ) by {
                    lemma_covers_probe_append(*w, old_all, added, slots@[q]@[t2]);
                    assert(old_all + added =~= all_valid@);
                }
                assert forall|t2: int|
                    0 <= t2 < t + 1 implies covers_probe(
                    *w,
                    all_valid@,
                    #[trigger] slots@[f as int]@[t2],
                ) by {
                    if t2 < t {
                        lemma_covers_probe_append(*w, old_all, added, slots@[f as int]@[t2]);
                        assert(old_all + added =~= all_valid@);
                    } else {
                        assert(slots@[f as int]@[t2] == d);
                    }
                }
            }
            t += 1;
        }
        f += 1;
    }
    proof {
        assert forall|a: int, b: int|
            0 <= a < w.num_d && 0 <= b < w.num_d && #[trigger] w.valid_pair(a, b)
                implies has_dc_pair(
            all_valid@,
            (a as DataCenterId, b as DataCenterId),
        ) by {
            let nf = num_filter as int;
            let j = b % nf;
            let t = b / nf;
            vstd::arithmetic::div_mod::lemma_fundamental_div_mod(b, nf);
            vstd::arithmetic::div_mod::lemma_mod_division_less_than_divisor(b, nf);
            vstd::arithmetic::div_mod::lemma_div_pos_is_pos(b, nf);
            assert(nf * t == t * nf) by (nonlinear_arith);
            assert(rr_index(j, t, nf) == b);
            assert(rr_index(j, t, nf) < ids@.len());
            assert(t < slots@[j]@.len());
            assert(slots@[j]@[t] == ids@[b]);
            assert(ids@[b] == b as DataCenterId);
            assert(covers_probe(*w, all_valid@, b as DataCenterId));
            assert((b as DataCenterId) as int == b);
        }
    }
    all_valid
}

/// Every placement of `dom` is dominated by some valid placement of `w`.
pub open spec fn all_dominated(w: Workload, dom: Seq<Placement>) -> bool {
    forall|i: int|
        0 <= i < dom.len() ==> spec_dominated(
            w,
            (#[trigger] dom[i]).d_0 as int,
            dom[i].d_1 as int,
        )
}

/// If the candidate at input index `i` is dominated, its identity stands in
/// the dominated stream `dom`.
pub open spec fn dominated_covered(
    w: Workload,
    all: Seq<Placement>,
    dom: Seq<Placement>,
    i: int,
) -> bool {
    spec_dominated(w, all[i].d_0 as int, all[i].d_1 as int) ==> has_dc_pair(dom, all[i].dc_pair())
}

/// The dominance phase of one run: every valid placement is broadcast to
/// each dominance stage's build side, and the candidates are round-robin
/// partitioned over the stages' probe sides; the concatenation of
/// everything the stages emit is the stream of dominated placements.
pub fn dominance_phase(
    w: &Workload,
    all_valid: &Vec<Placement>,
    num_dominance: usize,
) -> (dominated: Vec<Placement>)
    requires
        w.wf(),
        num_dominance >= 1,
        all_realise_valid_pairs(*w, all_valid@),
        forall|a: int, b: int|
            0 <= a < w.num_d && 0 <= b < w.num_d && #[trigger] w.valid_pair(a, b)
                ==> has_dc_pair(all_valid@, (a as DataCenterId, b as DataCenterId)),
    ensures
        all_dominated(*w, dominated@),
        forall|i: int|
            0 <= i < all_valid@.len() && spec_dominated(
                *w,
                (#[trigger] all_valid@[i]).d_0 as int,
                all_valid@[i].d_1 as int,
            ) ==> has_dc_pair(dominated@, all_valid@[i].dc_pair()),
{
    let nd = num_dominance;
    let mut dominated: Vec<Placement> = Vec::new();
    let mut g: usize = 0;
    while g < nd
        invariant
            w.wf(),
            nd >= 1,
            g <= nd,
            all_realise_valid_pairs(*w, all_valid@),
            forall|a: int, b: int|
                0 <= a < w.num_d && 0 <= b < w.num_d && #[trigger] w.valid_pair(a, b)
                    ==> has_dc_pair(all_valid@, (a as DataCenterId, b as DataCenterId)),
            all_dominated(*w, dominated@),
            forall|q: int, t: int|
                0 <= q < g && 0 <= t && (#[trigger] rr_index(q, t, nd as int)) < all_valid@.len()
                    ==> dominated_covered(*w, all_valid@, dominated@, rr_index(q, t, nd as int)),
        decreases nd - g,
    {
        let mut dstage = DominanceDetectionStage::new(w.num_c);
        let mut i: usize = 0;
        while i < all_valid.len()
            invariant
                w.wf(),
                i <= all_valid@.len(),
                all_realise_valid_pairs(*w, all_valid@),
                dstage.wf(),
                dstage.num_c == w.num_c,
                dstage.probe@.len() == 0,
                forall|j: int|
                    0 <= j < dstage.build@.len() ==> realises_valid_pair(
                        *w,
                        #[trigger] dstage.build@[j],
                    ),
                forall|k: (DataCenterId, DataCenterId)|
                    has_dc_pair(all_valid@.take(i as int), k) ==> has_dc_pair(dstage.build@, k),
            decreases all_valid@.len() - i,
        {
            let q = all_valid[i].replicate();
            proof {
                assert(realises_valid_pair(*w, all_valid@[i as int]));
                assert(q.latency@.len() == w.num_c);
            }
            let ghost old_build = dstage.build@;
            let _discard = dstage.push_build_placement(q);
            proof {
                assert forall|k: (DataCenterId, DataCenterId)|
                    has_dc_pair(all_valid@.take(i + 1 as int), k) implies has_dc_pair(
                    dstage.build@,
                    k,
                ) by {
                    assert(all_valid@.take(i + 1 as int) =~= all_valid@.take(i as int).push(
                        all_valid@[i as int],
                    ));
                    lemma_has_dc_pair_push(all_valid@.take(i as int), all_valid@[i as int], k);
                    if !has_dc_pair(old_build, q.dc_pair()) {
                        lemma_has_dc_pair_push(old_build, q, k);
                    }
                }
            }
            i += 1;
        }
        proof {
            assert(all_valid@.take(all_valid@.len() as int) =~= all_valid@);
        }
        let ghost frozen_build = dstage.build@;
        let mut cursor: usize = 0;
        while cursor < all_valid.len()
            invariant
                w.wf(),
                nd >= 1,
                g < nd,
                all_realise_valid_pairs(*w, all_valid@),
                forall|a: int, b: int|
                    0 <= a < w.num_d && 0 <= b < w.num_d && #[trigger] w.valid_pair(a, b)
                        ==> has_dc_pair(all_valid@, (a as DataCenterId, b as DataCenterId)),
                dstage.wf(),
                dstage.num_c == w.num_c,
                dstage.build@ == frozen_build,
                forall|j: int|
                    0 <= j < dstage.build@.len() ==> realises_valid_pair(
                        *w,
                        #[trigger] dstage.build@[j],
                    ),
                forall|k: (DataCenterId, DataCenterId)|
                    has_dc_pair(all_valid@, k) ==> has_dc_pair(dstage.build@, k),
                cursor <= all_valid@.len(),
                all_dominated(*w, dominated@),
                forall|j: int|
                    0 <= j < dstage.probe@.len() && spec_dominated(
                        *w,
                        (#[trigger] dstage.probe@[j]).d_0 as int,
                        dstage.probe@[j].d_1 as int,
                    ) ==> has_dc_pair(dominated@, dstage.probe@[j].dc_pair()),
                forall|t: int|
                    0 <= t && (#[trigger] rr_index(g as int, t, nd as int)) < cursor ==> has_dc_pair(
                        dstage.probe@,
                        all_valid@[rr_index(g as int, t, nd as int)].dc_pair(),
                    ),
                forall|q: int, t: int|
                    0 <= q < g && 0 <= t && (#[trigger] rr_index(q, t, nd as int))
                        < all_valid@.len() ==> dominated_covered(
                        *w,
                        all_valid@,
                        dominated@,
                        rr_index(q, t, nd as int),
                    ),
            decreases all_valid@.len() - cursor,
        {
            if cursor % nd != g {
                proof {
                    assert forall|t: int|
                        0 <= t && (#[trigger] rr_index(g as int, t, nd as int)) < cursor + 1
                            implies has_dc_pair(
                        dstage.probe@,
                        all_valid@[rr_index(g as int, t, nd as int)].dc_pair(),
                    ) by {
                        if rr_index(g as int, t, nd as int) == cursor {
                            vstd::arithmetic::div_mod::lemma_mod_multiples_vanish(
                                t,
                                g as int,
                                nd as int,
                            );
                            vstd::arithmetic::div_mod::lemma_small_mod(g as nat, nd as nat);
                            assert(t * (nd as int) == (nd as int) * t) by (nonlinear_arith);
                        }
                    }
                }
                cursor += 1;
                continue;
            }
            let idx = cursor;
            let p = all_valid[idx].replicate();
            proof {
                assert(realises_valid_pair(*w, all_valid@[idx as int]));
                assert(p.latency@.len() == w.num_c);
            }
            let ghost old_probe = dstage.probe@;
            let ghost old_dom = dominated@;
            let mut outs = dstage.push_probe_placement(p);
            dominated.append(&mut outs);
            proof {
                let added = dominated@.skip(old_dom.len() as int);
                assert(dominated@ == old_dom + added);
                let fresh = !has_dc_pair(old_probe, p.dc_pair());
                if fresh && added.len() > 0 {
                    let jq = choose|jq: int|
                        0 <= jq < frozen_build.len() && dominates(
                            (#[trigger] frozen_build[jq]).latency@,
                            p.latency@,
                        );
                    assert(realises_valid_pair(*w, frozen_build[jq]));
                    assert(spec_dominated(*w, p.d_0 as int, p.d_1 as int)) by {
                        assert(w.valid_pair(
                            frozen_build[jq].d_0 as int,
                            frozen_build[jq].d_1 as int,
                        ) && dominates(
                            w.placement_latencies(
                                frozen_build[jq].d_0 as int,
                                frozen_build[jq].d_1 as int,
                            ),
                            w.placement_latencies(p.d_0 as int, p.d_1 as int),
                        ));
                    }
                }
                assert(all_dominated(*w, dominated@)) by {
                    assert forall|i2: int|
                        0 <= i2 < dominated@.len() implies spec_dominated(
                        *w,
                        (#[trigger] dominated@[i2]).d_0 as int,
                        dominated@[i2].d_1 as int,
                    ) by {
                        if i2 < old_dom.len() {
                            assert(dominated@[i2] == old_dom[i2]);
                        } else {
                            assert(mirrors(added[i2 - old_dom.len()], p));
                        }
                    }
                }
                // a freshly pushed candidate that is dominated was emitted
                if fresh && spec_dominated(*w, p.d_0 as int, p.d_1 as int) {
                    assert(added.len() > 0) by {
                        if added.len() == 0 {
                            let (e0, e1) = choose|e0: int, e1: int|
                                #[trigger] w.valid_pair(e0, e1) && dominates(
                                    w.placement_latencies(e0, e1),
                                    w.placement_latencies(p.d_0 as int, p.d_1 as int),
                                );
                            assert(has_dc_pair(
                                all_valid@,
                                (e0 as DataCenterId, e1 as DataCenterId),
                            ));
                            assert(has_dc_pair(
                                dstage.build@,
                                (e0 as DataCenterId, e1 as DataCenterId),
                            ));
                            let jb = choose|jb: int|
                                0 <= jb < frozen_build.len() && frozen_build[jb].dc_pair() == (
                                e0 as DataCenterId,
                                e1 as DataCenterId,
                                );
                            assert(realises_valid_pair(*w, frozen_build[jb]));
                            assert((e0 as DataCenterId) as int == e0 && (e1 as DataCenterId) as int
                                == e1) by {
                                assert(w.valid_pair(e0, e1));
                            }
                            assert(dominates(frozen_build[jb].latency@, p.latency@));
                        }
                    }
                    assert(mirrors(added[0], p));
                    assert(dominated@[old_dom.len() as int].dc_pair() == p.dc_pair());
                    assert(has_dc_pair(dominated@, p.dc_pair()));
                }
                // candidates answered earlier stay answered
                assert forall|j: int|
                    0 <= j < dstage.probe@.len() && spec_dominated(
                        *w,
                        (#[trigger] dstage.probe@[j]).d_0 as int,
                        dstage.probe@[j].d_1 as int,
                    ) implies has_dc_pair(dominated@, dstage.probe@[j].dc_pair()) by {
                    if fresh && j == old_probe.len() {
                        assert(dstage.probe@[j] == p);
                    } else {
                        assert(dstage.probe@[j] == old_probe[j]);
                        lemma_has_dc_pair_append(old_dom, added, old_probe[j].dc_pair());
                    }
                }
                // every partition position up to the new index is in the probe set
                assert forall|t: int|
                    0 <= t && (#[trigger] rr_index(g as int, t, nd as int)) < idx + 1
                        implies has_dc_pair(
                    dstage.probe@,
                    all_valid@[rr_index(g as int, t, nd as int)].dc_pair(),
                ) by {
                    let r = rr_index(g as int, t, nd as int);
                    if r < idx {
                        let k = all_valid@[r].dc_pair();
                        if fresh {
                            lemma_has_dc_pair_push(old_probe, p, k);
                        }
                    } else {
                        assert(r == idx);
                        assert(p.dc_pair() == all_valid@[idx as int].dc_pair());
                        if fresh {
                            lemma_has_dc_pair_push(old_probe, p, p.dc_pair());
                        }
                    }
                }
                // earlier stages' answers stay answered
                assert forall|q: int, t: int|
                    0 <= q < g && 0 <= t && (#[trigger] rr_index(q, t, nd as int))
                        < all_valid@.len() implies dominated_covered(
                    *w,
                    all_valid@,
                    dominated@,
                    rr_index(q, t, nd as int),
                ) by {
                    let r = rr_index(q, t, nd as int);
                    lemma_has_dc_pair_append(old_dom, added, all_valid@[r].dc_pair());
                }
            }
            cursor += 1;
        }
        // this stage has answered its whole partition
        proof {
            assert forall|t: int|
                0 <= t && (#[trigger] rr_index(g as int, t, nd as int)) < all_valid@.len()
                    implies dominated_covered(
                *w,
                all_valid@,
                dominated@,
                rr_index(g as int, t, nd as int),
            ) by {
                let r = rr_index(g as int, t, nd as int);
                assert(has_dc_pair(dstage.probe@, all_valid@[r].dc_pair()));
                if spec_dominated(*w, all_valid@[r].d_0 as int, all_valid@[r].d_1 as int) {
                    assert(has_dc_pair(dstage.probe@, all_valid@[r].dc_pair()));
                    let j = choose|j: int|
                        0 <= j < dstage.probe@.len() && dstage.probe@[j].dc_pair()
                            == all_valid@[r].dc_pair();
                    assert(spec_dominated(
                        *w,
                        dstage.probe@[j].d_0 as int,
                        dstage.probe@[j].d_1 as int,
                    ));
                }
            }
        }
        g += 1;
    }
    proof {
        assert forall|i: int|
            0 <= i < all_valid@.len() && spec_dominated(
                *w,
                (#[trigger] all_valid@[i]).d_0 as int,
                all_valid@[i].d_1 as int,
            ) implies has_dc_pair(dominated@, all_valid@[i].dc_pair()) by {
            let n = nd as int;
            let q = i % n;
            let t = i / n;
            vstd::arithmetic::div_mod::lemma_fundamental_div_mod(i, n);
            vstd::arithmetic::div_mod::lemma_mod_division_less_than_divisor(i, n);
            vstd::arithmetic::div_mod::lemma_div_pos_is_pos(i, n);
            assert(n * t == t * n) by (nonlinear_arith);
            assert(rr_index(q, t, n) == i);
            assert(dominated_covered(*w, all_valid@, dominated@, i));
        }
    }
    dominated
}

/// The outcome of one pipeline run: the skyline placements and the final
/// reported count.
pub struct PipelineRun {
    pub skyline: Vec<Placement>,
    pub count: usize,
}

/// The aggregation phase of one run: all valid placements are fed to the
/// difference's positive side, all dominated placements to its negative
/// side, with the running count re-emitted after every arrival; the
/// survivors are the skyline.
pub fn aggregation_phase(all_valid: Vec<Placement>, dominated: Vec<Placement>) -> (r: PipelineRun)
    ensures
        r.count == r.skyline@.len(),
        crate::placement::distinct_dc_pairs(r.skyline@),
        forall|k: (DataCenterId, DataCenterId)|
            #[trigger] has_dc_pair(r.skyline@, k) <==> (has_dc_pair(all_valid@, k)
                && !has_dc_pair(dominated@, k)),
        forall|i: int| 0 <= i < r.skyline@.len() ==> all_valid@.contains(#[trigger] r.skyline@[i]),
{
    let ghost all0 = all_valid@;
    let ghost dom0 = dominated@;
    let mut agg = AggregationStage::new();
    let mut count: usize = 0;
    proof {
        assert(count == crate::difference::surviving(agg.diff.pos@, agg.diff.neg@).len());
    }
    let mut rest = all_valid;
    let ghost mut prefix = Seq::<Placement>::empty();
    while rest.len() > 0
        invariant
            agg.wf(),
            all0 == prefix + rest@,
            agg.diff.neg@.len() == 0,
            count == crate::difference::surviving(agg.diff.pos@, agg.diff.neg@).len(),
            forall|k: (DataCenterId, DataCenterId)|
                #[trigger] has_dc_pair(agg.diff.pos@, k) <==> has_dc_pair(prefix, k),
            forall|i: int|
                0 <= i < agg.diff.pos@.len() ==> all0.contains(#[trigger] agg.diff.pos@[i]),
        decreases rest@.len(),
    {
        let ghost rest_before = rest@;
        let p = rest.remove(0);
        proof {
            assert(all0[prefix.len() as int] == p);
            assert(all0.contains(p));
        }
        let ghost old_pos = agg.diff.pos@;
        count = agg.push_all(p);
        proof {
            assert(prefix.push(p) + rest@ =~= prefix + rest_before);
            assert forall|k: (DataCenterId, DataCenterId)| #[trigger] has_dc_pair(
                agg.diff.pos@,
                k,
            ) <==> has_dc_pair(prefix.push(p), k) by {
                lemma_has_dc_pair_push(prefix, p, k);
                if !has_dc_pair(old_pos, p.dc_pair()) {
                    lemma_has_dc_pair_push(old_pos, p, k);
                }
            }
            prefix = prefix.push(p);
        }
    }
    proof {
        assert(all0 =~= prefix);
    }
    let mut rest_dom = dominated;
    let ghost mut dprefix = Seq::<Placement>::empty();
    while rest_dom.len() > 0
        invariant
            agg.wf(),
            dom0 == dprefix + rest_dom@,
            count == crate::difference::surviving(agg.diff.pos@, agg.diff.neg@).len(),
            forall|k: (DataCenterId, DataCenterId)|
                #[trigger] has_dc_pair(agg.diff.pos@, k) <==> has_dc_pair(all0, k),
            forall|i: int|
                0 <= i < agg.diff.pos@.len() ==> all0.contains(#[trigger] agg.diff.pos@[i]),
            forall|k: (DataCenterId, DataCenterId)|
                #[trigger] has_dc_pair(agg.diff.neg@, k) <==> has_dc_pair(dprefix, k),
        decreases rest_dom@.len(),
    {
        let ghost rest_before = rest_dom@;
        let p = rest_dom.remove(0);
        proof {
            assert(dom0[dprefix.len() as int] == p);
        }
        let ghost old_neg = agg.diff.neg@;
        count = agg.push_dominated(p);
        proof {
            assert(dprefix.push(p) + rest_dom@ =~= dprefix + rest_before);
            assert forall|k: (DataCenterId, DataCenterId)| #[trigger] has_dc_pair(
                agg.diff.neg@,
                k,
            ) <==> has_dc_pair(dprefix.push(p), k) by {
                lemma_has_dc_pair_push(dprefix, p, k);
                if !has_dc_pair(old_neg, p.dc_pair()) {
                    lemma_has_dc_pair_push(old_neg, p, k);
                }
            }
            dprefix = dprefix.push(p);
        }
    }
    proof {
        assert(dom0 =~= dprefix);
    }
    let ghost pos_fin = agg.diff.pos@;
    let ghost neg_fin = agg.diff.neg@;
    proof {
        crate::difference::lemma_surviving_distinct(pos_fin, neg_fin);
        crate::difference::lemma_surviving_elements(pos_fin, neg_fin);
    }
    let skyline = agg.skyline();
    proof {
        assert forall|k: (DataCenterId, DataCenterId)| #[trigger] has_dc_pair(skyline@, k) <==> (
        has_dc_pair(all0, k) && !has_dc_pair(dom0, k)) by {
            crate::difference::lemma_surviving_characterisation(pos_fin, neg_fin, k);
        }
        assert forall|i: int| 0 <= i < skyline@.len() implies all0.contains(
            #[trigger] skyline@[i],
        ) by {
            assert(pos_fin.contains(skyline@[i]));
            let j = choose|j: int| 0 <= j < pos_fin.len() && pos_fin[j] == skyline@[i];
        }
    }
    PipelineRun { skyline, count }
}

/// One full pipelined run, drained to quiescence: enumeration, distance
/// filtering, dominance detection and aggregation, wired by broadcast and
/// round-robin fan-out exactly as the stage graph prescribes. The returned
/// count and skyline are exactly the Pareto-optimal placements of the
/// workload.
pub fn run_pipeline(w: &Workload, num_filter: usize, num_dominance: usize) -> (r: PipelineRun)
    requires
        w.wf(),
        num_filter >= 1,
        num_dominance >= 1,
        w.num_d + num_filter <= usize::MAX,
    ensures
        r.count == r.skyline@.len(),
        crate::placement::distinct_dc_pairs(r.skyline@),
        forall|k: (DataCenterId, DataCenterId)|
            #[trigger] has_dc_pair(r.skyline@, k) <==> in_skyline(*w, k.0 as int, k.1 as int),
        all_realise_valid_pairs(*w, r.skyline@),
{
    let all_valid = filter_phase(w, num_filter);
    let dominated = dominance_phase(w, &all_valid, num_dominance);
    let ghost all0 = all_valid@;
    let ghost dom0 = dominated@;
    let r = aggregation_phase(all_valid, dominated);
    proof {
        assert forall|k: (DataCenterId, DataCenterId)| #[trigger] has_dc_pair(r.skyline@, k)
            <==> in_skyline(*w, k.0 as int, k.1 as int) by {
            let d0 = k.0 as int;
            let d1 = k.1 as int;
            if has_dc_pair(all0, k) {
                let i = choose|i: int| 0 <= i < all0.len() && all0[i].dc_pair() == k;
                assert(realises_valid_pair(*w, all0[i]));
                assert(w.valid_pair(d0, d1));
                if has_dc_pair(dom0, k) {
                    let j = choose|j: int| 0 <= j < dom0.len() && dom0[j].dc_pair() == k;
                    assert(spec_dominated(*w, dom0[j].d_0 as int, dom0[j].d_1 as int));
                    assert(spec_dominated(*w, d0, d1));
                }
                if spec_dominated(*w, d0, d1) {
                    assert(spec_dominated(*w, all0[i].d_0 as int, all0[i].d_1 as int));
                    assert(has_dc_pair(dom0, k));
                }
            } else {
                if w.valid_pair(d0, d1) {
                    assert(has_dc_pair(all0, ((d0 as DataCenterId), (d1 as DataCenterId))));
                    assert((d0 as DataCenterId) == k.0 && (d1 as DataCenterId) == k.1);
                }
            }
        }
        assert forall|i: int| 0 <= i < r.skyline@.len() implies realises_valid_pair(
            *w,
            #[trigger] r.skyline@[i],
        ) by {
            assert(all0.contains(r.skyline@[i]));
            let j = choose|j: int| 0 <= j < all0.len() && all0[j] == r.skyline@[i];
        }
    }
    r
}

/// Dominance correctness: a placement stands in the skyline exactly when it
/// is valid and no other valid placement dominates it. With at least one
/// client, no placement dominates itself, since dominance is strict, so
/// ruling out every other valid placement rules out every dominator.
pub proof fn lemma_skyline_dominance_correctness(w: Workload, d0: int, d1: int)
    requires
        w.num_c >= 1,
    ensures
        in_skyline(w, d0, d1) <==> (w.valid_pair(d0, d1) && (forall|e0: int, e1: int|
            (#[trigger] w.valid_pair(e0, e1) && !(e0 == d0 && e1 == d1)) ==> !dominates(
                w.placement_latencies(e0, e1),
                w.placement_latencies(d0, d1),
            ))),
{
    if in_skyline(w, d0, d1) {
        assert forall|e0: int, e1: int|
            (#[trigger] w.valid_pair(e0, e1) && !(e0 == d0 && e1 == d1)) implies !dominates(
            w.placement_latencies(e0, e1),
            w.placement_latencies(d0, d1),
        ) by {
            if dominates(w.placement_latencies(e0, e1), w.placement_latencies(d0, d1)) {
                assert(spec_dominated(w, d0, d1));
            }
        }
    }
    if w.valid_pair(d0, d1) && (forall|e0: int, e1: int|
        (#[trigger] w.valid_pair(e0, e1) && !(e0 == d0 && e1 == d1)) ==> !dominates(
            w.placement_latencies(e0, e1),
            w.placement_latencies(d0, d1),
        )) {
        if spec_dominated(w, d0, d1) {
            let (e0, e1) = choose|e0: int, e1: int|
                #[trigger] w.valid_pair(e0, e1) && dominates(
                    w.placement_latencies(e0, e1),
                    w.placement_latencies(d0, d1),
                );
            if e0 == d0 && e1 == d1 {
                crate::placement::lemma_dominance_irreflexive(w.placement_latencies(d0, d1));
            }
        }
    }
}

} // verus!
