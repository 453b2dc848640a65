//! The pipeline's stages.
//!
//! The data-center enumerator emits the id set and fans it out: broadcast to
//! every filter stage's build side, round-robin over the filter stages'
//! probe sides. Each placement filter stage cross-joins its two id streams,
//! applies the distance constraint and builds the valid placements. Each
//! dominance detection stage cross-joins its two placement streams and
//! forwards every placement found to be dominated. The aggregation stage
//! subtracts the dominated placements from all valid placements and reports
//! the running count.

use crate::cross_join::{build_pairs, probe_pairs, IdCrossJoin};
use crate::difference::{surviving, PlacementDifference};
use crate::placement::{
    dominates, has_dc_pair, mirrors, DataCenterId, Placement,
};
use crate::workload::Workload;
use vstd::prelude::*;

verus! {

/// The data-center id set of one run: the ids `0 .. num_d`, in order, once
/// each.
pub fn enumerate_data_centers(num_d: usize) -> (out: Vec<DataCenterId>)
    requires
        num_d <= u16::MAX + 1,
    ensures
        out@.len() == num_d,
        forall|i: int| 0 <= i < num_d ==> out@[i] == i as DataCenterId,
{
    let mut out: Vec<DataCenterId> = Vec::new();
    let mut i: usize = 0;
    while i < num_d
        invariant
            num_d <= u16::MAX + 1,
            i <= num_d,
            out@.len() == i,
            forall|j: int| 0 <= j < i ==> out@[j] == j as DataCenterId,
        decreases num_d - i,
    {
        out.push(i as DataCenterId);
        i += 1;
    }
    out
}

/// The input index that round-robin fan-out over `n` slots assigns to
/// position `t` of slot `j`.
pub open spec fn rr_index(j: int, t: int, n: int) -> int {
    j + t * n
}

/// Round-robin fan-out: the element at input index `i` goes to slot
/// `i mod n`, so slot `j` receives the elements at indices `j`, `j + n`,
/// `j + 2n`, ... in input order.
pub fn distribute_ids(s: &Vec<DataCenterId>, n: usize) -> (out: Vec<Vec<DataCenterId>>)
    requires
        n >= 1,
        s@.len() + n <= usize::MAX,
    ensures
        out@.len() == n,
        forall|j: int, t: int|
            0 <= j < n && 0 <= t < out@[j]@.len() ==> #[trigger] out@[j]@[t] == s@[rr_index(
                j,
                t,
                n as int,
            )],
        forall|j: int, t: int|
            0 <= j < n && 0 <= t ==> ((#[trigger] rr_index(j, t, n as int)) < s@.len() <==> t
                < out@[j]@.len()),
{
    let mut out: Vec<Vec<DataCenterId>> = Vec::new();
    let mut j: usize = 0;
    while j < n
        invariant
            n >= 1,
            s@.len() + n <= usize::MAX,
            j <= n,
            out@.len() == j,
            forall|q: int, t: int|
                0 <= q < j && 0 <= t < out@[q]@.len() ==> #[trigger] out@[q]@[t] == s@[rr_index(
                    q,
                    t,
                    n as int,
                )],
            forall|q: int, t: int|
                0 <= q < j && 0 <= t ==> ((#[trigger] rr_index(q, t, n as int)) < s@.len() <==> t
                    < out@[q]@.len()),
        decreases n - j,
    {
        let mut slot: Vec<DataCenterId> = Vec::new();
        let mut idx: usize = j;
        proof {
            assert(slot@.len() * n == 0) by (nonlinear_arith)
                requires
                    slot@.len() == 0,
            ;
        }
        while idx < s.len()
            invariant
                n >= 1,
                j < n,
                s@.len() + n <= usize::MAX,
                idx == j + slot@.len() * n,
                forall|t: int|
                    0 <= t < slot@.len() ==> #[trigger] slot@[t] == s@[rr_index(
                        j as int,
                        t,
                        n as int,
                    )],
                forall|t: int| 0 <= t < slot@.len() ==> rr_index(j as int, t, n as int) < s@.len(),
                idx <= s@.len() + n,
            decreases s@.len() + n - idx,
        {
            let ghost t0 = slot@.len() as int;
            slot.push(s[idx]);
            proof {
                assert(slot@.last() == s@[rr_index(j as int, t0, n as int)]);
                assert((t0 + 1) * n == t0 * n + n) by (nonlinear_arith);
            }
            idx += n;
        }
        proof {
            assert forall|t: int|
                0 <= t && rr_index(j as int, t, n as int) < s@.len() implies t < slot@.len() by {
                if t >= slot@.len() {
                    assert(slot@.len() * n <= t * n) by (nonlinear_arith)
                        requires
                            slot@.len() <= t,
                            n >= 1,
                    ;
                }
            }
        }
        out.push(slot);
        j += 1;
    }
    out
}

/// The pairs among `pairs` that satisfy the distance constraint of `w`, in
/// order.
pub open spec fn valid_pairs_of(w: Workload, pairs: Seq<(DataCenterId, DataCenterId)>) -> Seq<
    (DataCenterId, DataCenterId),
>
    decreases pairs.len(),
{
    if pairs.len() == 0 {
        Seq::empty()
    } else {
        let rest = valid_pairs_of(w, pairs.drop_last());
        if w.valid_pair(pairs.last().0 as int, pairs.last().1 as int) {
            rest.push(pairs.last())
        } else {
            rest
        }
    }
}

/// Distance filter correctness: a pair appears downstream of the filter
/// exactly when it arrived and its distance exceeds the constraint.
pub proof fn lemma_valid_pairs_characterisation(
    w: Workload,
    pairs: Seq<(DataCenterId, DataCenterId)>,
    k: (DataCenterId, DataCenterId),
)
    ensures
        valid_pairs_of(w, pairs).contains(k) <==> (pairs.contains(k) && w.valid_pair(
            k.0 as int,
            k.1 as int,
        )),
    decreases pairs.len(),
{
    if pairs.len() > 0 {
        lemma_valid_pairs_characterisation(w, pairs.drop_last(), k);
        let rest = valid_pairs_of(w, pairs.drop_last());
        if pairs.contains(k) {
            let i = choose|i: int| 0 <= i < pairs.len() && pairs[i] == k;
            if i < pairs.len() - 1 {
                assert(pairs.drop_last()[i] == k);
                assert(pairs.drop_last().contains(k));
            }
        }
        if pairs.drop_last().contains(k) {
            let i = choose|i: int|
                0 <= i < pairs.drop_last().len() && pairs.drop_last()[i] == k;
            assert(pairs[i] == k);
        }
        if pairs.last() == k {
            assert(pairs[pairs.len() - 1] == k);
        }
        if w.valid_pair(pairs.last().0 as int, pairs.last().1 as int) {
            if rest.contains(k) {
                let i = choose|i: int| 0 <= i < rest.len() && rest[i] == k;
                assert(rest.push(pairs.last())[i] == k);
            }
            if rest.push(pairs.last()).contains(k) {
                let i = choose|i: int|
                    0 <= i < rest.push(pairs.last()).len() && rest.push(pairs.last())[i] == k;
                if i < rest.len() {
                    assert(rest[i] == k);
                } else {
                    assert(pairs.last() == k);
                }
            }
            if pairs.last() == k {
                assert(rest.push(pairs.last()).last() == k);
            }
        }
    }
}

/// The placements `ps` realise the pairs `pairs` under the workload `w`:
/// same identities in the same order, each with the latency profile the
/// codec assigns to its pair.
pub open spec fn placements_match(
    w: Workload,
    pairs: Seq<(DataCenterId, DataCenterId)>,
    ps: Seq<Placement>,
) -> bool {
    &&& ps.len() == pairs.len()
    &&& forall|i: int|
        0 <= i < ps.len() ==> (#[trigger] ps[i]).dc_pair() == pairs[i] && ps[i].latency@
            == w.placement_latencies(pairs[i].0 as int, pairs[i].1 as int)
}

/// Every id in `s` names a data center of a run with `n` of them.
pub open spec fn ids_below(s: Seq<DataCenterId>, n: int) -> bool {
    forall|i: int| 0 <= i < s.len() ==> s[i] < n
}

/// One placement filter stage: cross-joins its build-side and probe-side
/// data-center streams, keeps the pairs that satisfy the distance
/// constraint, and builds each surviving pair's placement. The stage holds
/// the join state; the driver hands it (its copy of) the tables with every
/// arrival.
pub struct PlacementFilterStage {
    pub num_d: usize,
    pub join: IdCrossJoin,
}

impl PlacementFilterStage {
    /// Every accumulated id names a data center.
    pub open spec fn wf(self) -> bool {
        &&& self.join.wf()
        &&& ids_below(self.join.build@, self.num_d as int)
        &&& ids_below(self.join.probe@, self.num_d as int)
    }

    /// A fresh stage for a run over `num_d` data centers.
    pub fn new(num_d: usize) -> (r: Self)
        ensures
            r.wf(),
            r.num_d == num_d,
            r.join.build@ == Seq::<DataCenterId>::empty(),
            r.join.probe@ == Seq::<DataCenterId>::empty(),
    {
        PlacementFilterStage { num_d, join: IdCrossJoin::new() }
    }

    /// Accepts one build-side data-center id and returns the valid
    /// placements of the pairs the cross-join emits for it.
    pub fn push_build_dc(&mut self, w: &Workload, d: DataCenterId) -> (out: Vec<Placement>)
        requires
            old(self).wf(),
            w.wf(),
            w.num_d == old(self).num_d,
            d < old(self).num_d,
        ensures
            final(self).wf(),
            final(self).num_d == old(self).num_d,
            final(self).join.probe@ == old(self).join.probe@,
            old(self).join.build@.contains(d) ==> final(self).join.build@ == old(self).join.build@
                && out@.len() == 0,
            !old(self).join.build@.contains(d) ==> final(self).join.build@ == old(
                self,
            ).join.build@.push(d) && placements_match(
                *w,
                valid_pairs_of(*w, build_pairs(d, old(self).join.probe@)),
                out@,
            ),
    {
        let pairs = self.join.push_build(d);
        filter_valid_placements(w, pairs)
    }

    /// Accepts one probe-side data-center id and returns the valid
    /// placements of the pairs the cross-join emits for it.
    pub fn push_probe_dc(&mut self, w: &Workload, d: DataCenterId) -> (out: Vec<Placement>)
        requires
            old(self).wf(),
            w.wf(),
            w.num_d == old(self).num_d,
            d < old(self).num_d,
        ensures
            final(self).wf(),
            final(self).num_d == old(self).num_d,
            final(self).join.build@ == old(self).join.build@,
            old(self).join.probe@.contains(d) ==> final(self).join.probe@ == old(self).join.probe@
                && out@.len() == 0,
            !old(self).join.probe@.contains(d) ==> final(self).join.probe@ == old(
                self,
            ).join.probe@.push(d) && placements_match(
                *w,
                valid_pairs_of(*w, probe_pairs(d, old(self).join.build@)),
                out@,
            ),
    {
        let pairs = self.join.push_probe(d);
        filter_valid_placements(w, pairs)
    }
}

/// Applies the distance filter to a batch of data-center pairs and builds
/// the placements of those that pass.
pub fn filter_valid_placements(w: &Workload, pairs: Vec<(DataCenterId, DataCenterId)>) -> (out: Vec<
    Placement,
>)
    requires
        w.wf(),
        forall|i: int|
            0 <= i < pairs@.len() ==> (#[trigger] pairs@[i]).0 < w.num_d && pairs@[i].1 < w.num_d,
    ensures
        placements_match(*w, valid_pairs_of(*w, pairs@), out@),
{
    let mut out: Vec<Placement> = Vec::new();
    let mut i: usize = 0;
    while i < pairs.len()
        invariant
            w.wf(),
            i <= pairs@.len(),
            forall|t: int|
                0 <= t < pairs@.len() ==> (#[trigger] pairs@[t]).0 < w.num_d && pairs@[t].1
                    < w.num_d,
            placements_match(*w, valid_pairs_of(*w, pairs@.take(i as int)), out@),
        decreases pairs@.len() - i,
    {
        let (a, b) = pairs[i];
        proof {
            assert(pairs@.take(i + 1 as int).drop_last() =~= pairs@.take(i as int));
            assert(pairs@.take(i + 1 as int).last() == pairs@[i as int]);
        }
        if w.is_valid_pair(a, b) {
            let p = w.build_placement(a, b);
            out.push(p);
        }
        i += 1;
    }
    proof {
        assert(pairs@.take(pairs@.len() as int) =~= pairs@);
    }
    out
}

/// The placement `x` is a copy of some accumulated candidate that `q`
/// dominates.
pub open spec fn emitted_from(x: Placement, q: Placement, probe: Seq<Placement>) -> bool {
    exists|t: int|
        0 <= t < probe.len() && mirrors(x, #[trigger] probe[t]) && dominates(
            q.latency@,
            probe[t].latency@,
        )
}

/// One dominance detection stage: cross-joins the broadcast stream of all
/// valid placements (its build side) against its round-robin share of
/// candidate placements (its probe side), and emits each candidate found to
/// be dominated, once per dominating build-side placement.
pub struct DominanceDetectionStage {
    pub num_c: usize,
    pub build: Vec<Placement>,
    pub probe: Vec<Placement>,
}

impl DominanceDetectionStage {
    /// Both accumulating sides hold pairwise-distinct identities and
    /// profiles of one entry per client.
    pub open spec fn wf(self) -> bool {
        &&& crate::placement::distinct_dc_pairs(self.build@)
        &&& crate::placement::distinct_dc_pairs(self.probe@)
        &&& forall|i: int|
            0 <= i < self.build@.len() ==> (#[trigger] self.build@[i]).latency@.len() == self.num_c
        &&& forall|i: int|
            0 <= i < self.probe@.len() ==> (#[trigger] self.probe@[i]).latency@.len() == self.num_c
    }

    /// A fresh stage for profiles of `num_c` clients.
    pub fn new(num_c: usize) -> (r: Self)
        ensures
            r.wf(),
            r.num_c == num_c,
            r.build@ == Seq::<Placement>::empty(),
            r.probe@ == Seq::<Placement>::empty(),
    {
        DominanceDetectionStage { num_c, build: Vec::new(), probe: Vec::new() }
    }

    /// Accepts one build-side placement `q` and emits every accumulated
    /// candidate that `q` dominates.
    pub fn push_build_placement(&mut self, q: Placement) -> (out: Vec<Placement>)
        requires
            old(self).wf(),
            q.latency@.len() == old(self).num_c,
        ensures
            final(self).wf(),
            final(self).num_c == old(self).num_c,
            final(self).probe@ == old(self).probe@,
            has_dc_pair(old(self).build@, q.dc_pair()) ==> final(self).build@ == old(self).build@
                && out@.len() == 0,
            !has_dc_pair(old(self).build@, q.dc_pair()) ==> final(self).build@ == old(
                self,
            ).build@.push(q),
            forall|i: int| 0 <= i < out@.len() ==> emitted_from(#[trigger] out@[i], q, old(self).probe@),
            forall|j: int|
                0 <= j < old(self).probe@.len() && dominates(
                    q.latency@,
                    (#[trigger] old(self).probe@[j]).latency@,
                ) && !has_dc_pair(old(self).build@, q.dc_pair()) ==> has_dc_pair(
                    out@,
                    old(self).probe@[j].dc_pair(),
                ),
    {
        if crate::placement::contains_dc_pair(&self.build, q.d_0, q.d_1) {
            return Vec::new();
        }
        let mut out: Vec<Placement> = Vec::new();
        let mut j: usize = 0;
        while j < self.probe.len()
            invariant
                self.wf(),
                q.latency@.len() == self.num_c,
                j <= self.probe@.len(),
                forall|i: int| 0 <= i < out@.len() ==> emitted_from(#[trigger] out@[i], q, self.probe@),
                forall|t: int|
                    0 <= t < j && dominates(q.latency@, (#[trigger] self.probe@[t]).latency@)
                        ==> has_dc_pair(out@, self.probe@[t].dc_pair()),
            decreases self.probe@.len() - j,
        {
            let dominated = crate::placement::lt_slice(&q.latency, &self.probe[j].latency);
            if dominated {
                let copy = self.probe[j].replicate();
                let ghost out_before = out@;
                out.push(copy);
                proof {
                    assert(mirrors(out@.last(), self.probe@[j as int]));
                    assert(emitted_from(out@[out@.len() - 1], q, self.probe@));
                    assert forall|t: int|
                        0 <= t < out_before.len() implies out@[t] == out_before[t] by {}
                    assert(has_dc_pair(out@, self.probe@[j as int].dc_pair())) by {
                        assert(out@[out@.len() - 1].dc_pair() == self.probe@[
                            j as int].dc_pair());
                    }
                    assert forall|t: int|
                        0 <= t < j + 1 && dominates(
                            q.latency@,
                            (#[trigger] self.probe@[t]).latency@,
                        ) implies has_dc_pair(out@, self.probe@[t].dc_pair()) by {
                        if t < j {
                            let i = choose|i: int|
                                0 <= i < out_before.len() && out_before[i].dc_pair()
                                    == self.probe@[t].dc_pair();
                            assert(out@[i].dc_pair() == self.probe@[t].dc_pair());
                        }
                    }
                }
            }
            j += 1;
        }
        proof {
            crate::difference::lemma_push_distinct_dc_pairs(self.build@, q);
        }
        self.build.push(q);
        out
    }

    /// Accepts one candidate placement `p` on the probe side and emits `p`
    /// once per accumulated build-side placement that dominates it; the
    /// returned copies all mirror `p`.
    pub fn push_probe_placement(&mut self, p: Placement) -> (out: Vec<Placement>)
        requires
            old(self).wf(),
            p.latency@.len() == old(self).num_c,
        ensures
            final(self).wf(),
            final(self).num_c == old(self).num_c,
            final(self).build@ == old(self).build@,
            has_dc_pair(old(self).probe@, p.dc_pair()) ==> final(self).probe@ == old(self).probe@
                && out@.len() == 0,
            !has_dc_pair(old(self).probe@, p.dc_pair()) ==> final(self).probe@ == old(
                self,
            ).probe@.push(p),
            forall|i: int| 0 <= i < out@.len() ==> mirrors(#[trigger] out@[i], p),
            !has_dc_pair(old(self).probe@, p.dc_pair()) ==> (out@.len() > 0 <==> exists|j: int|
                0 <= j < old(self).build@.len() && dominates(
                    (#[trigger] old(self).build@[j]).latency@,
                    p.latency@,
                )),
    {
        if crate::placement::contains_dc_pair(&self.probe, p.d_0, p.d_1) {
            return Vec::new();
        }
        let mut out: Vec<Placement> = Vec::new();
        let mut j: usize = 0;
        while j < self.build.len()
            invariant
                self.wf(),
                p.latency@.len() == self.num_c,
                j <= self.build@.len(),
                forall|i: int| 0 <= i < out@.len() ==> mirrors(#[trigger] out@[i], p),
                out@.len() > 0 <==> exists|t: int|
                    0 <= t < j && dominates((#[trigger] self.build@[t]).latency@, p.latency@),
            decreases self.build@.len() - j,
        {
            let dominated = crate::placement::lt_slice(&self.build[j].latency, &p.latency);
            if dominated {
                out.push(p.replicate());
                assert(dominates(self.build@[j as int].latency@, p.latency@));
            }
            j += 1;
        }
        proof {
            crate::difference::lemma_push_distinct_dc_pairs(self.probe@, p);
        }
        self.probe.push(p);
        out
    }
}

/// The aggregation stage: subtracts the dominated placements from all valid
/// placements and reports the running count of the survivors after every
/// arrival. The count reflects the current positive-minus-negative
/// cardinality, so a placement counted earlier that later turns out
/// dominated is retracted.
pub struct AggregationStage {
    pub diff: PlacementDifference,
}

impl AggregationStage {
    /// The underlying difference is well-formed.
    pub open spec fn wf(self) -> bool {
        self.diff.wf()
    }

    /// A fresh, empty aggregation.
    pub fn new() -> (r: Self)
        ensures
            r.wf(),
            r.diff.pos@ == Seq::<Placement>::empty(),
            r.diff.neg@ == Seq::<Placement>::empty(),
    {
        AggregationStage { diff: PlacementDifference::new() }
    }

    /// Accepts one placement on the "all valid placements" stream and
    /// reports the running skyline count. The count never exceeds the number
    /// of valid placements accumulated.
    pub fn push_all(&mut self, p: Placement) -> (count: usize)
        requires
            old(self).wf(),
        ensures
            final(self).wf(),
            final(self).diff.neg@ == old(self).diff.neg@,
            has_dc_pair(old(self).diff.pos@, p.dc_pair()) ==> final(self).diff.pos@ == old(
                self,
            ).diff.pos@,
            !has_dc_pair(old(self).diff.pos@, p.dc_pair()) ==> final(self).diff.pos@ == old(
                self,
            ).diff.pos@.push(p),
            count == surviving(final(self).diff.pos@, final(self).diff.neg@).len(),
            count <= final(self).diff.pos@.len(),
    {
        self.diff.push_pos(p);
        self.diff.current_count()
    }

    /// Accepts one placement on the "dominated placements" stream and
    /// reports the running skyline count.
    pub fn push_dominated(&mut self, p: Placement) -> (count: usize)
        requires
            old(self).wf(),
        ensures
            final(self).wf(),
            final(self).diff.pos@ == old(self).diff.pos@,
            has_dc_pair(old(self).diff.neg@, p.dc_pair()) ==> final(self).diff.neg@ == old(
                self,
            ).diff.neg@,
            !has_dc_pair(old(self).diff.neg@, p.dc_pair()) ==> final(self).diff.neg@ == old(
                self,
            ).diff.neg@.push(p),
            count == surviving(final(self).diff.pos@, final(self).diff.neg@).len(),
            count <= final(self).diff.pos@.len(),
    {
        self.diff.push_neg(p);
        self.diff.current_count()
    }

    /// Hands out the skyline placements accumulated so far, consuming the
    /// stage.
    pub fn skyline(self) -> (out: Vec<Placement>)
        requires
            self.wf(),
        ensures
            out@ == surviving(self.diff.pos@, self.diff.neg@),
    {
        self.diff.finish()
    }
}

} // verus!
