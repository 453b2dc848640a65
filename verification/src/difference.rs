//! The accumulating set-difference operator.
//!
//! A difference holds a positive and a negative accumulating set of
//! placements, both with set semantics over placement identity. Its output
//! at any moment is the positive side minus the negative side: a placement
//! counted earlier that later arrives on the negative side disappears
//! retroactively from subsequent output. The output is independent of the
//! order in which either side arrived.

use crate::placement::{
    contains_dc_pair, dc_pairs_of, distinct_dc_pairs, has_dc_pair, DataCenterId, Placement,
};
use vstd::prelude::*;

verus! {

/// The positive elements whose identity the negative side does not hold, in
/// positive-side order.
pub open spec fn surviving(pos: Seq<Placement>, neg: Seq<Placement>) -> Seq<Placement>
    decreases pos.len(),
{
    if pos.len() == 0 {
        Seq::empty()
    } else {
        let rest = surviving(pos.drop_last(), neg);
        if has_dc_pair(neg, pos.last().dc_pair()) {
            rest
        } else {
            rest.push(pos.last())
        }
    }
}

/// An identity survives the difference exactly when the positive side holds
/// it and the negative side does not.
pub proof fn lemma_surviving_characterisation(
    pos: Seq<Placement>,
    neg: Seq<Placement>,
    k: (DataCenterId, DataCenterId),
)
    ensures
        has_dc_pair(surviving(pos, neg), k) <==> (has_dc_pair(pos, k) && !has_dc_pair(neg, k)),
    decreases pos.len(),
{
    if pos.len() > 0 {
        lemma_surviving_characterisation(pos.drop_last(), neg, k);
        let rest = surviving(pos.drop_last(), neg);
        if has_dc_pair(pos, k) {
            let i = choose|i: int| 0 <= i < pos.len() && pos[i].dc_pair() == k;
            if i < pos.len() - 1 {
                assert(pos.drop_last()[i].dc_pair() == k);
                assert(has_dc_pair(pos.drop_last(), k));
            }
        }
        if !has_dc_pair(neg, pos.last().dc_pair()) {
            assert(forall|i: int|
                0 <= i < rest.len() ==> rest.push(pos.last())[i] == rest[i]);
            assert(rest.push(pos.last()).last() == pos.last());
            if has_dc_pair(rest.push(pos.last()), k) {
                let i = choose|i: int|
                    0 <= i < rest.push(pos.last()).len() && rest.push(pos.last())[i].dc_pair()
                        == k;
                if i < rest.len() {
                    assert(has_dc_pair(rest, k));
                } else {
                    assert(pos.last().dc_pair() == k);
                }
            }
            if has_dc_pair(rest, k) {
                let i = choose|i: int| 0 <= i < rest.len() && rest[i].dc_pair() == k;
                assert(rest.push(pos.last())[i].dc_pair() == k);
            }
            if pos.last().dc_pair() == k {
                assert(rest.push(pos.last())[rest.len() as int].dc_pair() == k);
            }
        }
        if has_dc_pair(pos.drop_last(), k) {
            let i = choose|i: int|
                0 <= i < pos.drop_last().len() && pos.drop_last()[i].dc_pair() == k;
            assert(pos[i].dc_pair() == k);
        }
        if pos.last().dc_pair() == k {
            assert(pos[pos.len() - 1].dc_pair() == k);
        }
    }
}

/// Every surviving element is an element of the positive side.
pub proof fn lemma_surviving_elements(pos: Seq<Placement>, neg: Seq<Placement>)
    ensures
        forall|i: int|
            0 <= i < surviving(pos, neg).len() ==> pos.contains(#[trigger] surviving(pos, neg)[i]),
    decreases pos.len(),
{
    if pos.len() > 0 {
        lemma_surviving_elements(pos.drop_last(), neg);
        let rest = surviving(pos.drop_last(), neg);
        assert forall|i: int| 0 <= i < surviving(pos, neg).len() implies pos.contains(
            #[trigger] surviving(pos, neg)[i],
        ) by {
            if i < rest.len() {
                assert(rest[i] == surviving(pos, neg)[i]);
                let j = choose|j: int|
                    0 <= j < pos.drop_last().len() && pos.drop_last()[j] == rest[i];
                assert(pos[j] == rest[i]);
            } else {
                assert(surviving(pos, neg)[i] == pos.last());
                assert(pos[pos.len() - 1] == pos.last());
            }
        }
    }
}

/// The difference never emits more placements than its positive side holds.
pub proof fn lemma_surviving_len_le(pos: Seq<Placement>, neg: Seq<Placement>)
    ensures
        surviving(pos, neg).len() <= pos.len(),
    decreases pos.len(),
{
    if pos.len() > 0 {
        lemma_surviving_len_le(pos.drop_last(), neg);
    }
}

/// A positive side with pairwise-distinct identities yields a surviving
/// sequence with pairwise-distinct identities.
pub proof fn lemma_surviving_distinct(pos: Seq<Placement>, neg: Seq<Placement>)
    requires
        distinct_dc_pairs(pos),
    ensures
        distinct_dc_pairs(surviving(pos, neg)),
    decreases pos.len(),
{
    if pos.len() > 0 {
        assert(distinct_dc_pairs(pos.drop_last())) by {
            assert(forall|i: int|
                0 <= i < pos.drop_last().len() ==> pos.drop_last()[i] == pos[i]);
        }
        lemma_surviving_distinct(pos.drop_last(), neg);
        let rest = surviving(pos.drop_last(), neg);
        if !has_dc_pair(neg, pos.last().dc_pair()) {
            assert(!has_dc_pair(rest, pos.last().dc_pair())) by {
                lemma_surviving_characterisation(pos.drop_last(), neg, pos.last().dc_pair());
                if has_dc_pair(pos.drop_last(), pos.last().dc_pair()) {
                    let i = choose|i: int|
                        0 <= i < pos.drop_last().len() && pos.drop_last()[i].dc_pair()
                            == pos.last().dc_pair();
                    assert(pos[i].dc_pair() == pos[pos.len() - 1].dc_pair());
                }
            }
            assert forall|i: int, j: int|
                0 <= i < rest.push(pos.last()).len() && 0 <= j < rest.push(pos.last()).len() && i
                    != j implies rest.push(pos.last())[i].dc_pair() != rest.push(
                pos.last(),
            )[j].dc_pair() by {
                if i < rest.len() && j < rest.len() {
                } else if i < rest.len() {
                    assert(rest[i].dc_pair() == rest.push(pos.last())[i].dc_pair());
                    assert(has_dc_pair(rest, rest[i].dc_pair()));
                } else if j < rest.len() {
                    assert(rest[j].dc_pair() == rest.push(pos.last())[j].dc_pair());
                    assert(has_dc_pair(rest, rest[j].dc_pair()));
                }
            }
        }
    }
}

/// Difference correctness: run to convergence on the same finite positive
/// and negative identity sets, the difference yields the same surviving
/// identities and the same count, independent of the order in which either
/// side arrived, every time it is re-run.
pub proof fn lemma_difference_order_independent(
    pos1: Seq<Placement>,
    neg1: Seq<Placement>,
    pos2: Seq<Placement>,
    neg2: Seq<Placement>,
)
    requires
        distinct_dc_pairs(pos1),
        distinct_dc_pairs(pos2),
        dc_pairs_of(pos1).to_set() == dc_pairs_of(pos2).to_set(),
        dc_pairs_of(neg1).to_set() == dc_pairs_of(neg2).to_set(),
    ensures
        dc_pairs_of(surviving(pos1, neg1)).to_set() == dc_pairs_of(surviving(pos2, neg2)).to_set(),
        surviving(pos1, neg1).len() == surviving(pos2, neg2).len(),
{
    lemma_surviving_distinct(pos1, neg1);
    lemma_surviving_distinct(pos2, neg2);
    assert forall|k: (DataCenterId, DataCenterId)|
        dc_pairs_of(surviving(pos1, neg1)).to_set().contains(k) == dc_pairs_of(
            surviving(pos2, neg2),
        ).to_set().contains(k) by {
        lemma_surviving_characterisation(pos1, neg1, k);
        lemma_surviving_characterisation(pos2, neg2, k);
        lemma_has_dc_pair_to_set(pos1, k);
        lemma_has_dc_pair_to_set(pos2, k);
        lemma_has_dc_pair_to_set(neg1, k);
        lemma_has_dc_pair_to_set(neg2, k);
        lemma_has_dc_pair_to_set(surviving(pos1, neg1), k);
        lemma_has_dc_pair_to_set(surviving(pos2, neg2), k);
    }
    assert(dc_pairs_of(surviving(pos1, neg1)).to_set() =~= dc_pairs_of(
        surviving(pos2, neg2),
    ).to_set());
    lemma_distinct_dc_pairs_count(surviving(pos1, neg1));
    lemma_distinct_dc_pairs_count(surviving(pos2, neg2));
}

/// The identity set of a placement sequence holds `k` exactly when some
/// placement in the sequence has the identity `k`.
pub proof fn lemma_has_dc_pair_to_set(s: Seq<Placement>, k: (DataCenterId, DataCenterId))
    ensures
        dc_pairs_of(s).to_set().contains(k) <==> has_dc_pair(s, k),
{
    if has_dc_pair(s, k) {
        let i = choose|i: int| 0 <= i < s.len() && s[i].dc_pair() == k;
        assert(dc_pairs_of(s)[i] == k);
        assert(dc_pairs_of(s).contains(k));
    }
    if dc_pairs_of(s).contains(k) {
        let i = choose|i: int| 0 <= i < dc_pairs_of(s).len() && dc_pairs_of(s)[i] == k;
        assert(s[i].dc_pair() == k);
    }
}

/// With pairwise-distinct identities, a placement sequence is as long as its
/// identity set.
pub proof fn lemma_distinct_dc_pairs_count(s: Seq<Placement>)
    requires
        distinct_dc_pairs(s),
    ensures
        s.len() == dc_pairs_of(s).to_set().len(),
{
    assert(dc_pairs_of(s).no_duplicates());
    dc_pairs_of(s).unique_seq_to_set();
}

/// The difference operator of the aggregation stage: placements accumulate on
/// a positive and a negative side, each with set semantics over placement
/// identity, and the surviving output is recomputed from the current sides.
pub struct PlacementDifference {
    pub pos: Vec<Placement>,
    pub neg: Vec<Placement>,
}

impl PlacementDifference {
    /// Neither side holds two placements with one identity.
    pub open spec fn wf(self) -> bool {
        &&& distinct_dc_pairs(self.pos@)
        &&& distinct_dc_pairs(self.neg@)
    }

    /// An empty difference.
    pub fn new() -> (r: Self)
        ensures
            r.wf(),
            r.pos@ == Seq::<Placement>::empty(),
            r.neg@ == Seq::<Placement>::empty(),
    {
        PlacementDifference { pos: Vec::new(), neg: Vec::new() }
    }

    /// Accepts one positive-side arrival; an identity already on the
    /// positive side is absorbed.
    pub fn push_pos(&mut self, p: Placement)
        requires
            old(self).wf(),
        ensures
            final(self).wf(),
            final(self).neg@ == old(self).neg@,
            has_dc_pair(old(self).pos@, p.dc_pair()) ==> final(self).pos@ == old(self).pos@,
            !has_dc_pair(old(self).pos@, p.dc_pair()) ==> final(self).pos@ == old(
                self,
            ).pos@.push(p),
    {
        if !contains_dc_pair(&self.pos, p.d_0, p.d_1) {
            proof {
                lemma_push_distinct_dc_pairs(self.pos@, p);
            }
            self.pos.push(p);
        }
    }

    /// Accepts one negative-side arrival; an identity already on the
    /// negative side is absorbed.
    pub fn push_neg(&mut self, p: Placement)
        requires
            old(self).wf(),
        ensures
            final(self).wf(),
            final(self).pos@ == old(self).pos@,
            has_dc_pair(old(self).neg@, p.dc_pair()) ==> final(self).neg@ == old(self).neg@,
            !has_dc_pair(old(self).neg@, p.dc_pair()) ==> final(self).neg@ == old(
                self,
            ).neg@.push(p),
    {
        if !contains_dc_pair(&self.neg, p.d_0, p.d_1) {
            proof {
                lemma_push_distinct_dc_pairs(self.neg@, p);
            }
            self.neg.push(p);
        }
    }

    /// The current output cardinality: how many positive identities the
    /// negative side has not removed. It never exceeds the number of
    /// placements the positive side has accumulated.
    pub fn current_count(&self) -> (r: usize)
        requires
            self.wf(),
        ensures
            r == surviving(self.pos@, self.neg@).len(),
            r <= self.pos@.len(),
    {
        let mut count: usize = 0;
        let mut i: usize = 0;
        while i < self.pos.len()
            invariant
                i <= self.pos@.len(),
                count == surviving(self.pos@.take(i as int), self.neg@).len(),
                count <= i,
            decreases self.pos@.len() - i,
        {
            let ghost prefix = self.pos@.take(i as int);
            let keep = !contains_dc_pair(&self.neg, self.pos[i].d_0, self.pos[i].d_1);
            proof {
                assert(self.pos@.take(i + 1 as int).drop_last() =~= prefix);
                assert(self.pos@.take(i + 1 as int).last() == self.pos@[i as int]);
            }
            if keep {
                count += 1;
            }
            i += 1;
        }
        proof {
            assert(self.pos@.take(self.pos@.len() as int) =~= self.pos@);
            lemma_surviving_len_le(self.pos@, self.neg@);
        }
        count
    }

    /// Hands out the surviving placements, consuming the operator: the
    /// positive-side arrivals, in arrival order, whose identities the
    /// negative side never held.
    pub fn finish(self) -> (out: Vec<Placement>)
        requires
            self.wf(),
        ensures
            out@ == surviving(self.pos@, self.neg@),
    {
        let PlacementDifference { mut pos, neg } = self;
        let ghost all = pos@;
        let ghost mut prefix = Seq::<Placement>::empty();
        let mut out: Vec<Placement> = Vec::new();
        while pos.len() > 0
            invariant
                all == prefix + pos@,
                out@ == surviving(prefix, neg@),
            decreases pos@.len(),
        {
            let ghost pos_before = pos@;
            let p = pos.remove(0);
            let keep = !contains_dc_pair(&neg, p.d_0, p.d_1);
            proof {
                assert(prefix.push(p).drop_last() =~= prefix);
                assert(prefix.push(p).last() == p);
                assert(prefix.push(p) + pos@ =~= prefix + pos_before);
                prefix = prefix.push(p);
            }
            if keep {
                out.push(p);
            }
        }
        proof {
            assert(all =~= prefix);
        }
        out
    }
}

/// Pushing a placement with a fresh identity keeps identities pairwise
/// distinct.
pub proof fn lemma_push_distinct_dc_pairs(s: Seq<Placement>, p: Placement)
    requires
        distinct_dc_pairs(s),
        !has_dc_pair(s, p.dc_pair()),
    ensures
        distinct_dc_pairs(s.push(p)),
{
    assert forall|i: int, j: int|
        0 <= i < s.push(p).len() && 0 <= j < s.push(p).len() && i != j implies s.push(
        p,
    )[i].dc_pair() != s.push(p)[j].dc_pair() by {
        if i < s.len() && j < s.len() {
        } else if i < s.len() {
            assert(s[i] == s.push(p)[i]);
            assert(has_dc_pair(s, s[i].dc_pair()));
        } else if j < s.len() {
            assert(s[j] == s.push(p)[j]);
            assert(has_dc_pair(s, s[j].dc_pair()));
        }
    }
}

} // verus!
