//! Placements and the dominance predicate.
//!
//! A placement is an ordered pair of data centers together with the latency
//! profile it offers every client. Placement identity is the pair of data
//! centers alone: two placements naming the same pair are equal whatever
//! their latency content. Dominance is the strict, elementwise,
//! both-components-lower relation between two latency profiles.

use vstd::prelude::*;

verus! {

/// Identifier of one data center: an index in `[0, num_data_centers)`.
pub type DataCenterId = u16;

/// One latency measurement. Lower is always better.
pub type LatencyValue = u64;

/// Per-client `(write latency, read latency)` of a placement. The write
/// latency is the larger of the two data centers' latencies to the client,
/// the read latency the smaller.
pub type ClientLatency = (LatencyValue, LatencyValue);

/// An ordered pair of data centers hosting one replica each, plus its
/// per-client latency profile, one entry per client in fixed client order.
#[derive(Debug)]
pub struct Placement {
    pub d_0: DataCenterId,
    pub d_1: DataCenterId,
    pub latency: Vec<ClientLatency>,
}

/// `q` is strictly better than `p` for one client: lower in both components.
pub open spec fn strictly_better(q: ClientLatency, p: ClientLatency) -> bool {
    q.0 < p.0 && q.1 < p.1
}

/// The latency profile `q` dominates the profile `p`: the profiles have one
/// entry per client each, and `q` is strictly better for every client. A
/// single client for which `q` is not strictly lower in both components
/// defeats the relation.
pub open spec fn dominates(q: Seq<ClientLatency>, p: Seq<ClientLatency>) -> bool {
    &&& q.len() == p.len()
    &&& forall|c: int| 0 <= c < p.len() ==> strictly_better(q[c], p[c])
}

impl Placement {
    /// The identity of a placement: the ordered pair of its data centers.
    pub open spec fn dc_pair(self) -> (DataCenterId, DataCenterId) {
        (self.d_0, self.d_1)
    }

    /// Whether the two placements name the same ordered pair of data centers.
    pub fn has_same_dcs(&self, other: &Self) -> (r: bool)
        ensures
            r == (self.dc_pair() == other.dc_pair()),
    {
        self.d_0 == other.d_0 && self.d_1 == other.d_1
    }

    /// A field-for-field copy whose contents are known to equal the
    /// original's.
    pub fn replicate(&self) -> (r: Placement)
        ensures
            r.d_0 == self.d_0,
            r.d_1 == self.d_1,
            r.latency@ == self.latency@,
    {
        let mut lat: Vec<ClientLatency> = Vec::new();
        let mut i: usize = 0;
        while i < self.latency.len()
            invariant
                i <= self.latency@.len(),
                lat@ == self.latency@.take(i as int),
            decreases self.latency@.len() - i,
        {
            lat.push(self.latency[i]);
            proof {
                assert(lat@ =~= self.latency@.take(i + 1 as int));
            }
            i += 1;
        }
        proof {
            assert(lat@ =~= self.latency@);
        }
        Placement { d_0: self.d_0, d_1: self.d_1, latency: lat }
    }
}

impl PartialEq for Placement {
    fn eq(&self, other: &Self) -> (r: bool) {
        self.has_same_dcs(other)
    }
}

impl Eq for Placement {}

impl vstd::std_specs::cmp::PartialEqSpecImpl for Placement {
    open spec fn obeys_eq_spec() -> bool {
        true
    }

    open spec fn eq_spec(&self, other: &Self) -> bool {
        self.dc_pair() == other.dc_pair()
    }
}

/// Whether placement `p` is dominated by placement `q`: `q`'s latency profile
/// is strictly better for every client. The two profiles must have one entry
/// per client each; comparing profiles of different lengths is a caller bug.
pub fn is_dominated(p: &Placement, q: &Placement) -> (r: bool)
    requires
        p.latency@.len() == q.latency@.len(),
    ensures
        r == dominates(q.latency@, p.latency@),
{
    lt_slice(&q.latency, &p.latency)
}

/// Whether `a` is strictly below `b` at every index: the raw elementwise
/// comparison behind the dominance predicate. The slices must have equal
/// length.
pub fn lt_slice(a: &[ClientLatency], b: &[ClientLatency]) -> (r: bool)
    requires
        a@.len() == b@.len(),
    ensures
        r == dominates(a@, b@),
{
    let mut i: usize = 0;
    while i < a.len()
        invariant
            a@.len() == b@.len(),
            i <= a@.len(),
            forall|c: int| 0 <= c < i ==> strictly_better(a@[c], b@[c]),
        decreases a@.len() - i,
    {
        if !(a[i].0 < b[i].0 && a[i].1 < b[i].1) {
            return false;
        }
        i += 1;
    }
    true
}

/// The two placements agree in every field: same identity, same latency
/// profile.
pub open spec fn mirrors(a: Placement, b: Placement) -> bool {
    &&& a.d_0 == b.d_0
    &&& a.d_1 == b.d_1
    &&& a.latency@ == b.latency@
}

/// The identities of a sequence of placements, in order.
pub open spec fn dc_pairs_of(s: Seq<Placement>) -> Seq<(DataCenterId, DataCenterId)> {
    s.map_values(|p: Placement| p.dc_pair())
}

/// Whether some placement in `s` has the identity `k`.
pub open spec fn has_dc_pair(s: Seq<Placement>, k: (DataCenterId, DataCenterId)) -> bool {
    exists|i: int| 0 <= i < s.len() && s[i].dc_pair() == k
}

/// No two placements in `s` share an identity.
pub open spec fn distinct_dc_pairs(s: Seq<Placement>) -> bool {
    forall|i: int, j: int|
        0 <= i < s.len() && 0 <= j < s.len() && i != j ==> s[i].dc_pair() != s[j].dc_pair()
}

/// Whether `v` holds a placement with the identity `(d_0, d_1)`.
pub fn contains_dc_pair(v: &Vec<Placement>, d_0: DataCenterId, d_1: DataCenterId) -> (r: bool)
    ensures
        r == has_dc_pair(v@, (d_0, d_1)),
{
    let mut i: usize = 0;
    while i < v.len()
        invariant
            i <= v@.len(),
            forall|j: int| 0 <= j < i ==> v@[j].dc_pair() != (d_0, d_1),
        decreases v@.len() - i,
    {
        if v[i].d_0 == d_0 && v[i].d_1 == d_1 {
            assert(v@[i as int].dc_pair() == (d_0, d_1));
            return true;
        }
        i += 1;
    }
    false
}

/// An identity stands in a concatenation exactly when it stands in one of
/// the parts.
pub proof fn lemma_has_dc_pair_append(
    s: Seq<Placement>,
    t: Seq<Placement>,
    k: (DataCenterId, DataCenterId),
)
    ensures
        has_dc_pair(s + t, k) <==> (has_dc_pair(s, k) || has_dc_pair(t, k)),
{
    if has_dc_pair(s, k) {
        let i = choose|i: int| 0 <= i < s.len() && s[i].dc_pair() == k;
        assert((s + t)[i].dc_pair() == k);
    }
    if has_dc_pair(t, k) {
        let i = choose|i: int| 0 <= i < t.len() && t[i].dc_pair() == k;
        assert((s + t)[s.len() + i].dc_pair() == k);
    }
    if has_dc_pair(s + t, k) {
        let i = choose|i: int| 0 <= i < (s + t).len() && (s + t)[i].dc_pair() == k;
        if i < s.len() {
            assert(s[i].dc_pair() == k);
        } else {
            assert(t[i - s.len()].dc_pair() == k);
        }
    }
}

/// An identity stands in a sequence extended by one placement exactly when
/// it stands in the sequence or is that placement's.
pub proof fn lemma_has_dc_pair_push(s: Seq<Placement>, p: Placement, k: (DataCenterId, DataCenterId))
    ensures
        has_dc_pair(s.push(p), k) <==> (has_dc_pair(s, k) || p.dc_pair() == k),
{
    if has_dc_pair(s, k) {
        let i = choose|i: int| 0 <= i < s.len() && s[i].dc_pair() == k;
        assert(s.push(p)[i].dc_pair() == k);
    }
    if p.dc_pair() == k {
        assert(s.push(p)[s.len() as int].dc_pair() == k);
    }
    if has_dc_pair(s.push(p), k) {
        let i = choose|i: int| 0 <= i < s.push(p).len() && s.push(p)[i].dc_pair() == k;
        if i < s.len() {
            assert(s[i].dc_pair() == k);
        }
    }
}

/// Identity invariant: two placements that name the same ordered pair of
/// data centers are equal under the defined `==`, whatever their latency
/// profiles hold.
pub proof fn lemma_placement_identity(p: Placement, q: Placement)
    requires
        p.d_0 == q.d_0,
        p.d_1 == q.d_1,
    ensures
        vstd::std_specs::cmp::PartialEqSpec::eq_spec(&p, &q),
{
}

/// A latency profile with at least one client never dominates itself:
/// dominance is strict in both components.
pub proof fn lemma_dominance_irreflexive(l: Seq<ClientLatency>)
    requires
        l.len() > 0,
    ensures
        !dominates(l, l),
{
    assert(!strictly_better(l[0], l[0]));
}

} // verus!
