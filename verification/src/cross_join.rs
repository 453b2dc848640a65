//! The accumulating cross-join operator.
//!
//! A cross-join holds two unbounded accumulating sets, the build side and the
//! probe side. Each arrival that is new to its side is paired against
//! everything accumulated so far on the opposite side and the pairs are
//! emitted at once; an element arriving late on one side is still paired with
//! everything seen earlier on the other. Every pair is oriented
//! `(build element, probe element)`. Over any arrival history, a build
//! element and a probe element are paired exactly once.

use crate::placement::DataCenterId;
use vstd::prelude::*;

verus! {

/// One arrival at a cross-join: an element on the build side or on the probe
/// side.
pub enum JoinInput {
    BuildElem(DataCenterId),
    ProbeElem(DataCenterId),
}

/// The pairs one build-side element new to its side forms against the
/// accumulated probe side.
pub open spec fn build_pairs(x: DataCenterId, probe: Seq<DataCenterId>) -> Seq<
    (DataCenterId, DataCenterId),
> {
    probe.map_values(|p: DataCenterId| (x, p))
}

/// The pairs one probe-side element new to its side forms against the
/// accumulated build side.
pub open spec fn probe_pairs(x: DataCenterId, build: Seq<DataCenterId>) -> Seq<
    (DataCenterId, DataCenterId),
> {
    build.map_values(|b: DataCenterId| (b, x))
}

/// The accumulated build side after an arrival history: every build-side
/// element once, in first-arrival order.
pub open spec fn joined_builds(h: Seq<JoinInput>) -> Seq<DataCenterId>
    decreases h.len(),
{
    if h.len() == 0 {
        Seq::empty()
    } else {
        let rest = joined_builds(h.drop_last());
        match h.last() {
            JoinInput::BuildElem(x) => if rest.contains(x) {
                rest
            } else {
                rest.push(x)
            },
            JoinInput::ProbeElem(_) => rest,
        }
    }
}

/// The accumulated probe side after an arrival history.
pub open spec fn joined_probes(h: Seq<JoinInput>) -> Seq<DataCenterId>
    decreases h.len(),
{
    if h.len() == 0 {
        Seq::empty()
    } else {
        let rest = joined_probes(h.drop_last());
        match h.last() {
            JoinInput::BuildElem(_) => rest,
            JoinInput::ProbeElem(x) => if rest.contains(x) {
                rest
            } else {
                rest.push(x)
            },
        }
    }
}

/// Every pair the cross-join emits over an arrival history, in emission
/// order.
pub open spec fn joined_pairs(h: Seq<JoinInput>) -> Seq<(DataCenterId, DataCenterId)>
    decreases h.len(),
{
    if h.len() == 0 {
        Seq::empty()
    } else {
        let rest = joined_pairs(h.drop_last());
        match h.last() {
            JoinInput::BuildElem(x) => if joined_builds(h.drop_last()).contains(x) {
                rest
            } else {
                rest + build_pairs(x, joined_probes(h.drop_last()))
            },
            JoinInput::ProbeElem(x) => if joined_probes(h.drop_last()).contains(x) {
                rest
            } else {
                rest + probe_pairs(x, joined_builds(h.drop_last()))
            },
        }
    }
}

/// How often the pair `(a, b)` occurs in `s`.
pub open spec fn pair_occurrences(
    s: Seq<(DataCenterId, DataCenterId)>,
    a: DataCenterId,
    b: DataCenterId,
) -> nat
    decreases s.len(),
{
    if s.len() == 0 {
        0
    } else {
        pair_occurrences(s.drop_last(), a, b) + if s.last() == (a, b) {
            1nat
        } else {
            0nat
        }
    }
}

/// The cross-join over data-center ids, as the placement filter stage uses
/// it. The two sides accumulate with set semantics; the ghost history records
/// every arrival, so that the emitted pairs of a whole run are
/// `joined_pairs` of that history.
pub struct IdCrossJoin {
    pub build: Vec<DataCenterId>,
    pub probe: Vec<DataCenterId>,
    pub history: Ghost<Seq<JoinInput>>,
}

impl IdCrossJoin {
    /// The two sides are exactly what the recorded history accumulates.
    pub open spec fn wf(self) -> bool {
        &&& self.build@ == joined_builds(self.history@)
        &&& self.probe@ == joined_probes(self.history@)
    }

    /// An empty cross-join.
    pub fn new() -> (r: Self)
        ensures
            r.wf(),
            r.history@ == Seq::<JoinInput>::empty(),
            r.build@ == Seq::<DataCenterId>::empty(),
            r.probe@ == Seq::<DataCenterId>::empty(),
    {
        IdCrossJoin { build: Vec::new(), probe: Vec::new(), history: Ghost(Seq::empty()) }
    }

    /// Accepts one build-side arrival and returns the pairs it emits: if the
    /// element is new to the build side, one pair against every accumulated
    /// probe element; nothing otherwise.
    pub fn push_build(&mut self, x: DataCenterId) -> (out: Vec<(DataCenterId, DataCenterId)>)
        requires
            old(self).wf(),
        ensures
            final(self).wf(),
            final(self).history@ == old(self).history@.push(JoinInput::BuildElem(x)),
            final(self).probe@ == old(self).probe@,
            joined_pairs(final(self).history@) == joined_pairs(old(self).history@) + out@,
            old(self).build@.contains(x) ==> final(self).build@ == old(self).build@ && out@
                =~= Seq::<(DataCenterId, DataCenterId)>::empty(),
            !old(self).build@.contains(x) ==> final(self).build@ == old(self).build@.push(x)
                && out@ == build_pairs(x, old(self).probe@),
    {
        let ghost h = self.history@;
        proof {
            self.history@ = h.push(JoinInput::BuildElem(x));
            assert(h.push(JoinInput::BuildElem(x)).drop_last() =~= h);
        }
        if contains_id(&self.build, x) {
            proof {
                assert(joined_pairs(self.history@) =~= joined_pairs(h) + Seq::<
                    (DataCenterId, DataCenterId),
                >::empty());
            }
            return Vec::new();
        }
        self.build.push(x);
        let mut out: Vec<(DataCenterId, DataCenterId)> = Vec::new();
        let mut i: usize = 0;
        while i < self.probe.len()
            invariant
                i <= self.probe@.len(),
                out@.len() == i,
                forall|j: int| 0 <= j < i ==> out@[j] == (x, self.probe@[j]),
            decreases self.probe@.len() - i,
        {
            out.push((x, self.probe[i]));
            i += 1;
        }
        proof {
            assert(out@ =~= build_pairs(x, self.probe@));
            assert(joined_pairs(self.history@) =~= joined_pairs(h) + out@);
        }
        out
    }

    /// Accepts one probe-side arrival and returns the pairs it emits: if the
    /// element is new to the probe side, one pair against every accumulated
    /// build element; nothing otherwise.
    pub fn push_probe(&mut self, x: DataCenterId) -> (out: Vec<(DataCenterId, DataCenterId)>)
        requires
            old(self).wf(),
        ensures
            final(self).wf(),
            final(self).history@ == old(self).history@.push(JoinInput::ProbeElem(x)),
            final(self).build@ == old(self).build@,
            joined_pairs(final(self).history@) == joined_pairs(old(self).history@) + out@,
            old(self).probe@.contains(x) ==> final(self).probe@ == old(self).probe@ && out@
                =~= Seq::<(DataCenterId, DataCenterId)>::empty(),
            !old(self).probe@.contains(x) ==> final(self).probe@ == old(self).probe@.push(x)
                && out@ == probe_pairs(x, old(self).build@),
    {
        let ghost h = self.history@;
        proof {
            self.history@ = h.push(JoinInput::ProbeElem(x));
            assert(h.push(JoinInput::ProbeElem(x)).drop_last() =~= h);
        }
        if contains_id(&self.probe, x) {
            proof {
                assert(joined_pairs(self.history@) =~= joined_pairs(h) + Seq::<
                    (DataCenterId, DataCenterId),
                >::empty());
            }
            return Vec::new();
        }
        self.probe.push(x);
        let mut out: Vec<(DataCenterId, DataCenterId)> = Vec::new();
        let mut i: usize = 0;
        while i < self.build.len()
            invariant
                i <= self.build@.len(),
                out@.len() == i,
                forall|j: int| 0 <= j < i ==> out@[j] == (self.build@[j], x),
            decreases self.build@.len() - i,
        {
            out.push((self.build[i], x));
            i += 1;
        }
        proof {
            assert(out@ =~= probe_pairs(x, self.build@));
            assert(joined_pairs(self.history@) =~= joined_pairs(h) + out@);
        }
        out
    }
}

/// Whether the id `x` stands in `v`.
pub fn contains_id(v: &Vec<DataCenterId>, x: DataCenterId) -> (r: bool)
    ensures
        r == v@.contains(x),
{
    let mut i: usize = 0;
    while i < v.len()
        invariant
            i <= v@.len(),
            forall|j: int| 0 <= j < i ==> v@[j] != x,
        decreases v@.len() - i,
    {
        if v[i] == x {
            return true;
        }
        i += 1;
    }
    false
}

/// Pushing a fresh element onto a sequence extends what it contains by
/// exactly that element.
pub proof fn lemma_push_contains<A>(s: Seq<A>, x: A, y: A)
    ensures
        s.push(x).contains(y) <==> (s.contains(y) || y == x),
{
    if s.contains(y) {
        let i = choose|i: int| 0 <= i < s.len() && s[i] == y;
        assert(s.push(x)[i] == y);
    }
    if y == x {
        assert(s.push(x)[s.len() as int] == y);
    }
    if s.push(x).contains(y) {
        let i = choose|i: int| 0 <= i < s.push(x).len() && s.push(x)[i] == y;
        if i < s.len() {
            assert(s[i] == y);
        }
    }
}

/// Pushing an element a sequence does not hold keeps it duplicate-free.
pub proof fn lemma_push_no_duplicates<A>(s: Seq<A>, x: A)
    requires
        s.no_duplicates(),
        !s.contains(x),
    ensures
        s.push(x).no_duplicates(),
{
    assert forall|i: int, j: int|
        0 <= i < s.push(x).len() && 0 <= j < s.push(x).len() && i != j implies s.push(x)[i]
        != s.push(x)[j] by {
        if i < s.len() && j < s.len() {
        } else if i < s.len() {
            assert(s[i] == s.push(x)[i]);
        } else if j < s.len() {
            assert(s[j] == s.push(x)[j]);
        }
    }
}

/// Both accumulated sides of a cross-join are duplicate-free over every
/// history.
pub proof fn lemma_joined_sides_no_duplicates(h: Seq<JoinInput>)
    ensures
        joined_builds(h).no_duplicates(),
        joined_probes(h).no_duplicates(),
    decreases h.len(),
{
    if h.len() > 0 {
        lemma_joined_sides_no_duplicates(h.drop_last());
        match h.last() {
            JoinInput::BuildElem(x) => {
                if !joined_builds(h.drop_last()).contains(x) {
                    lemma_push_no_duplicates(joined_builds(h.drop_last()), x);
                }
            },
            JoinInput::ProbeElem(x) => {
                if !joined_probes(h.drop_last()).contains(x) {
                    lemma_push_no_duplicates(joined_probes(h.drop_last()), x);
                }
            },
        }
    }
}

/// Occurrence counting distributes over concatenation.
pub proof fn lemma_pair_occurrences_concat(
    s: Seq<(DataCenterId, DataCenterId)>,
    t: Seq<(DataCenterId, DataCenterId)>,
    a: DataCenterId,
    b: DataCenterId,
)
    ensures
        pair_occurrences(s + t, a, b) == pair_occurrences(s, a, b) + pair_occurrences(t, a, b),
    decreases t.len(),
{
    if t.len() == 0 {
        assert(s + t =~= s);
    } else {
        lemma_pair_occurrences_concat(s, t.drop_last(), a, b);
        assert((s + t).drop_last() =~= s + t.drop_last());
        assert((s + t).last() == t.last());
    }
}

/// Among the pairs one fresh build element forms against a duplicate-free
/// probe side, `(a, b)` occurs once when `a` is that element and `b` stands
/// on the probe side, and never otherwise.
pub proof fn lemma_build_pairs_occurrences(
    x: DataCenterId,
    probe: Seq<DataCenterId>,
    a: DataCenterId,
    b: DataCenterId,
)
    requires
        probe.no_duplicates(),
    ensures
        pair_occurrences(build_pairs(x, probe), a, b) == if a == x && probe.contains(b) {
            1nat
        } else {
            0nat
        },
    decreases probe.len(),
{
    if probe.len() == 0 {
        assert(!probe.contains(b));
    } else {
        assert(probe.drop_last().no_duplicates());
        lemma_build_pairs_occurrences(x, probe.drop_last(), a, b);
        assert(build_pairs(x, probe).drop_last() =~= build_pairs(x, probe.drop_last()));
        assert(build_pairs(x, probe).last() == (x, probe.last()));
        if probe.contains(b) {
            let i = choose|i: int| 0 <= i < probe.len() && probe[i] == b;
            if i < probe.len() - 1 {
                assert(probe.drop_last()[i] == b);
                assert(probe.drop_last().contains(b));
                assert(probe.last() != b);
            } else {
                assert(probe.last() == b);
                assert(!probe.drop_last().contains(b));
            }
        } else {
            assert(probe.last() != b);
            assert(!probe.drop_last().contains(b)) by {
                if probe.drop_last().contains(b) {
                    let i = choose|i: int|
                        0 <= i < probe.drop_last().len() && probe.drop_last()[i] == b;
                    assert(probe[i] == b);
                }
            }
        }
    }
}

/// The mirror statement for the pairs one fresh probe element forms against a
/// duplicate-free build side.
pub proof fn lemma_probe_pairs_occurrences(
    x: DataCenterId,
    build: Seq<DataCenterId>,
    a: DataCenterId,
    b: DataCenterId,
)
    requires
        build.no_duplicates(),
    ensures
        pair_occurrences(probe_pairs(x, build), a, b) == if b == x && build.contains(a) {
            1nat
        } else {
            0nat
        },
    decreases build.len(),
{
    if build.len() == 0 {
        assert(!build.contains(a));
    } else {
        assert(build.drop_last().no_duplicates());
        lemma_probe_pairs_occurrences(x, build.drop_last(), a, b);
        assert(probe_pairs(x, build).drop_last() =~= probe_pairs(x, build.drop_last()));
        assert(probe_pairs(x, build).last() == (build.last(), x));
        if build.contains(a) {
            let i = choose|i: int| 0 <= i < build.len() && build[i] == a;
            if i < build.len() - 1 {
                assert(build.drop_last()[i] == a);
                assert(build.drop_last().contains(a));
                assert(build.last() != a);
            } else {
                assert(build.last() == a);
                assert(!build.drop_last().contains(a));
            }
        } else {
            assert(build.last() != a);
            assert(!build.drop_last().contains(a)) by {
                if build.drop_last().contains(a) {
                    let i = choose|i: int|
                        0 <= i < build.drop_last().len() && build.drop_last()[i] == a;
                    assert(build[i] == a);
                }
            }
        }
    }
}

/// Cross-join completeness: over any arrival history, the cross-join emits
/// the pair `(a, b)` exactly once when `a` was seen on the build side and `b`
/// on the probe side at any point during the run, and never otherwise.
pub proof fn lemma_cross_join_exactly_once(h: Seq<JoinInput>, a: DataCenterId, b: DataCenterId)
    ensures
        pair_occurrences(joined_pairs(h), a, b) == if joined_builds(h).contains(a)
            && joined_probes(h).contains(b) {
            1nat
        } else {
            0nat
        },
    decreases h.len(),
{
    if h.len() == 0 {
        assert(!joined_builds(h).contains(a));
    } else {
        let hd = h.drop_last();
        lemma_cross_join_exactly_once(hd, a, b);
        lemma_joined_sides_no_duplicates(hd);
        match h.last() {
            JoinInput::BuildElem(x) => {
                if joined_builds(hd).contains(x) {
                    assert(joined_builds(h) == joined_builds(hd));
                } else {
                    lemma_pair_occurrences_concat(
                        joined_pairs(hd),
                        build_pairs(x, joined_probes(hd)),
                        a,
                        b,
                    );
                    lemma_build_pairs_occurrences(x, joined_probes(hd), a, b);
                    lemma_push_contains(joined_builds(hd), x, a);
                }
            },
            JoinInput::ProbeElem(x) => {
                if joined_probes(hd).contains(x) {
                    assert(joined_probes(h) == joined_probes(hd));
                } else {
                    lemma_pair_occurrences_concat(
                        joined_pairs(hd),
                        probe_pairs(x, joined_builds(hd)),
                        a,
                        b,
                    );
                    lemma_probe_pairs_occurrences(x, joined_builds(hd), a, b);
                    lemma_push_contains(joined_probes(hd), x, b);
                }
            },
        }
    }
}

} // verus!
