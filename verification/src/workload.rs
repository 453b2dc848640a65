//! The input tables of one run and the placement codec.
//!
//! A workload holds the candidate data centers, the flattened pairwise
//! distance table, the flattened per-client latency table and the minimum
//! distance constraint. From it the codec decides which ordered pairs of
//! data centers are valid and builds each valid pair's placement with its
//! per-client write/read latency profile.

use crate::placement::{ClientLatency, DataCenterId, LatencyValue, Placement};
use vstd::prelude::*;

verus! {

/// The immutable inputs of one run.
///
/// `dist` is a `num_d x num_d` matrix flattened row-major: the distance of
/// the pair `(d0, d1)` stands at `d0 * num_d + d1`. `latency` is a
/// `num_d x num_c` matrix flattened the same way: the latency of data center
/// `d` to client `c` stands at `d * num_c + c`.
pub struct Workload {
    pub num_d: usize,
    pub num_c: usize,
    pub dist: Vec<usize>,
    pub latency: Vec<LatencyValue>,
    pub constraint: usize,
}

impl Workload {
    /// The tables have the sizes the indexing scheme expects, and every data
    /// center index fits a `DataCenterId`.
    pub open spec fn wf(self) -> bool {
        &&& self.dist@.len() == self.num_d * self.num_d
        &&& self.latency@.len() == self.num_d * self.num_c
        &&& self.num_d <= u16::MAX + 1
    }

    /// The ordered pair `(d0, d1)` is a valid placement: both indices name a
    /// data center and their distance exceeds the constraint.
    pub open spec fn valid_pair(self, d0: int, d1: int) -> bool {
        &&& 0 <= d0 < self.num_d
        &&& 0 <= d1 < self.num_d
        &&& self.dist@[d0 * self.num_d + d1] > self.constraint
    }

    /// The write/read latency pair of client `c` against the placement
    /// `(d0, d1)`: the write latency is the larger of the two data centers'
    /// latencies to `c`, the read latency the smaller.
    pub open spec fn client_latency(self, d0: int, d1: int, c: int) -> ClientLatency {
        let l0 = self.latency@[d0 * self.num_c + c];
        let l1 = self.latency@[d1 * self.num_c + c];
        if l0 >= l1 {
            (l0, l1)
        } else {
            (l1, l0)
        }
    }

    /// The full latency profile of the placement `(d0, d1)`, one entry per
    /// client in client order.
    pub open spec fn placement_latencies(self, d0: int, d1: int) -> Seq<ClientLatency> {
        Seq::new(self.num_c as nat, |c: int| self.client_latency(d0, d1, c))
    }

    /// Distance filter: whether the pair `(d_0, d_1)` satisfies the minimum
    /// distance constraint.
    pub fn is_valid_pair(&self, d_0: DataCenterId, d_1: DataCenterId) -> (r: bool)
        requires
            self.wf(),
            d_0 < self.num_d,
            d_1 < self.num_d,
        ensures
            r == self.valid_pair(d_0 as int, d_1 as int),
    {
        let dist_len = self.dist.len();
        proof {
            lemma_flat_index_in_range(d_0 as int, d_1 as int, self.num_d as int);
            vstd::arithmetic::mul::lemma_mul_inequality(
                d_0 as int + 1,
                self.num_d as int,
                self.num_d as int,
            );
            assert((d_0 as int) * (self.num_d as int) + (d_1 as int) < dist_len as int);
        }
        let idx: usize = (d_0 as usize) * self.num_d + (d_1 as usize);
        self.dist[idx] > self.constraint
    }

    /// Builds the placement of the pair `(d_0, d_1)`: for each client the
    /// write latency is the larger and the read latency the smaller of the
    /// two data centers' latencies to that client.
    pub fn build_placement(&self, d_0: DataCenterId, d_1: DataCenterId) -> (r: Placement)
        requires
            self.wf(),
            d_0 < self.num_d,
            d_1 < self.num_d,
        ensures
            r.d_0 == d_0,
            r.d_1 == d_1,
            r.latency@ == self.placement_latencies(d_0 as int, d_1 as int),
    {
        let mut lat: Vec<ClientLatency> = Vec::new();
        let mut c: usize = 0;
        while c < self.num_c
            invariant
                self.wf(),
                d_0 < self.num_d,
                d_1 < self.num_d,
                c <= self.num_c,
                lat@.len() == c,
                forall|j: int|
                    0 <= j < c ==> lat@[j] == self.client_latency(d_0 as int, d_1 as int, j),
            decreases self.num_c - c,
        {
            let lat_len = self.latency.len();
            proof {
                lemma_flat_index_in_range(d_0 as int, c as int, self.num_c as int);
                lemma_flat_index_in_range(d_1 as int, c as int, self.num_c as int);
                vstd::arithmetic::mul::lemma_mul_inequality(
                    d_0 as int + 1,
                    self.num_d as int,
                    self.num_c as int,
                );
                vstd::arithmetic::mul::lemma_mul_inequality(
                    d_1 as int + 1,
                    self.num_d as int,
                    self.num_c as int,
                );
                assert((d_0 as int) * (self.num_c as int) + (c as int) < lat_len as int);
                assert((d_1 as int) * (self.num_c as int) + (c as int) < lat_len as int);
            }
            let i_0: usize = (d_0 as usize) * self.num_c + c;
            let i_1: usize = (d_1 as usize) * self.num_c + c;
            let l_0 = self.latency[i_0];
            let l_1 = self.latency[i_1];
            let write_latency = if l_0 >= l_1 {
                l_0
            } else {
                l_1
            };
            let read_latency = if l_0 >= l_1 {
                l_1
            } else {
                l_0
            };
            lat.push((write_latency, read_latency));
            c += 1;
        }
        proof {
            assert(lat@ =~= self.placement_latencies(d_0 as int, d_1 as int));
        }
        Placement { d_0, d_1, latency: lat }
    }
}

/// For `a < n` and `b < m`, the flattened index `a * m + b` lies below
/// `n * m`.
pub proof fn lemma_flat_index_in_range(a: int, b: int, m: int)
    requires
        0 <= a,
        0 <= b < m,
    ensures
        a * m + b < (a + 1) * m,
        0 <= a * m + b,
    decreases a,
{
    if a > 0 {
        lemma_flat_index_in_range(a - 1, b, m);
        assert((a - 1) * m == a * m - m) by (nonlinear_arith);
        assert(a * m == (a + 1) * m - m) by (nonlinear_arith);
    } else {
        assert(0 * m + b == b) by (nonlinear_arith);
        assert((0 + 1) * m == m) by (nonlinear_arith);
    }
}

/// The synthetic benchmark distance table: every off-diagonal pair stands
/// twice the constraint above its linear index, the diagonal is zero, so
/// every pair of two distinct data centers satisfies the constraint.
pub fn benchmark_distances(num_d: usize, constraint: usize) -> (r: Vec<usize>)
    requires
        num_d * num_d + 2 * constraint <= usize::MAX,
    ensures
        r@.len() == num_d * num_d,
        forall|i: int|
            0 <= i < r@.len() ==> r@[i] == (if i % (num_d as int) != i / (num_d as int) {
                i + 2 * constraint
            } else {
                0
            }),
{
    let mut r: Vec<usize> = Vec::new();
    let end: usize = num_d * num_d;
    let mut i: usize = 0;
    while i < end
        invariant
            end == num_d * num_d,
            end + 2 * constraint <= usize::MAX,
            i <= end,
            r@.len() == i,
            forall|j: int|
                0 <= j < i ==> r@[j] == (if j % (num_d as int) != j / (num_d as int) {
                    j + 2 * constraint
                } else {
                    0
                }),
        decreases end - i,
    {
        proof {
            assert(num_d > 0) by (nonlinear_arith)
                requires
                    i < end,
                    end == num_d * num_d,
            ;
        }
        let x = i % num_d;
        let y = i / num_d;
        if x != y {
            r.push(i + 2 * constraint);
        } else {
            r.push(0);
        }
        i += 1;
    }
    r
}

/// The synthetic benchmark latency table: every data center offers every
/// client the same latency, so no placement dominates another.
pub fn benchmark_latencies(num_d: usize, num_c: usize) -> (r: Vec<LatencyValue>)
    requires
        num_d * num_c <= usize::MAX,
    ensures
        r@.len() == num_d * num_c,
        forall|i: int| 0 <= i < r@.len() ==> r@[i] == 1u64,
{
    let mut r: Vec<LatencyValue> = Vec::new();
    let end: usize = num_d * num_c;
    let mut i: usize = 0;
    while i < end
        invariant
            i <= end,
            r@.len() == i,
            forall|j: int| 0 <= j < i ==> r@[j] == 1u64,
        decreases end - i,
    {
        r.push(1u64);
        i += 1;
    }
    r
}

} // verus!
