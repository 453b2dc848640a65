//! Binomial coefficients.
//!
//! The expected skyline size of a benchmark run is an analytically known
//! count of combinations; the coordinator uses it as its termination
//! oracle. The coefficient is computed by the multiplicative rule, each
//! intermediate division exact.

use vstd::prelude::*;

verus! {

/// The number of ways to choose `k` of `n` items, by Pascal's rule.
pub open spec fn binomial(n: nat, k: nat) -> nat
    decreases n, k,
{
    if k == 0 {
        1
    } else if n == 0 {
        0
    } else {
        binomial((n - 1) as nat, (k - 1) as nat) + binomial((n - 1) as nat, k)
    }
}

/// Choosing more items than there are cannot be done.
pub proof fn lemma_binomial_above(n: nat, k: nat)
    requires
        k > n,
    ensures
        binomial(n, k) == 0,
    decreases n,
{
    if n > 0 {
        lemma_binomial_above((n - 1) as nat, (k - 1) as nat);
        lemma_binomial_above((n - 1) as nat, k);
    }
}

/// Choosing all items can be done in exactly one way.
pub proof fn lemma_binomial_full(n: nat)
    ensures
        binomial(n, n) == 1,
    decreases n,
{
    if n > 0 {
        lemma_binomial_full((n - 1) as nat);
        lemma_binomial_above((n - 1) as nat, n);
    }
}

/// The absorption identity: `(k+1) * C(n, k+1) == (n-k) * C(n, k)`, the
/// step the multiplicative rule takes from one coefficient to the next.
pub proof fn lemma_binomial_absorb(n: nat, k: nat)
    requires
        k < n,
    ensures
        (k + 1) * binomial(n, k + 1) == (n - k) * binomial(n, k),
    decreases n,
{
    let m = (n - 1) as nat;
    if k == 0 {
        if n == 1 {
            assert(binomial(0, 0) == 1);
            assert(binomial(0, 1) == 0);
            assert(binomial(1, 1) == 1);
            assert((0 + 1) * binomial(1, 1) == (1 - 0) * binomial(1, 0)) by (nonlinear_arith)
                requires
                    binomial(1, 1) == 1,
                    binomial(1, 0) == 1,
            ;
        } else {
            lemma_binomial_absorb(m, 0);
            assert(binomial(n, 1) == binomial(m, 0) + binomial(m, 1));
            assert(1 * binomial(m, 1) == m * binomial(m, 0));
            assert((n - 0) * binomial(n, 0) == n) by (nonlinear_arith)
                requires
                    binomial(n, 0) == 1,
            ;
            assert((0 + 1) * binomial(n, 1) == binomial(n, 1)) by (nonlinear_arith);
            assert(1 * binomial(m, 1) == binomial(m, 1)) by (nonlinear_arith);
            assert(m * binomial(m, 0) == m) by (nonlinear_arith)
                requires
                    binomial(m, 0) == 1,
            ;
        }
    } else {
        let x = binomial(m, k);
        let y = binomial(m, (k + 1) as nat);
        let z = binomial(m, (k - 1) as nat);
        assert(binomial(n, (k + 1) as nat) == x + y);
        assert(binomial(n, k) == z + x);
        // (k+1) * y == (m-k) * x
        if k < m {
            lemma_binomial_absorb(m, k);
        } else {
            lemma_binomial_above(m, (k + 1) as nat);
            assert((k + 1) * y == (m - k) * x) by (nonlinear_arith)
                requires
                    y == 0,
                    m == k,
            ;
        }
        // k * x == (m - (k-1)) * z == (n-k) * z
        lemma_binomial_absorb(m, (k - 1) as nat);
        assert(k * x == (n - k) * z);
        assert((k + 1) * (x + y) == (n - k) * (z + x)) by (nonlinear_arith)
            requires
                (k + 1) * y == (m - k) * x,
                k * x == (n - k) * z,
                m == n - 1,
                0 < k < n,
        ;
    }
}

/// Choosing `k` items is the same as leaving `n - k` behind.
pub proof fn lemma_binomial_symmetry(n: nat, k: nat)
    requires
        k <= n,
    ensures
        binomial(n, k) == binomial(n, (n - k) as nat),
    decreases n,
{
    if k == 0 {
        lemma_binomial_full(n);
    } else if k == n {
        lemma_binomial_full(n);
    } else {
        let m = (n - 1) as nat;
        lemma_binomial_symmetry(m, k);
        lemma_binomial_symmetry(m, (k - 1) as nat);
        assert(binomial(n, k) == binomial(m, (k - 1) as nat) + binomial(m, k));
        assert(binomial(n, (n - k) as nat) == binomial(m, (n - k - 1) as nat) + binomial(
            m,
            (n - k) as nat,
        ));
        assert((m - k) as nat == (n - k - 1) as nat);
        assert((m - (k - 1)) as nat == (n - k) as nat);
    }
}

/// The number of ways to choose `r` of `n` items. Zero when `r` exceeds
/// `n`; otherwise the multiplicative rule over `min(r, n - r)` exact
/// steps. The caller vouches that no intermediate product overflows, which
/// the bound on `binomial(n, k) * k` states exactly.
pub fn compute_combinations(n: usize, r: usize) -> (result: usize)
    requires
        r <= n ==> forall|k: int|
            1 <= k <= n - r || 1 <= k <= r ==> #[trigger] binomial(n as nat, k as nat) * k
                <= usize::MAX,
    ensures
        result == binomial(n as nat, r as nat),
{
    if r > n {
        proof {
            lemma_binomial_above(n as nat, r as nat);
        }
        return 0;
    }
    let m = if r < n - r {
        r
    } else {
        n - r
    };
    let mut acc: usize = 1;
    let mut val: usize = 1;
    while val <= m
        invariant
            m == r || m == n - r,
            m <= r,
            m + m <= n,
            r <= n,
            1 <= val <= m + 1,
            acc == binomial(n as nat, (val - 1) as nat),
            forall|k: int|
                1 <= k <= n - r || 1 <= k <= r ==> #[trigger] binomial(n as nat, k as nat) * k
                    <= usize::MAX,
        decreases m + 1 - val,
    {
        proof {
            lemma_binomial_absorb(n as nat, (val - 1) as nat);
            assert(binomial(n as nat, val as nat) * val <= usize::MAX);
            assert(acc * (n - val + 1) == binomial(n as nat, val as nat) * val) by (
            nonlinear_arith)
                requires
                    val * binomial(n as nat, val as nat) == (n - val + 1) * binomial(
                        n as nat,
                        (val - 1) as nat,
                    ),
                    acc == binomial(n as nat, (val - 1) as nat),
            ;
        }
        let prod = acc * (n - val + 1);
        proof {
            vstd::arithmetic::div_mod::lemma_div_multiples_vanish(
                binomial(n as nat, val as nat) as int,
                val as int,
            );
            assert((val as int) * (binomial(n as nat, val as nat) as int) == (binomial(
                n as nat,
                val as nat,
            ) as int) * (val as int)) by (nonlinear_arith);
        }
        acc = prod / val;
        val += 1;
    }
    proof {
        if m < r {
            assert(m == n - r);
            lemma_binomial_symmetry(n as nat, r as nat);
        }
    }
    acc
}

} // verus!
