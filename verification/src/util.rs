//! Combinatorial utilities: the binomial coefficient, as a mathematical
//! definition and as an executable function.

use vstd::arithmetic::power2::{lemma2_to64_rest, lemma_pow2_pos, lemma_pow2_unfold, pow2};
use vstd::prelude::*;

verus! {

/// The binomial coefficient `C(n, k)`, defined by Pascal's rule.
pub open spec fn binom(n: nat, k: nat) -> nat
    decreases n,
{
    if k == 0 {
        1
    } else if n == 0 {
        0
    } else {
        binom((n - 1) as nat, (k - 1) as nat) + binom((n - 1) as nat, k)
    }
}

/// Choosing more items than are available is impossible.
pub proof fn lemma_binom_above(n: nat, k: nat)
    requires
        k > n,
    ensures
        binom(n, k) == 0,
    decreases n,
{
    if n > 0 {
        lemma_binom_above((n - 1) as nat, (k - 1) as nat);
        lemma_binom_above((n - 1) as nat, k);
    }
}

/// There is exactly one way to take everything.
pub proof fn lemma_binom_all(n: nat)
    ensures
        binom(n, n) == 1,
    decreases n,
{
    if n > 0 {
        lemma_binom_all((n - 1) as nat);
        lemma_binom_above((n - 1) as nat, n);
    }
}

/// There are `n` ways to take a single item.
pub proof fn lemma_binom_one(n: nat)
    ensures
        binom(n, 1) == n,
    decreases n,
{
    if n > 0 {
        lemma_binom_one((n - 1) as nat);
        assert(binom((n - 1) as nat, 0) == 1);
        assert(binom(n, 1) == binom((n - 1) as nat, 0) + binom((n - 1) as nat, 1));
    }
}

/// Taking `k` items is the same as leaving `n - k` behind.
pub proof fn lemma_binom_sym(n: nat, k: nat)
    requires
        k <= n,
    ensures
        binom(n, k) == binom(n, (n - k) as nat),
    decreases n,
{
    if k == 0 {
        lemma_binom_all(n);
    } else if k == n {
        lemma_binom_all(n);
    } else {
        lemma_binom_sym((n - 1) as nat, (k - 1) as nat);
        lemma_binom_sym((n - 1) as nat, k);
    }
}

/// Taking no more items than are available is always possible in some way.
pub proof fn lemma_binom_pos(n: nat, k: nat)
    requires
        k <= n,
    ensures
        binom(n, k) >= 1,
    decreases n,
{
    if k != 0 && n != 0 {
        lemma_binom_pos((n - 1) as nat, (k - 1) as nat);
    }
}

/// The ratio between neighbouring binomial coefficients in one row.
pub proof fn lemma_binom_ratio(n: nat, k: nat)
    requires
        k < n,
    ensures
        (k + 1) * binom(n, k + 1) == (n - k) * binom(n, k),
    decreases n,
{
    if k == 0 {
        lemma_binom_one(n);
        assert(binom(n, 0) == 1);
        assert((0 + 1) * binom(n, 0 + 1) == n * 1);
    } else if k + 1 == n {
        lemma_binom_all((n - 1) as nat);
        lemma_binom_above((n - 1) as nat, n);
        lemma_binom_sym(n, 1);
        lemma_binom_one(n);
        assert(binom(n, k + 1) == binom((n - 1) as nat, (k + 1 - 1) as nat) + binom(
            (n - 1) as nat,
            (k + 1) as nat,
        ));
        assert(binom(n, k + 1) == 1);
        assert(binom(n, k) == binom(n, (n - 1) as nat) == n);
        assert((k + 1) * binom(n, k + 1) == n * 1) by (nonlinear_arith)
            requires
                k + 1 == n,
                binom(n, k + 1) == 1,
        ;
        assert((n - k) * binom(n, k) == 1 * n) by (nonlinear_arith)
            requires
                k + 1 == n,
                binom(n, k) == n,
        ;
    } else {
        let a = binom((n - 1) as nat, (k - 1) as nat);
        let b = binom((n - 1) as nat, k);
        let c = binom((n - 1) as nat, k + 1);
        assert(binom(n, k + 1) == b + c);
        assert(binom(n, k) == a + b);
        lemma_binom_ratio((n - 1) as nat, k);
        assert((k + 1) * c == (n - 1 - k) * b);
        lemma_binom_ratio((n - 1) as nat, (k - 1) as nat);
        assert(k * b == (n - k) * a);
        assert((k + 1) * (b + c) == (k + 1) * b + (k + 1) * c) by (nonlinear_arith);
        assert((k + 1) * b + (n - 1 - k) * b == n * b) by (nonlinear_arith)
            requires
                k + 1 <= n,
        ;
        assert((n - k) * (a + b) == (n - k) * a + (n - k) * b) by (nonlinear_arith);
        assert(k * b + (n - k) * b == n * b) by (nonlinear_arith)
            requires
                k <= n,
        ;
        assert((k + 1) * binom(n, k + 1) == n * b);
        assert((n - k) * binom(n, k) == n * b);
    }
}

/// Every binomial coefficient in row `n` is at most `2^n`.
pub proof fn lemma_binom_bound(n: nat, k: nat)
    ensures
        binom(n, k) <= pow2(n),
    decreases n,
{
    lemma_pow2_pos(n);
    if k != 0 && n != 0 {
        lemma_binom_bound((n - 1) as nat, (k - 1) as nat);
        lemma_binom_bound((n - 1) as nat, k);
        lemma_pow2_unfold(n);
    }
}

/// An exact product divided by its positive factor gives the other factor.
proof fn lemma_mul_div_exact(q: nat, c: nat)
    by (nonlinear_arith)
    requires
        c > 0,
    ensures
        (c * q) / c == q,
{
}

/// Multiplying within bounds stays within the product of the bounds.
proof fn lemma_mul_bounds(a: nat, b: nat, x: nat, y: nat)
    by (nonlinear_arith)
    requires
        a <= x,
        b <= y,
    ensures
        a * b <= x * y,
{
}

/// Compute the binomial coefficient C(n, k) — the number of ways to choose `k`
/// items from `n` items without regard to order.
///
/// Returns 0 when `k > n`. Multiplication saturates instead of overflowing, so
/// the function never panics; the result is only meaningful while no
/// intermediate product saturates, which holds for every `n` up to 57.
pub fn combinations(n: u64, k: u64) -> (r: u64)
    ensures
        k > n ==> r == 0,
        k <= n && n <= 57 ==> r == binom(n as nat, k as nat),
{
    if k > n {
        return 0;
    }
    let kk: u64 = if k < n - k {
        k
    } else {
        n - k
    };
    let mut result: u64 = 1;
    let mut i: u64 = 0;
    while i < kk
        invariant
            i <= kk,
            kk <= n,
            kk == k || kk == n - k,
            n <= 57 ==> result == binom(n as nat, i as nat),
        decreases kk - i,
    {
        let factor = n - i;
        let prod = match result.checked_mul(factor) {
            Some(p) => p,
            None => u64::MAX,
        };
        proof {
            if n <= 57 {
                lemma_binom_bound(n as nat, i as nat);
                if (n as nat) < 57 {
                    vstd::arithmetic::power2::lemma_pow2_strictly_increases(n as nat, 57);
                }
                lemma_mul_bounds(result as nat, factor as nat, pow2(57), 57);
                assert(pow2(57) == 0x200_0000_0000_0000) by { lemma2_to64_rest(); }
                assert(result * factor <= u64::MAX);
                assert(prod == result * factor);
                lemma_binom_ratio(n as nat, i as nat);
                assert(result * factor == (n - i) * binom(n as nat, i as nat))
                    by (nonlinear_arith)
                    requires
                        result == binom(n as nat, i as nat),
                        factor == n - i,
                ;
                assert(prod == (i + 1) * binom(n as nat, (i + 1) as nat));
                lemma_mul_div_exact(binom(n as nat, (i + 1) as nat), (i + 1) as nat);
                assert((prod as nat) / ((i + 1) as nat) == binom(n as nat, (i + 1) as nat));
            }
        }
        result = prod / (i + 1);
        i = i + 1;
    }
    proof {
        if n <= 57 && kk != k {
            lemma_binom_sym(n as nat, k as nat);
        }
    }
    result
}

} // verus!
