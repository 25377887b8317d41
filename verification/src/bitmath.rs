//! Mathematical model of bit-packed values: bits and population counts of a
//! natural number, together with the lemmas that connect this model to the
//! machine-level shift and mask operations on `u32` and `u64`.

use vstd::arithmetic::power2::{
    lemma2_to64, lemma_pow2_adds, lemma_pow2_pos, lemma_pow2_strictly_increases,
    lemma_pow2_unfold, pow2,
};
use vstd::bits::{lemma_u32_shl_is_mul, lemma_u32_shr_is_div, lemma_u64_shl_is_mul,
    lemma_u64_shr_is_div};
use vstd::prelude::*;

verus! {

/// Number of set bits in the binary representation of `n`.
pub open spec fn popcount(n: nat) -> nat
    decreases n,
{
    if n == 0 {
        0
    } else {
        popcount(n / 2) + n % 2
    }
}

/// Whether bit `i` of `n` is set.
pub open spec fn bit_at(n: nat, i: nat) -> bool
    decreases i,
{
    if i == 0 {
        n % 2 == 1
    } else {
        bit_at(n / 2, (i - 1) as nat)
    }
}

/// Halving distributes over adding an even quantity.
pub(crate) proof fn lemma_halve_even_add(a: nat, c: nat)
    by (nonlinear_arith)
    ensures
        (a + 2 * c) / 2 == a / 2 + c,
        (a + 2 * c) % 2 == a % 2,
{
}

/// Halving an odd number built from a doubled one.
pub(crate) proof fn lemma_halve_odd(c: nat)
    by (nonlinear_arith)
    ensures
        (2 * c + 1) / 2 == c,
        (2 * c + 1) % 2 == 1,
{
}

/// Halving respects strict bounds by doubled quantities.
pub(crate) proof fn lemma_half_lt(a: nat, p: nat)
    by (nonlinear_arith)
    requires
        a < 2 * p,
    ensures
        a / 2 < p,
{
}

/// A number is its doubled half plus its parity.
pub(crate) proof fn lemma_halves(a: nat)
    by (nonlinear_arith)
    ensures
        a == 2 * (a / 2) + a % 2,
{
}

/// `bit_at` agrees with dividing by the corresponding power of two.
pub proof fn lemma_bit_at_div(n: nat, i: nat)
    ensures
        bit_at(n, i) <==> (n / pow2(i)) % 2 == 1,
    decreases i,
{
    if i == 0 {
        assert(pow2(0) == 1) by { lemma2_to64(); }
        assert(n / 1 == n) by (nonlinear_arith);
    } else {
        lemma_bit_at_div(n / 2, (i - 1) as nat);
        lemma_pow2_unfold(i);
        lemma_pow2_pos((i - 1) as nat);
        assert((n / 2) / pow2((i - 1) as nat) == n / (2 * pow2((i - 1) as nat))) by {
            vstd::arithmetic::div_mod::lemma_div_denominator(
                n as int,
                2,
                pow2((i - 1) as nat) as int,
            );
        }
    }
}

/// Bits at or above the width of a value are clear.
pub proof fn lemma_bit_at_high(a: nat, k: nat, j: nat)
    requires
        a < pow2(k),
        j >= k,
    ensures
        !bit_at(a, j),
    decreases j,
{
    if j == 0 {
        assert(pow2(0) == 1) by { lemma2_to64(); }
    } else if k == 0 {
        assert(pow2(0) == 1) by { lemma2_to64(); }
        assert(a == 0);
        lemma_bit_at_high(0, 0, (j - 1) as nat);
    } else {
        lemma_pow2_unfold(k);
        lemma_half_lt(a, pow2((k - 1) as nat));
        lemma_bit_at_high(a / 2, (k - 1) as nat, (j - 1) as nat);
    }
}

/// Setting a clear bit adds exactly one to the population count.
pub proof fn lemma_popcount_set(a: nat, k: nat)
    requires
        !bit_at(a, k),
    ensures
        popcount(a + pow2(k)) == popcount(a) + 1,
    decreases k,
{
    if k == 0 {
        assert(pow2(0) == 1) by { lemma2_to64(); }
        assert(a % 2 == 0);
        lemma_halves(a);
        lemma_halve_odd(a / 2);
        assert((a + 1) / 2 == a / 2 && (a + 1) % 2 == 1);
    } else {
        lemma_pow2_unfold(k);
        lemma_halve_even_add(a, pow2((k - 1) as nat));
        assert((a + pow2(k)) / 2 == a / 2 + pow2((k - 1) as nat));
        assert((a + pow2(k)) % 2 == a % 2);
        lemma_popcount_set(a / 2, (k - 1) as nat);
        assert(a + pow2(k) > 0) by { lemma_pow2_pos(k); }
    }
}

/// The value with the lowest `k` bits set has population count `k`.
pub proof fn lemma_popcount_mask(k: nat)
    ensures
        popcount((pow2(k) - 1) as nat) == k,
    decreases k,
{
    lemma_pow2_pos(k);
    if k == 0 {
        assert(pow2(0) == 1) by { lemma2_to64(); }
    } else {
        lemma_pow2_unfold(k);
        lemma_pow2_pos((k - 1) as nat);
        lemma_halve_odd((pow2((k - 1) as nat) - 1) as nat);
        assert((pow2(k) - 1) as nat == 2 * ((pow2((k - 1) as nat) - 1) as nat) + 1);
        lemma_popcount_mask((k - 1) as nat);
    }
}

/// Setting a clear bit below the width keeps the value below the width.
pub proof fn lemma_set_bit_bound(a: nat, k: nat, m: nat)
    requires
        a < pow2(m),
        k < m,
        !bit_at(a, k),
    ensures
        a + pow2(k) < pow2(m),
    decreases k,
{
    if k == 0 {
        assert(pow2(0) == 1) by { lemma2_to64(); }
        assert(a % 2 == 0);
        lemma_pow2_unfold(m);
        if a + 1 == pow2(m) {
            lemma_halves(a);
            assert(pow2(m) % 2 == 0) by {
                lemma_halve_even_add(0, pow2((m - 1) as nat));
            }
            lemma_halve_odd(a / 2);
            assert(false);
        }
    } else {
        lemma_pow2_unfold(m);
        lemma_pow2_unfold(k);
        lemma_half_lt(a, pow2((m - 1) as nat));
        lemma_set_bit_bound(a / 2, (k - 1) as nat, (m - 1) as nat);
        lemma_halves(a);
        assert(a + pow2(k) == 2 * (a / 2 + pow2((k - 1) as nat)) + a % 2);
        assert(a / 2 + pow2((k - 1) as nat) + 1 <= pow2((m - 1) as nat));
    }
}

/// Zero has no set bits.
pub proof fn lemma_bit_at_zero(j: nat)
    ensures
        !bit_at(0, j),
    decreases j,
{
    if j > 0 {
        lemma_bit_at_zero((j - 1) as nat);
    }
}

/// A value below `2^m` has at most `m` set bits.
pub proof fn lemma_popcount_bound(y: nat, m: nat)
    requires
        y < pow2(m),
    ensures
        popcount(y) <= m,
    decreases m,
{
    if m == 0 {
        assert(pow2(0) == 1) by { lemma2_to64(); }
    } else if y > 0 {
        lemma_pow2_unfold(m);
        lemma_half_lt(y, pow2((m - 1) as nat));
        lemma_popcount_bound(y / 2, (m - 1) as nat);
    }
}

/// A power of two has exactly one set bit.
pub proof fn lemma_popcount_pow2(k: nat)
    ensures
        popcount(pow2(k)) == 1,
{
    lemma_bit_at_zero(k);
    lemma_popcount_set(0, k);
}

/// Divisibility by `2^m` passes to the half and divisibility by `2^(m-1)`.
pub(crate) proof fn lemma_mod_pow2_step(a: nat, m: nat)
    requires
        m >= 1,
        a % pow2(m) == 0,
    ensures
        a % 2 == 0,
        (a / 2) % pow2((m - 1) as nat) == 0,
{
    lemma_pow2_unfold(m);
    lemma_pow2_pos((m - 1) as nat);
    lemma_mod_pow2_step_math(a, pow2((m - 1) as nat));
}

/// Arithmetic core of `lemma_mod_pow2_step`.
proof fn lemma_mod_pow2_step_math(a: nat, p: nat)
    requires
        p > 0,
        a % (2 * p) == 0,
    ensures
        a % 2 == 0,
        (a / 2) % p == 0,
{
    vstd::arithmetic::div_mod::lemma_mod_breakdown(a as int, 2, p as int);
    assert(2 * ((a as int / 2) % p as int) + a as int % 2 == 0);
    vstd::arithmetic::div_mod::lemma_mod_division_less_than_divisor(a as int, 2);
    vstd::arithmetic::div_mod::lemma_mod_division_less_than_divisor(
        a as int / 2,
        p as int,
    );
    vstd::arithmetic::div_mod::lemma_div_pos_is_pos(a as int, 2);
}

/// A multiple of `2^m` has no set bits below position `m`.
pub proof fn lemma_mod_pow2_bit(a: nat, m: nat, j: nat)
    requires
        a % pow2(m) == 0,
        j < m,
    ensures
        !bit_at(a, j),
    decreases j,
{
    lemma_mod_pow2_step(a, m);
    if j > 0 {
        lemma_mod_pow2_bit(a / 2, (m - 1) as nat, (j - 1) as nat);
    }
}

/// Divisibility by a higher power of two implies divisibility by a lower one.
pub proof fn lemma_mod_pow2_weaken(a: nat, m1: nat, m2: nat)
    requires
        m2 <= m1,
        a % pow2(m1) == 0,
    ensures
        a % pow2(m2) == 0,
{
    lemma_pow2_adds(m2, (m1 - m2) as nat);
    lemma_pow2_pos(m2);
    lemma_pow2_pos((m1 - m2) as nat);
    vstd::arithmetic::div_mod::lemma_mod_mod(
        a as int,
        pow2(m2) as int,
        pow2((m1 - m2) as nat) as int,
    );
    assert(pow2(m2) * pow2((m1 - m2) as nat) == pow2(m1));
    vstd::arithmetic::div_mod::lemma_small_mod(0, pow2(m2));
}

/// The sum of two multiples of `p` is a multiple of `p`.
pub proof fn lemma_mod_add_zero(a: nat, b: nat, p: nat)
    requires
        p > 0,
        a % p == 0,
        b % p == 0,
    ensures
        (a + b) % p == 0,
{
    vstd::arithmetic::div_mod::lemma_add_mod_noop(a as int, b as int, p as int);
    vstd::arithmetic::div_mod::lemma_small_mod(0, p);
}

/// Population counts add across a split into high and low bits.
pub proof fn lemma_popcount_split(a: nat, y: nat, m: nat)
    requires
        a % pow2(m) == 0,
        y < pow2(m),
    ensures
        popcount(a + y) == popcount(a) + popcount(y),
    decreases m,
{
    if m == 0 {
        assert(pow2(0) == 1) by { lemma2_to64(); }
    } else if a + y > 0 {
        lemma_mod_pow2_step(a, m);
        lemma_pow2_unfold(m);
        lemma_half_lt(y, pow2((m - 1) as nat));
        lemma_halves(y);
        lemma_halve_even_add(y, a / 2);
        assert((a + y) / 2 == a / 2 + y / 2 && (a + y) % 2 == y % 2);
        lemma_popcount_split(a / 2, y / 2, (m - 1) as nat);
        lemma_halves(a);
        assert(popcount(a) == popcount(a / 2) + a % 2);
        assert(popcount(a + y) == popcount(a / 2 + y / 2) + y % 2);
        if y > 0 {
            assert(popcount(y) == popcount(y / 2) + y % 2);
        }
    }
}

/// Relates the machine bit test on a `u32` to the model.
pub proof fn lemma_u32_bit_test(x: u32, k: u32)
    requires
        k < 32,
    ensures
        (x >> k) & 1 == (if bit_at(x as nat, k as nat) { 1u32 } else { 0u32 }),
{
    lemma_u32_shr_is_div(x, k);
    assert((x >> k) & 1 == (x >> k) % 2) by (bit_vector);
    lemma_bit_at_div(x as nat, k as nat);
}

/// Relates setting one clear bit of a `u32` to adding a power of two.
pub proof fn lemma_u32_set_bit(x: u32, k: u32)
    requires
        k < 32,
        !bit_at(x as nat, k as nat),
    ensures
        x + pow2(k as nat) <= u32::MAX,
        (x | (1u32 << k)) == x + pow2(k as nat),
{
    lemma_u32_bit_test(x, k);
    assert((x >> k) & 1 == 0 && k < 32 ==> (x | (1u32 << k)) == x + (1u32 << k)
        && x + (1u32 << k) <= u32::MAX) by (bit_vector);
    assert(1u32 << k == pow2(k as nat)) by {
        lemma_pow2_u32_bound(k as nat);
        lemma_u32_shl_is_mul(1u32, k);
    }
}

/// A power of two with exponent below 32 fits in a `u32`.
pub proof fn lemma_pow2_u32_bound(k: nat)
    requires
        k < 32,
    ensures
        pow2(k) <= 0x8000_0000,
{
    if k < 31 {
        lemma_pow2_strictly_increases(k, 31);
    }
    lemma2_to64();
}

/// A power of two with exponent below 64 fits in a `u64`.
pub proof fn lemma_pow2_u64_bound(k: nat)
    requires
        k < 64,
    ensures
        pow2(k) <= 0x8000_0000_0000_0000,
{
    if k < 63 {
        lemma_pow2_strictly_increases(k, 63);
    }
    vstd::arithmetic::power2::lemma2_to64_rest();
}

/// A right shift of a `u32` is zero exactly when the value is below the width.
pub proof fn lemma_u32_shr_zero(x: u32, k: u32)
    requires
        k < 32,
    ensures
        (x >> k == 0) <==> (x as nat) < pow2(k as nat),
{
    lemma_u32_shr_is_div(x, k);
    lemma_pow2_pos(k as nat);
    lemma_div_zero_iff(x as nat, pow2(k as nat));
}

/// Division by a positive number is zero exactly on smaller values.
pub(crate) proof fn lemma_div_zero_iff(a: nat, p: nat)
    by (nonlinear_arith)
    requires
        p > 0,
    ensures
        (a / p == 0) <==> a < p,
{
}

/// Relates the machine bit test on a `u64` to the model.
pub proof fn lemma_u64_bit_test(x: u64, k: u64)
    requires
        k < 64,
    ensures
        (x >> k) & 1 == (if bit_at(x as nat, k as nat) { 1u64 } else { 0u64 }),
{
    lemma_u64_shr_is_div(x, k);
    assert((x >> k) & 1 == (x >> k) % 2) by (bit_vector);
    lemma_bit_at_div(x as nat, k as nat);
}

/// Relates setting one clear bit of a `u64` to adding a power of two.
pub proof fn lemma_u64_set_bit(x: u64, k: u64)
    requires
        k < 64,
        !bit_at(x as nat, k as nat),
    ensures
        x + pow2(k as nat) <= u64::MAX,
        (x | (1u64 << k)) == x + pow2(k as nat),
{
    lemma_u64_bit_test(x, k);
    assert((x >> k) & 1 == 0 && k < 64 ==> (x | (1u64 << k)) == x + (1u64 << k)
        && x + (1u64 << k) <= u64::MAX) by (bit_vector);
    assert(1u64 << k == pow2(k as nat)) by {
        lemma_pow2_u64_bound(k as nat);
        lemma_u64_shl_is_mul(1u64, k);
    }
}

/// A right shift of a `u64` is zero exactly when the value is below the width.
pub proof fn lemma_u64_shr_zero(x: u64, k: u64)
    requires
        k < 64,
    ensures
        (x >> k == 0) <==> (x as nat) < pow2(k as nat),
{
    lemma_u64_shr_is_div(x, k);
    lemma_pow2_pos(k as nat);
    lemma_div_zero_iff(x as nat, pow2(k as nat));
}

/// A right shift by one halves a `u32`.
pub proof fn lemma_u32_shr_one(x: u32)
    ensures
        (x >> 1u32) == (x as nat) / 2,
{
    lemma_u32_shr_is_div(x, 1);
    assert(pow2(1) == 2) by { lemma2_to64(); }
}

/// A right shift by one halves a `u64`.
pub proof fn lemma_u64_shr_one(x: u64)
    ensures
        (x >> 1u64) == (x as nat) / 2,
{
    lemma_u64_shr_is_div(x, 1);
    assert(pow2(1) == 2) by { lemma2_to64(); }
}

} // verus!
