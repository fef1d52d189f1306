//! Fixed-point arithmetic over `i64` with 24 fractional bits.
//!
//! A real number `x` is represented by the integer closest to `x * 2^24`.
//! All operations saturate at the `i64` range instead of overflowing, and
//! multiplicative operations truncate toward zero, so every function here is
//! total and its exact result is stated in its contract.

use vstd::prelude::*;

verus! {

/// The fixed-point representation of the real number one: `2^24`.
pub const FP_ONE: i64 = 16777216;

/// Clamps a mathematical integer into the `i64` range.
pub open spec fn sat64(x: int) -> int {
    if x > i64::MAX {
        i64::MAX as int
    } else if x < i64::MIN {
        i64::MIN as int
    } else {
        x
    }
}

/// Division truncating toward zero (the semantics of machine division),
/// defined for positive divisors.
pub open spec fn tdiv(x: int, d: int) -> int
    recommends
        d > 0,
{
    if x >= 0 {
        x / d
    } else {
        -((-x) / d)
    }
}

/// Saturating fixed-point addition.
pub open spec fn fp_add_s(a: int, b: int) -> int {
    sat64(a + b)
}

/// Saturating fixed-point subtraction.
pub open spec fn fp_sub_s(a: int, b: int) -> int {
    sat64(a - b)
}

/// Saturating, truncating fixed-point multiplication.
pub open spec fn fp_mul_s(a: int, b: int) -> int {
    sat64(tdiv(a * b, FP_ONE as int))
}

/// Saturating fixed-point absolute value.
pub open spec fn fp_abs_s(a: int) -> int {
    sat64(if a < 0 {
        -a
    } else {
        a
    })
}

/// Adds two fixed-point numbers, saturating at the `i64` range.
pub fn fp_add(a: i64, b: i64) -> (r: i64)
    ensures
        r == fp_add_s(a as int, b as int),
{
    match a.checked_add(b) {
        Some(s) => s,
        None => if b > 0 {
            i64::MAX
        } else {
            i64::MIN
        },
    }
}

/// Subtracts two fixed-point numbers, saturating at the `i64` range.
pub fn fp_sub(a: i64, b: i64) -> (r: i64)
    ensures
        r == fp_sub_s(a as int, b as int),
{
    match a.checked_sub(b) {
        Some(s) => s,
        None => if b < 0 {
            i64::MAX
        } else {
            i64::MIN
        },
    }
}

/// Saturating fixed-point maximum.
pub open spec fn fp_max_s(a: int, b: int) -> int {
    if a >= b {
        a
    } else {
        b
    }
}

/// Saturating, truncating fixed-point division, defined for positive divisors.
pub open spec fn fp_div_s(a: int, b: int) -> int
    recommends
        b > 0,
{
    sat64(tdiv(a * (FP_ONE as int), b))
}

/// Truncating division of a (possibly negative) wide intermediate by a
/// positive divisor, then saturation to the `i64` range.
pub(crate) fn narrow_div(x: i128, d: i128) -> (r: i64)
    requires
        0 < d,
        -0x4000_0000_0000_0000_0000_0000_0000_0000 < x,
    ensures
        r == sat64(tdiv(x as int, d as int)),
{
    let q: i128 = if x >= 0 {
        ((x as u128) / (d as u128)) as i128
    } else {
        let m: u128 = ((-x) as u128) / (d as u128);
        -(m as i128)
    };
    if q > i64::MAX as i128 {
        i64::MAX
    } else if q < i64::MIN as i128 {
        i64::MIN
    } else {
        q as i64
    }
}

/// Multiplies two fixed-point numbers, truncating toward zero and saturating
/// at the `i64` range.
pub fn fp_mul(a: i64, b: i64) -> (r: i64)
    ensures
        r == fp_mul_s(a as int, b as int),
{
    proof {
        let ai = a as int;
        let bi = b as int;
        assert(-0x4000_0000_0000_0000_0000_0000_0000_0000 < ai * bi
            <= 0x4000_0000_0000_0000_0000_0000_0000_0000) by (nonlinear_arith)
            requires
                -0x8000_0000_0000_0000 <= ai <= 0x7FFF_FFFF_FFFF_FFFF,
                -0x8000_0000_0000_0000 <= bi <= 0x7FFF_FFFF_FFFF_FFFF,
        ;
    }
    let p: i128 = (a as i128) * (b as i128);
    narrow_div(p, FP_ONE as i128)
}

/// Divides two fixed-point numbers (the divisor must be positive), truncating
/// toward zero and saturating at the `i64` range.
pub fn fp_div(a: i64, b: i64) -> (r: i64)
    requires
        b > 0,
    ensures
        r == fp_div_s(a as int, b as int),
{
    let p: i128 = (a as i128) * (FP_ONE as i128);
    proof {
        assert(-0x4000_0000_0000_0000_0000_0000_0000_0000 < (a as int) * (FP_ONE as int))
            by (nonlinear_arith)
            requires
                -0x8000_0000_0000_0000 <= a as int,
        ;
    }
    narrow_div(p, b as i128)
}

/// Absolute value, saturating at the `i64` range.
pub fn fp_abs(a: i64) -> (r: i64)
    ensures
        r == fp_abs_s(a as int),
{
    if a == i64::MIN {
        i64::MAX
    } else if a < 0 {
        -a
    } else {
        a
    }
}

/// Maximum of two fixed-point numbers.
pub fn fp_max(a: i64, b: i64) -> (r: i64)
    ensures
        r == fp_max_s(a as int, b as int),
{
    if a >= b {
        a
    } else {
        b
    }
}

/// The fixed-point representation of the rational number `num / den`,
/// truncated toward zero.
pub fn fp_ratio(num: u64, den: u64) -> (r: i64)
    requires
        0 < den,
        num <= 0x1_0000_0000,
    ensures
        r == tdiv(num * FP_ONE, den as int),
{
    ((num * (FP_ONE as u64)) / den) as i64
}

/// `2^n` as a mathematical integer.
pub open spec fn two_pow(n: nat) -> nat
    decreases n,
{
    if n == 0 {
        1
    } else {
        2 * two_pow((n - 1) as nat)
    }
}

/// The floor of the base-2 logarithm of a positive integer.
pub open spec fn floor_log2(x: nat) -> nat
    recommends
        x >= 1,
    decreases x,
{
    if x < 2 {
        0
    } else {
        floor_log2(x / 2) + 1
    }
}

/// The first `k` binary fraction digits of `log2(m / 2^32)`, for a mantissa
/// `m` in `[2^32, 2^33)`, by the classical digit-by-digit squaring method.
pub open spec fn log2_bits(m: nat, k: nat) -> nat
    decreases k,
{
    if k == 0 {
        0
    } else {
        let s = (m * m) / 0x1_0000_0000;
        if s >= 0x2_0000_0000 {
            two_pow((k - 1) as nat) + log2_bits(s / 2, (k - 1) as nat)
        } else {
            log2_bits(s, (k - 1) as nat)
        }
    }
}

/// The mantissa of a positive integer, normalized into `[2^32, 2^33)`.
pub open spec fn mantissa(x: nat) -> nat
    recommends
        x >= 1,
{
    (x * 0x1_0000_0000) / two_pow(floor_log2(x))
}

/// The fixed-point base-2 logarithm of a positive fixed-point number: the
/// integer part is exact and 24 binary fraction digits follow.
pub open spec fn fp_log2_s(x: int) -> int
    recommends
        x >= 1,
{
    (floor_log2(x as nat) - 24) * (FP_ONE as int) + log2_bits(mantissa(x as nat), 24)
}

pub proof fn lemma_two_pow_adds(a: nat, b: nat)
    ensures
        two_pow(a + b) == two_pow(a) * two_pow(b),
    decreases a,
{
    if a == 0 {
    } else {
        lemma_two_pow_adds((a - 1) as nat, b);
        assert(((a - 1) as nat) + b == ((a + b - 1) as nat));
        assert(two_pow(a + b) == 2 * (two_pow((a - 1) as nat) * two_pow(b)));
        assert(2 * (two_pow((a - 1) as nat) * two_pow(b)) == (2 * two_pow((a - 1) as nat))
            * two_pow(b)) by (nonlinear_arith);
    }
}

pub proof fn lemma_two_pow_increases(a: nat, b: nat)
    requires
        a <= b,
    ensures
        two_pow(a) <= two_pow(b),
    decreases b,
{
    if a < b && b > 0 {
        lemma_two_pow_increases(a, (b - 1) as nat);
    }
}

pub proof fn lemma_two_pow_64()
    ensures
        two_pow(24) == 0x100_0000,
        two_pow(32) == 0x1_0000_0000,
        two_pow(64) == 0x1_0000_0000_0000_0000,
{
    assert(two_pow(8) == 0x100) by {
        reveal_with_fuel(two_pow, 9);
    }
    lemma_two_pow_adds(8, 8);
    assert(two_pow(16) == 0x1_0000);
    lemma_two_pow_adds(16, 8);
    assert(two_pow(24) == 0x100_0000);
    lemma_two_pow_adds(16, 16);
    assert(two_pow(32) == 0x1_0000_0000);
    lemma_two_pow_adds(32, 32);
    assert(two_pow(64) == 0x1_0000_0000_0000_0000);
}

/// The defining property of `floor_log2`: `x` lies between the consecutive
/// powers of two around it.
pub proof fn lemma_floor_log2_bounds(x: nat)
    requires
        x >= 1,
    ensures
        two_pow(floor_log2(x)) <= x,
        x < two_pow(floor_log2(x) + 1),
    decreases x,
{
    if x < 2 {
    } else {
        lemma_floor_log2_bounds(x / 2);
        vstd::arithmetic::div_mod::lemma_fundamental_div_mod(x as int, 2);
    }
}

pub proof fn lemma_two_pow_pos(n: nat)
    ensures
        two_pow(n) >= 1,
{
    lemma_two_pow_increases(0, n);
}

/// A positive integer below `2^b` has floor-log2 below `b`.
pub proof fn lemma_floor_log2_lt(x: nat, b: nat)
    requires
        1 <= x,
        x < two_pow(b),
    ensures
        floor_log2(x) < b,
{
    lemma_floor_log2_bounds(x);
    if floor_log2(x) >= b {
        lemma_two_pow_increases(b, floor_log2(x));
    }
}

/// Fixed-point base-2 logarithm of a positive fixed-point number: the floor
/// of the logarithm is exact, followed by 24 binary fraction digits from the
/// digit-by-digit mantissa-squaring method.
pub fn fp_log2(x: i64) -> (r: i64)
    requires
        x >= 1,
    ensures
        r == fp_log2_s(x as int),
{
    let xu: u64 = x as u64;
    proof {
        lemma_two_pow_64();
        lemma_floor_log2_lt(xu as nat, 64);
        lemma_floor_log2_bounds(xu as nat);
    }
    // Integer part: p becomes floor_log2(xu).
    let mut p: u64 = 0;
    let mut t: u64 = xu;
    while t >= 2
        invariant
            1 <= t,
            floor_log2(xu as nat) == p + floor_log2(t as nat),
            p <= floor_log2(xu as nat) <= 63,
        decreases t,
    {
        assert(floor_log2(t as nat) == floor_log2((t / 2) as nat) + 1);
        t = t / 2;
        p = p + 1;
    }
    assert(p == floor_log2(xu as nat));
    // Mantissa: m becomes (xu * 2^32) / 2^p, which lies in [2^32, 2^33).
    let mut m: u64 = xu;
    proof {
        assert(two_pow(0) == 1);
    }
    if p >= 32 {
        let mut i: u64 = 0;
        assert(m as nat == (xu as nat) / two_pow(0));
        while i < p - 32
            invariant
                32 <= p <= 63,
                i <= p - 32,
                m as nat == (xu as nat) / two_pow(i as nat),
            decreases p - 32 - i,
        {
            proof {
                lemma_two_pow_pos(i as nat);
                vstd::arithmetic::div_mod::lemma_div_denominator(
                    xu as int,
                    two_pow(i as nat) as int,
                    2,
                );
            }
            m = m / 2;
            i = i + 1;
        }
        proof {
            lemma_mantissa_high(xu as nat, p as nat);
        }
    } else {
        let ghost xbound: nat = two_pow((p + 1) as nat);
        let mut i: u64 = 0;
        assert(m as nat == (xu as nat) * two_pow(0));
        while i < 32 - p
            invariant
                p < 32,
                i <= 32 - p,
                xu < xbound,
                xbound == two_pow((p + 1) as nat),
                m as nat == (xu as nat) * two_pow(i as nat),
            decreases 32 - p - i,
        {
            proof {
                lemma_two_pow_pos(i as nat);
                lemma_two_pow_adds((p + 1) as nat, i as nat);
                lemma_two_pow_increases((p + 1 + i) as nat, 32);
                lemma_two_pow_64();
                assert((xu as nat) * two_pow(i as nat) < two_pow((p + 1) as nat) * two_pow(
                    i as nat,
                )) by (nonlinear_arith)
                    requires
                        (xu as nat) < two_pow((p + 1) as nat),
                        two_pow(i as nat) >= 1,
                ;
            }
            m = m * 2;
            proof {
                assert((xu as nat) * two_pow(i as nat) * 2 == (xu as nat) * (2 * two_pow(
                    i as nat,
                ))) by (nonlinear_arith);
            }
            i = i + 1;
        }
        proof {
            lemma_mantissa_low(xu as nat, p as nat);
        }
    }
    assert(m as nat == mantissa(xu as nat));
    proof {
        lemma_mantissa_in_range(xu as nat);
    }
    // Fraction digits by mantissa squaring.
    let ghost m0: nat = m as nat;
    let mut frac: u64 = 0;
    let mut k: u64 = 24;
    while k > 0
        invariant
            0x1_0000_0000 <= m < 0x2_0000_0000,
            k <= 24,
            frac < two_pow((24 - k) as nat),
            log2_bits(m0, 24) == (frac as nat) * two_pow(k as nat) + log2_bits(
                m as nat,
                k as nat,
            ),
        decreases k,
    {
        let ghost k_prev: nat = k as nat;
        let ghost frac_prev: nat = frac as nat;
        let ghost m_prev: nat = m as nat;
        proof {
            lemma_square_bounds(m as nat);
            lemma_two_pow_64();
            lemma_two_pow_increases((24 - k) as nat, 24);
            assert((m as int) * (m as int) < 0x4_0000_0000_0000_0000) by (nonlinear_arith)
                requires
                    0 <= (m as int) < 0x2_0000_0000,
            ;
        }
        let s: u64 = (((m as u128) * (m as u128)) / 0x1_0000_0000) as u64;
        proof {
            assert(s as nat == (m_prev * m_prev) / 0x1_0000_0000);
            assert(two_pow((24 - k + 1) as nat) == 2 * two_pow((24 - k) as nat));
            assert(two_pow(k_prev) == 2 * two_pow((k_prev - 1) as nat));
        }
        let bit: u64 = if s >= 0x2_0000_0000 {
            m = s / 2;
            1
        } else {
            m = s;
            0
        };
        frac = frac * 2 + bit;
        proof {
            assert(log2_bits(m_prev, k_prev) == (bit as nat) * two_pow((k_prev - 1) as nat)
                + log2_bits(m as nat, (k_prev - 1) as nat));
            assert((2 * frac_prev + bit) * two_pow((k_prev - 1) as nat) == frac_prev * (2 * two_pow(
                (k_prev - 1) as nat,
            )) + (bit as nat) * two_pow((k_prev - 1) as nat)) by (nonlinear_arith);
        }
        k = k - 1;
    }
    proof {
        assert(k == 0);
        assert(log2_bits(m as nat, 0) == 0);
        assert(two_pow(0) == 1);
        assert(log2_bits(m0, 24) == (frac as nat) * two_pow(k as nat) + log2_bits(
            m as nat,
            k as nat,
        ));
        assert((frac as nat) * two_pow(k as nat) == (frac as nat) * 1);
    }
    assert(frac as nat == log2_bits(m0, 24));
    // Assemble: (p - 24) * FP_ONE + frac.
    let ip: i64 = (p as i64) - 24;
    ip * FP_ONE + (frac as i64)
}

/// For `p = floor_log2(x) >= 32`, repeated halving reaches the mantissa.
proof fn lemma_mantissa_high(x: nat, p: nat)
    requires
        x >= 1,
        p == floor_log2(x),
        p >= 32,
    ensures
        x / two_pow((p - 32) as nat) == mantissa(x),
{
    let d = two_pow((p - 32) as nat);
    lemma_two_pow_pos((p - 32) as nat);
    lemma_two_pow_adds((p - 32) as nat, 32);
    lemma_two_pow_64();
    assert(two_pow(p) == d * 0x1_0000_0000);
    vstd::arithmetic::div_mod::lemma_div_denominator(
        (x * 0x1_0000_0000) as int,
        0x1_0000_0000,
        d as int,
    );
    vstd::arithmetic::div_mod::lemma_div_multiples_vanish(x as int, 0x1_0000_0000);
    assert(((x * 0x1_0000_0000) as int) / (two_pow(p) as int) == (((x * 0x1_0000_0000) as int)
        / (0x1_0000_0000 as int)) / (d as int));
}

/// For `p = floor_log2(x) < 32`, repeated doubling reaches the mantissa.
proof fn lemma_mantissa_low(x: nat, p: nat)
    requires
        x >= 1,
        p == floor_log2(x),
        p < 32,
    ensures
        x * two_pow((32 - p) as nat) == mantissa(x),
{
    let f = two_pow((32 - p) as nat);
    let d = two_pow(p);
    lemma_two_pow_pos(p);
    lemma_two_pow_adds((32 - p) as nat, p);
    lemma_two_pow_64();
    assert(f * d == 0x1_0000_0000);
    assert(x * 0x1_0000_0000 == (d as int) * ((x * f) as int)) by (nonlinear_arith)
        requires
            f * d == 0x1_0000_0000,
    ;
    vstd::arithmetic::div_mod::lemma_div_multiples_vanish((x * f) as int, d as int);
}

/// The mantissa of a positive integer lies in `[2^32, 2^33)`.
proof fn lemma_mantissa_in_range(x: nat)
    requires
        x >= 1,
    ensures
        0x1_0000_0000 <= mantissa(x) < 0x2_0000_0000,
{
    let p = floor_log2(x);
    let d = two_pow(p);
    lemma_floor_log2_bounds(x);
    lemma_two_pow_pos(p);
    lemma_two_pow_64();
    // lower bound: x >= 2^p, so (x * 2^32) / 2^p >= 2^32
    assert(x * 0x1_0000_0000 >= d * 0x1_0000_0000) by (nonlinear_arith)
        requires
            x >= d,
    ;
    vstd::arithmetic::div_mod::lemma_div_is_ordered(
        (d * 0x1_0000_0000) as int,
        (x * 0x1_0000_0000) as int,
        d as int,
    );
    vstd::arithmetic::div_mod::lemma_div_multiples_vanish(0x1_0000_0000, d as int);
    // upper bound: x < 2^(p+1), so (x * 2^32) / 2^p < 2^33
    assert(x * 0x1_0000_0000 < d * 0x2_0000_0000) by (nonlinear_arith)
        requires
            x < 2 * d,
    ;
    vstd::arithmetic::div_mod::lemma_multiply_divide_lt(
        (x * 0x1_0000_0000) as int,
        d as int,
        0x2_0000_0000,
    );
}

/// Bounds on one mantissa-squaring step.
proof fn lemma_square_bounds(m: nat)
    requires
        0x1_0000_0000 <= m < 0x2_0000_0000,
    ensures
        0x1_0000_0000 <= (m * m) / 0x1_0000_0000,
        (m * m) / 0x1_0000_0000 < 0x4_0000_0000,
{
    assert(m * m >= 0x1_0000_0000 * 0x1_0000_0000) by (nonlinear_arith)
        requires
            m >= 0x1_0000_0000,
    ;
    vstd::arithmetic::div_mod::lemma_div_is_ordered(
        (0x1_0000_0000 * 0x1_0000_0000) as int,
        (m * m) as int,
        0x1_0000_0000,
    );
    vstd::arithmetic::div_mod::lemma_div_multiples_vanish(0x1_0000_0000, 0x1_0000_0000);
    assert(m * m < 0x1_0000_0000 * 0x4_0000_0000) by (nonlinear_arith)
        requires
            m < 0x2_0000_0000,
    ;
    vstd::arithmetic::div_mod::lemma_multiply_divide_lt(
        (m * m) as int,
        0x1_0000_0000,
        0x4_0000_0000,
    );
}

} // verus!
