//! IEEE-754 binary64 values carried as their bit patterns, and the
//! comparisons the configuration and order rules make on them.

use vstd::arithmetic::power2::pow2;
use vstd::prelude::*;

verus! {

/// Biased exponent field of a binary64 pattern.
pub open spec fn exponent_field(bits: u64) -> int {
    (bits / 0x10_0000_0000_0000) as int % 2048
}

/// Fraction (mantissa) field of a binary64 pattern.
pub open spec fn fraction_field(bits: u64) -> int {
    (bits % 0x10_0000_0000_0000) as int
}

/// Sign bit of a binary64 pattern.
pub open spec fn sign_bit(bits: u64) -> bool {
    bits >= 0x8000_0000_0000_0000
}

/// The pattern encodes NaN.
pub open spec fn is_nan(bits: u64) -> bool {
    exponent_field(bits) == 2047 && fraction_field(bits) != 0
}

/// The pattern encodes a finite number (not an infinity, not NaN).
pub open spec fn is_finite(bits: u64) -> bool {
    exponent_field(bits) != 2047
}

/// The pattern encodes `+0.0` or `-0.0`.
pub open spec fn is_zero(bits: u64) -> bool {
    bits % 0x8000_0000_0000_0000 == 0
}

/// `value > 0.0`.
pub open spec fn gt_zero(bits: u64) -> bool {
    !sign_bit(bits) && !is_nan(bits) && !is_zero(bits)
}

/// `value < 0.0`.
pub open spec fn lt_zero(bits: u64) -> bool {
    sign_bit(bits) && !is_nan(bits) && !is_zero(bits)
}

/// `a == b` as `f64` compares: NaN equals nothing, and the two zeros are equal.
pub open spec fn float_eq(a: u64, b: u64) -> bool {
    !is_nan(a) && !is_nan(b) && (a == b || (is_zero(a) && is_zero(b)))
}

/// `a < b` as `f64` compares: NaN is below and above nothing, the two zeros
/// are equal, negatives order by falling magnitude.
pub open spec fn float_lt(a: u64, b: u64) -> bool {
    if is_nan(a) || is_nan(b) || (is_zero(a) && is_zero(b)) {
        false
    } else if sign_bit(a) && !sign_bit(b) {
        true
    } else if !sign_bit(a) && sign_bit(b) {
        false
    } else if !sign_bit(a) {
        a < b
    } else {
        a > b
    }
}

/// `a <= b` as `f64` compares.
pub open spec fn float_le(a: u64, b: u64) -> bool {
    float_lt(a, b) || float_eq(a, b)
}

/// Bits of `10_000.0`.
pub const TEN_THOUSAND_BITS: u64 = 0x40C3_8800_0000_0000;

/// Bits of `1.0`.
pub const ONE_BITS: u64 = 0x3FF0_0000_0000_0000;

/// `value.is_finite()`.
pub fn f64_is_finite(bits: u64) -> (r: bool)
    ensures
        r == is_finite(bits),
{
    (bits / 0x10_0000_0000_0000) % 2048 != 2047
}

/// `value.is_nan()`.
pub fn f64_is_nan(bits: u64) -> (r: bool)
    ensures
        r == is_nan(bits),
{
    (bits / 0x10_0000_0000_0000) % 2048 == 2047 && bits % 0x10_0000_0000_0000 != 0
}

/// `value == 0.0`.
pub fn f64_is_zero(bits: u64) -> (r: bool)
    ensures
        r == is_zero(bits),
{
    bits % 0x8000_0000_0000_0000 == 0
}

/// `value > 0.0`.
pub fn f64_gt_zero(bits: u64) -> (r: bool)
    ensures
        r == gt_zero(bits),
{
    bits < 0x8000_0000_0000_0000 && !f64_is_nan(bits) && !f64_is_zero(bits)
}

/// `value < 0.0`.
pub fn f64_lt_zero(bits: u64) -> (r: bool)
    ensures
        r == lt_zero(bits),
{
    bits >= 0x8000_0000_0000_0000 && !f64_is_nan(bits) && !f64_is_zero(bits)
}

/// `a == b` on `f64` values.
pub fn f64_eq(a: u64, b: u64) -> (r: bool)
    ensures
        r == float_eq(a, b),
{
    !f64_is_nan(a) && !f64_is_nan(b) && (a == b || (f64_is_zero(a) && f64_is_zero(b)))
}

/// `value.fract() == 0.0` for a finite pattern: a zero, or a normal value
/// whose fraction bits below the binary point are all zero.
pub open spec fn is_integral(bits: u64) -> bool {
    let e = exponent_field(bits);
    let m = fraction_field(bits);
    if e == 0 {
        m == 0
    } else if e < 1023 {
        false
    } else if e >= 1075 {
        true
    } else {
        m % (pow2((1075 - e) as nat) as int) == 0
    }
}

/// The absolute value of a pattern with an integral value.
pub open spec fn integral_magnitude(bits: u64) -> int {
    let e = exponent_field(bits);
    let m = fraction_field(bits);
    if e == 0 {
        0
    } else if e >= 1075 {
        (0x10_0000_0000_0000 + m) * pow2((e - 1075) as nat)
    } else {
        (0x10_0000_0000_0000 + m) / (pow2((1075 - e) as nat) as int)
    }
}

/// `value as i64` for an integral value: the value, saturated to the
/// `i64` range.
pub open spec fn integral_as_i64(bits: u64) -> i64 {
    let mag = integral_magnitude(bits);
    if sign_bit(bits) {
        if mag >= 0x8000_0000_0000_0000 {
            i64::MIN
        } else {
            (-mag) as i64
        }
    } else {
        if mag > i64::MAX {
            i64::MAX
        } else {
            mag as i64
        }
    }
}

/// `value.fract() == 0.0` for a finite value.
pub fn f64_is_integral(bits: u64) -> (r: bool)
    ensures
        r == is_integral(bits),
{
    let e = (bits / 0x10_0000_0000_0000) % 2048;
    let m = bits % 0x10_0000_0000_0000;
    if e == 0 {
        m == 0
    } else if e < 1023 {
        false
    } else if e >= 1075 {
        true
    } else {
        let k: u64 = 1075 - e;
        proof {
            vstd::bits::lemma_u64_pow2_no_overflow(k as nat);
            vstd::bits::lemma_u64_shl_is_mul(1, k);
        }
        let p: u64 = 1u64 << k;
        m % p == 0
    }
}

/// `value as i64` for an integral value.
pub fn f64_integral_as_i64(bits: u64) -> (r: i64)
    requires
        is_integral(bits),
    ensures
        r == integral_as_i64(bits),
{
    let e = (bits / 0x10_0000_0000_0000) % 2048;
    let m = bits % 0x10_0000_0000_0000;
    if e == 0 {
        return 0;
    }
    let base: u64 = 0x10_0000_0000_0000 + m;
    let neg = bits >= 0x8000_0000_0000_0000;
    if e >= 1075 {
        let k: u64 = e - 1075;
        if k >= 11 {
            proof {
                vstd::arithmetic::power2::lemma2_to64();
                if k > 11 {
                    vstd::arithmetic::power2::lemma_pow2_strictly_increases(11, k as nat);
                }
                assert(base * pow2(k as nat) >= 0x8000_0000_0000_0000) by (nonlinear_arith)
                    requires
                        base >= 0x10_0000_0000_0000,
                        pow2(k as nat) >= 2048,
                ;
            }
            return if neg {
                i64::MIN
            } else {
                i64::MAX
            };
        }
        proof {
            vstd::arithmetic::power2::lemma2_to64();
            if k < 10 {
                vstd::arithmetic::power2::lemma_pow2_strictly_increases(k as nat, 10);
            }
            assert(base * pow2(k as nat) < 0x8000_0000_0000_0000) by (nonlinear_arith)
                requires
                    base < 0x20_0000_0000_0000,
                    pow2(k as nat) <= 1024,
            ;
            vstd::bits::lemma_u64_shl_is_mul(base, k);
        }
        let mag = base << k;
        if neg {
            -(mag as i64)
        } else {
            mag as i64
        }
    } else {
        let k: u64 = 1075 - e;
        proof {
            vstd::bits::lemma_u64_shr_is_div(base, k);
        }
        let mag = base >> k;
        if neg {
            -(mag as i64)
        } else {
            mag as i64
        }
    }
}

/// `a < b` on `f64` values.
pub fn f64_lt(a: u64, b: u64) -> (r: bool)
    ensures
        r == float_lt(a, b),
{
    if f64_is_nan(a) || f64_is_nan(b) || (f64_is_zero(a) && f64_is_zero(b)) {
        false
    } else if a >= 0x8000_0000_0000_0000 && b < 0x8000_0000_0000_0000 {
        true
    } else if a < 0x8000_0000_0000_0000 && b >= 0x8000_0000_0000_0000 {
        false
    } else if a < 0x8000_0000_0000_0000 {
        a < b
    } else {
        a > b
    }
}

/// `a <= b` on `f64` values.
pub fn f64_le(a: u64, b: u64) -> (r: bool)
    ensures
        r == float_le(a, b),
{
    f64_lt(a, b) || f64_eq(a, b)
}


} // verus!
