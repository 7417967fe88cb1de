//! The two hardware float backends, each value held as its IEEE-754 bit pattern.
use vstd::arithmetic::div_mod::lemma_div_denominator;
use vstd::prelude::*;

verus! {

pub open spec fn pow2(n: nat) -> nat
    decreases n,
{
    if n == 0 {
        1
    } else {
        2 * pow2((n - 1) as nat)
    }
}

/// `m * 2^e`, rounded toward zero where `e` is negative.
pub open spec fn scaled(m: nat, e: int) -> nat {
    if e >= 0 {
        m * pow2(e as nat)
    } else {
        m / pow2((-e) as nat)
    }
}

/// The nearest `i128` to `v`.
pub open spec fn clamp_i128(v: int) -> i128 {
    if v > i128::MAX {
        i128::MAX
    } else if v < i128::MIN {
        i128::MIN
    } else {
        v as i128
    }
}

pub open spec fn signed(negative: bool, mag: nat) -> int {
    if negative {
        -(mag as int)
    } else {
        mag as int
    }
}

proof fn lemma_pow2_pos(n: nat)
    ensures
        pow2(n) >= 1,
    decreases n,
{
    if n > 0 {
        lemma_pow2_pos((n - 1) as nat);
    }
}

proof fn lemma_pow2_add(a: nat, b: nat)
    ensures
        pow2(a + b) == pow2(a) * pow2(b),
    decreases b,
{
    if b > 0 {
        let c = (b - 1) as nat;
        lemma_pow2_add(a, c);
        assert(pow2(a + b) == 2 * pow2(a + c));
        assert(pow2(b) == 2 * pow2(c));
        assert(pow2(a) * (2 * pow2(c)) == 2 * (pow2(a) * pow2(c))) by (nonlinear_arith);
        assert(pow2(a) * pow2(b) == pow2(a) * (2 * pow2(c)));
    } else {
        assert(pow2(0) == 1);
        assert(a + b == a);
        assert(pow2(a) * 1 == pow2(a));
    }
}

/// `m * 2^e` truncated toward zero, with the given sign, saturated to the `i128` range.
fn scaled_to_i128(negative: bool, m: u64, e: i32) -> (r: i128)
    requires
        -2000 <= e <= 2000,
    ensures
        r == clamp_i128(signed(negative, scaled(m as nat, e as int))),
{
    if e >= 0 {
        let mut mag: u128 = m as u128;
        let mut k: i32 = 0;
        assert(pow2(0) == 1);
        assert(m as nat * pow2(0) == m as nat);
        while k < e
            invariant
                0 <= k <= e,
                mag as nat == m as nat * pow2(k as nat),
            decreases e - k,
        {
            if mag >= 0x8000_0000_0000_0000_0000_0000_0000_0000u128 {
                proof {
                    let rest = (e - k) as nat;
                    lemma_pow2_add(k as nat, rest);
                    lemma_pow2_pos(rest);
                    assert(m as nat * pow2(e as nat) == mag as nat * pow2(rest)) by (nonlinear_arith)
                        requires
                            mag as nat == m as nat * pow2(k as nat),
                            pow2(e as nat) == pow2(k as nat) * pow2(rest),
                    ;
                    assert(mag as nat * pow2(rest) >= mag as nat) by (nonlinear_arith)
                        requires
                            pow2(rest) >= 1,
                    ;
                }
                return if negative { i128::MIN } else { i128::MAX };
            }
            proof {
                assert(pow2(k as nat + 1) == 2 * pow2(k as nat));
                assert(mag as nat * 2 == m as nat * pow2(k as nat + 1)) by (nonlinear_arith)
                    requires
                        mag as nat == m as nat * pow2(k as nat),
                        pow2(k as nat + 1) == 2 * pow2(k as nat),
                ;
            }
            mag = mag * 2;
            k = k + 1;
        }
        if negative {
            if mag >= 0x8000_0000_0000_0000_0000_0000_0000_0000u128 {
                i128::MIN
            } else {
                -(mag as i128)
            }
        } else if mag > 0x7fff_ffff_ffff_ffff_ffff_ffff_ffff_ffffu128 {
            i128::MAX
        } else {
            mag as i128
        }
    } else {
        let mut mag: u64 = m;
        let mut k: i32 = 0;
        proof {
            assert(m as nat / 1 == m as nat);
            assert(pow2(0) == 1);
        }
        while k < -e
            invariant
                -2000 <= e < 0,
                0 <= k <= -e,
                mag as nat == m as nat / pow2(k as nat),
            decreases -e - k,
        {
            proof {
                lemma_pow2_pos(k as nat);
                lemma_div_denominator(m as int, pow2(k as nat) as int, 2);
                assert(pow2(k as nat + 1) == pow2(k as nat) * 2);
            }
            mag = mag / 2;
            k = k + 1;
        }
        if negative {
            -(mag as i128)
        } else {
            mag as i128
        }
    }
}

pub open spec fn f64_exponent(bits: u64) -> u64 {
    (bits >> 52u64) & 0x7ffu64
}

pub open spec fn f64_fraction(bits: u64) -> u64 {
    bits & 0xf_ffff_ffff_ffffu64
}

pub open spec fn f64_negative(bits: u64) -> bool {
    bits >> 63u64 == 1
}

pub open spec fn f64_is_nan(bits: u64) -> bool {
    f64_exponent(bits) == 0x7ff && f64_fraction(bits) != 0
}

pub open spec fn f64_is_infinite(bits: u64) -> bool {
    f64_exponent(bits) == 0x7ff && f64_fraction(bits) == 0
}

/// The magnitude of a finite double, truncated toward zero.
pub open spec fn f64_truncated(bits: u64) -> nat {
    if f64_exponent(bits) == 0 {
        scaled(f64_fraction(bits) as nat, -1074)
    } else {
        scaled((f64_fraction(bits) + 0x10_0000_0000_0000) as nat, f64_exponent(bits) - 1075)
    }
}

/// Rust's `as i128` on a double: toward zero, saturating, and zero for NaN.
pub open spec fn f64_to_i128(bits: u64) -> i128 {
    if f64_is_nan(bits) {
        0
    } else if f64_is_infinite(bits) {
        if f64_negative(bits) {
            i128::MIN
        } else {
            i128::MAX
        }
    } else {
        clamp_i128(signed(f64_negative(bits), f64_truncated(bits)))
    }
}

/// Whether a double is zero of either sign.
pub open spec fn f64_is_zero(bits: u64) -> bool {
    f64_exponent(bits) == 0 && f64_fraction(bits) == 0
}

pub open spec fn f32_exponent(bits: u32) -> u32 {
    (bits >> 23u32) & 0xffu32
}

pub open spec fn f32_fraction(bits: u32) -> u32 {
    bits & 0x7f_ffffu32
}

pub open spec fn f32_negative(bits: u32) -> bool {
    bits >> 31u32 == 1
}

pub open spec fn f32_is_nan(bits: u32) -> bool {
    f32_exponent(bits) == 0xff && f32_fraction(bits) != 0
}

pub open spec fn f32_is_infinite(bits: u32) -> bool {
    f32_exponent(bits) == 0xff && f32_fraction(bits) == 0
}

/// The magnitude of a finite single, truncated toward zero.
pub open spec fn f32_truncated(bits: u32) -> nat {
    if f32_exponent(bits) == 0 {
        scaled(f32_fraction(bits) as nat, -149)
    } else {
        scaled((f32_fraction(bits) + 0x80_0000) as nat, f32_exponent(bits) - 150)
    }
}

/// Rust's `as i128` on a single: toward zero, saturating, and zero for NaN.
pub open spec fn f32_to_i128(bits: u32) -> i128 {
    if f32_is_nan(bits) {
        0
    } else if f32_is_infinite(bits) {
        if f32_negative(bits) {
            i128::MIN
        } else {
            i128::MAX
        }
    } else {
        clamp_i128(signed(f32_negative(bits), f32_truncated(bits)))
    }
}

/// Whether a single is zero of either sign.
pub open spec fn f32_is_zero(bits: u32) -> bool {
    f32_exponent(bits) == 0 && f32_fraction(bits) == 0
}

/// A double truncated to an integer, as the cast `as i128` does it.
pub fn f64_bits_to_i128(bits: u64) -> (r: i128)
    ensures
        r == f64_to_i128(bits),
{
    let exponent: u64 = (bits >> 52u64) & 0x7ffu64;
    let fraction: u64 = bits & 0xf_ffff_ffff_ffffu64;
    let negative: bool = bits >> 63u64 == 1;
    assert(exponent <= 0x7ff) by (bit_vector)
        requires
            exponent == (bits >> 52u64) & 0x7ffu64,
    ;
    assert(fraction < 0x10_0000_0000_0000) by (bit_vector)
        requires
            fraction == bits & 0xf_ffff_ffff_ffffu64,
    ;
    if exponent == 0x7ff {
        if fraction != 0 {
            0
        } else if negative {
            i128::MIN
        } else {
            i128::MAX
        }
    } else if exponent == 0 {
        scaled_to_i128(negative, fraction, -1074)
    } else {
        scaled_to_i128(negative, fraction + 0x10_0000_0000_0000, exponent as i32 - 1075)
    }
}

/// A single truncated to an integer, as the cast `as i128` does it.
pub fn f32_bits_to_i128(bits: u32) -> (r: i128)
    ensures
        r == f32_to_i128(bits),
{
    let exponent: u32 = (bits >> 23u32) & 0xffu32;
    let fraction: u32 = bits & 0x7f_ffffu32;
    let negative: bool = bits >> 31u32 == 1;
    assert(exponent <= 0xff) by (bit_vector)
        requires
            exponent == (bits >> 23u32) & 0xffu32,
    ;
    assert(fraction < 0x80_0000) by (bit_vector)
        requires
            fraction == bits & 0x7f_ffffu32,
    ;
    if exponent == 0xff {
        if fraction != 0 {
            0
        } else if negative {
            i128::MIN
        } else {
            i128::MAX
        }
    } else if exponent == 0 {
        scaled_to_i128(negative, fraction as u64, -149)
    } else {
        scaled_to_i128(negative, (fraction + 0x80_0000) as u64, exponent as i32 - 150)
    }
}

/// Whether a double equals zero (`0.0 == -0.0`).
pub fn f64_bits_is_zero(bits: u64) -> (r: bool)
    ensures
        r == f64_is_zero(bits),
{
    let r = bits & 0x7fff_ffff_ffff_ffffu64 == 0;
    assert(r == (((bits >> 52u64) & 0x7ffu64) == 0 && (bits & 0xf_ffff_ffff_ffffu64) == 0))
        by (bit_vector)
        requires
            r == (bits & 0x7fff_ffff_ffff_ffffu64 == 0),
    ;
    r
}

/// Whether a single equals zero (`0.0 == -0.0`).
pub fn f32_bits_is_zero(bits: u32) -> (r: bool)
    ensures
        r == f32_is_zero(bits),
{
    let r = bits & 0x7fff_ffffu32 == 0;
    assert(r == (((bits >> 23u32) & 0xffu32) == 0 && (bits & 0x7f_ffffu32) == 0)) by (bit_vector)
        requires
            r == (bits & 0x7fff_ffffu32 == 0),
    ;
    r
}

/// The bit pattern of the double nearest to pi.
pub const F64_PI: u64 = 0x4009_21fb_5444_2d18;

/// The bit pattern of the quiet NaN double.
pub const F64_NAN: u64 = 0x7ff8_0000_0000_0000;

/// The bit pattern of positive infinity as a double.
pub const F64_INFINITY: u64 = 0x7ff0_0000_0000_0000;

/// The bit pattern of the single nearest to pi.
pub const F32_PI: u32 = 0x4049_0fdb;

/// The bit pattern of the quiet NaN single.
pub const F32_NAN: u32 = 0x7fc0_0000;

/// The bit pattern of positive infinity as a single.
pub const F32_INFINITY: u32 = 0x7f80_0000;

} // verus!
