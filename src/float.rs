//! Rules shared by every float backend: precision bookkeeping, matching of
//! operand backends, and the ordering and conversions of the hardware backends.
use crate::backend::Type;
use crate::hardware::{
    f32_bits_to_i128, f32_is_infinite, f32_is_nan, f32_is_zero, f32_negative, f32_to_i128,
    f64_bits_to_i128, f64_is_infinite, f64_is_nan, f64_is_zero, f64_negative, f64_to_i128,
    F32_INFINITY, F32_NAN, F64_INFINITY, F64_NAN,
};
use crate::integer::Integer;
use vstd::prelude::*;

verus! {

/// Two operands of a binary operation carry different backends.
#[derive(Clone, Copy, Debug, PartialEq, Eq, Structural)]
pub struct TypeMismatch {
    pub left: Type,
    pub right: Type,
}

/// The backend that a binary operation on operands of backends `left` and `right`
/// runs in: both must be the same.
pub fn common_type(left: Type, right: Type) -> (r: Result<Type, TypeMismatch>)
    ensures
        left == right ==> r == Ok::<Type, TypeMismatch>(left),
        left != right ==> r == Err::<Type, TypeMismatch>(TypeMismatch { left, right }),
{
    if left == right {
        Ok(left)
    } else {
        Err(TypeMismatch { left, right })
    }
}

pub open spec fn nominal_precision(t: Type, arbitrary: u32) -> u32 {
    match t {
        Type::Rug | Type::Fastnum => arbitrary,
        Type::F64 => 64,
        Type::F32 => 32,
    }
}

/// The precision a value of backend `t` reports, where `arbitrary` is the precision
/// an arbitrary-precision payload holds; hardware backends report their width.
pub fn precision(t: Type, arbitrary: u32) -> (r: u32)
    ensures
        r == nominal_precision(t, arbitrary),
{
    match t {
        Type::Rug | Type::Fastnum => arbitrary,
        Type::F64 => 64,
        Type::F32 => 32,
    }
}

/// Whether setting the precision of a value of backend `t` has any effect.
pub fn precision_is_settable(t: Type) -> (r: bool)
    ensures
        r == (t == Type::Rug || t == Type::Fastnum),
{
    match t {
        Type::Rug | Type::Fastnum => true,
        _ => false,
    }
}

/// The order key of a double that is not NaN: larger values have larger keys, and
/// both zeros share one.
pub open spec fn f64_key(bits: u64) -> int {
    if f64_negative(bits) {
        -((bits & 0x7fff_ffff_ffff_ffffu64) as int)
    } else {
        (bits & 0x7fff_ffff_ffff_ffffu64) as int
    }
}

pub open spec fn f32_key(bits: u32) -> int {
    if f32_negative(bits) {
        -((bits & 0x7fff_ffffu32) as int)
    } else {
        (bits & 0x7fff_ffffu32) as int
    }
}

pub open spec fn key_order(a: int, b: int) -> std::cmp::Ordering {
    if a < b {
        std::cmp::Ordering::Less
    } else if a == b {
        std::cmp::Ordering::Equal
    } else {
        std::cmp::Ordering::Greater
    }
}

/// IEEE-754 comparison of two doubles: `None` where either is NaN.
pub fn f64_bits_partial_cmp(a: u64, b: u64) -> (r: Option<std::cmp::Ordering>)
    ensures
        r == (if f64_is_nan(a) || f64_is_nan(b) {
            None
        } else {
            Some(key_order(f64_key(a), f64_key(b)))
        }),
{
    if f64_bits_is_nan(a) || f64_bits_is_nan(b) {
        return None;
    }
    let ma: u64 = a & 0x7fff_ffff_ffff_ffffu64;
    let mb: u64 = b & 0x7fff_ffff_ffff_ffffu64;
    let ka: i128 = if a >> 63u64 == 1 { -(ma as i128) } else { ma as i128 };
    let kb: i128 = if b >> 63u64 == 1 { -(mb as i128) } else { mb as i128 };
    if ka < kb {
        Some(std::cmp::Ordering::Less)
    } else if ka == kb {
        Some(std::cmp::Ordering::Equal)
    } else {
        Some(std::cmp::Ordering::Greater)
    }
}

/// IEEE-754 comparison of two singles: `None` where either is NaN.
pub fn f32_bits_partial_cmp(a: u32, b: u32) -> (r: Option<std::cmp::Ordering>)
    ensures
        r == (if f32_is_nan(a) || f32_is_nan(b) {
            None
        } else {
            Some(key_order(f32_key(a), f32_key(b)))
        }),
{
    if f32_bits_is_nan(a) || f32_bits_is_nan(b) {
        return None;
    }
    let ma: u32 = a & 0x7fff_ffffu32;
    let mb: u32 = b & 0x7fff_ffffu32;
    let ka: i64 = if a >> 31u32 == 1 { -(ma as i64) } else { ma as i64 };
    let kb: i64 = if b >> 31u32 == 1 { -(mb as i64) } else { mb as i64 };
    if ka < kb {
        Some(std::cmp::Ordering::Less)
    } else if ka == kb {
        Some(std::cmp::Ordering::Equal)
    } else {
        Some(std::cmp::Ordering::Greater)
    }
}

pub fn f64_bits_is_nan(bits: u64) -> (r: bool)
    ensures
        r == f64_is_nan(bits),
{
    (bits >> 52u64) & 0x7ffu64 == 0x7ff && bits & 0xf_ffff_ffff_ffffu64 != 0
}

pub fn f32_bits_is_nan(bits: u32) -> (r: bool)
    ensures
        r == f32_is_nan(bits),
{
    (bits >> 23u32) & 0xffu32 == 0xff && bits & 0x7f_ffffu32 != 0
}

impl Integer {
    /// The integer that a double-backed float truncates to, tagged as coming from a double.
    pub fn from_f64_bits(bits: u64) -> (r: Integer)
        ensures
            r == Integer::F64(f64_to_i128(bits)),
    {
        Integer::F64(f64_bits_to_i128(bits))
    }

    /// The integer that a single-backed float truncates to, tagged as coming from a single.
    pub fn from_f32_bits(bits: u32) -> (r: Integer)
        ensures
            r == Integer::F32(f32_to_i128(bits)),
    {
        Integer::F32(f32_bits_to_i128(bits))
    }
}

/// The hardware NaN constants are not zero, and being NaN they compare unordered
/// with every value, zero included.
pub proof fn lemma_nan_is_not_zero()
    ensures
        f64_is_nan(F64_NAN),
        !f64_is_zero(F64_NAN),
        f32_is_nan(F32_NAN),
        !f32_is_zero(F32_NAN),
{
    assert(f64_is_nan(0x7ff8_0000_0000_0000u64) && !f64_is_zero(0x7ff8_0000_0000_0000u64))
        by (bit_vector);
    assert(f32_is_nan(0x7fc0_0000u32) && !f32_is_zero(0x7fc0_0000u32)) by (bit_vector);
}

/// Positive infinity is greater than every double that is neither NaN nor infinite.
pub proof fn lemma_f64_infinity_greatest(x: u64)
    requires
        !f64_is_nan(x),
        !f64_is_infinite(x),
    ensures
        !f64_is_nan(F64_INFINITY),
        key_order(f64_key(F64_INFINITY), f64_key(x)) == std::cmp::Ordering::Greater,
{
    assert(!f64_is_nan(0x7ff0_0000_0000_0000u64)) by (bit_vector);
    assert(!f64_negative(0x7ff0_0000_0000_0000u64)) by (bit_vector);
    assert((0x7ff0_0000_0000_0000u64 & 0x7fff_ffff_ffff_ffffu64) == 0x7ff0_0000_0000_0000u64)
        by (bit_vector);
    assert((x & 0x7fff_ffff_ffff_ffffu64) < 0x7ff0_0000_0000_0000u64) by (bit_vector)
        requires
            !(((x >> 52u64) & 0x7ffu64) == 0x7ff && (x & 0xf_ffff_ffff_ffffu64) != 0),
            !(((x >> 52u64) & 0x7ffu64) == 0x7ff && (x & 0xf_ffff_ffff_ffffu64) == 0),
    ;
}

/// Positive infinity is greater than every single that is neither NaN nor infinite.
pub proof fn lemma_f32_infinity_greatest(x: u32)
    requires
        !f32_is_nan(x),
        !f32_is_infinite(x),
    ensures
        !f32_is_nan(F32_INFINITY),
        key_order(f32_key(F32_INFINITY), f32_key(x)) == std::cmp::Ordering::Greater,
{
    assert(!f32_is_nan(0x7f80_0000u32)) by (bit_vector);
    assert(!f32_negative(0x7f80_0000u32)) by (bit_vector);
    assert((0x7f80_0000u32 & 0x7fff_ffffu32) == 0x7f80_0000u32) by (bit_vector);
    assert((x & 0x7fff_ffffu32) < 0x7f80_0000u32) by (bit_vector)
        requires
            !(((x >> 23u32) & 0xffu32) == 0xff && (x & 0x7f_ffffu32) != 0),
            !(((x >> 23u32) & 0xffu32) == 0xff && (x & 0x7f_ffffu32) == 0),
    ;
}

} // verus!
