use numtypes::backend::Type;
use numtypes::float::{
    common_type, f32_bits_partial_cmp, f64_bits_partial_cmp, precision, precision_is_settable,
    TypeMismatch,
};
use numtypes::hardware::{
    f32_bits_is_zero, f32_bits_to_i128, f64_bits_is_zero, f64_bits_to_i128, F32_INFINITY, F32_NAN,
    F32_PI, F64_INFINITY, F64_NAN, F64_PI,
};
use numtypes::integer::Integer;
use std::cmp::Ordering;

#[test]
fn to_integer_keeps_origin_and_truncates() {
    let d = Integer::from_f64_bits(3.9f64.to_bits());
    assert!(matches!(d, Integer::F64(3)));
    let s = Integer::from_f32_bits(3.9f32.to_bits());
    assert!(matches!(s, Integer::F32(3)));
}

#[test]
fn truncation_matches_the_cast() {
    let doubles = [
        0.0f64, -0.0, 3.9, -3.9, 0.5, -0.99, 1e20, -1e20, 1.7e38, -1.7e38, 1e300, -1e300,
        f64::INFINITY, f64::NEG_INFINITY, f64::NAN, 5e-324, 4503599627370497.0,
        170141183460469231731687303715884105728.0,
    ];
    for x in doubles {
        assert_eq!(f64_bits_to_i128(x.to_bits()), x as i128, "{}", x);
    }
    let singles = [
        0.0f32, -0.0, 3.9, -3.9, 1e20, -1e20, 3.4e38, -3.4e38, f32::INFINITY,
        f32::NEG_INFINITY, f32::NAN, 1e-45, 16777217.0,
    ];
    for x in singles {
        assert_eq!(f32_bits_to_i128(x.to_bits()), x as i128, "{}", x);
    }
}

#[test]
fn special_constants_match_std() {
    assert_eq!(F64_PI, std::f64::consts::PI.to_bits());
    assert_eq!(F32_PI, std::f32::consts::PI.to_bits());
    assert_eq!(F64_INFINITY, f64::INFINITY.to_bits());
    assert_eq!(F32_INFINITY, f32::INFINITY.to_bits());
    assert!(f64::from_bits(F64_NAN).is_nan());
    assert!(f32::from_bits(F32_NAN).is_nan());
}

#[test]
fn nan_is_not_zero_nor_equal_to_zero() {
    assert!(!f64_bits_is_zero(F64_NAN));
    assert!(!f32_bits_is_zero(F32_NAN));
    assert_eq!(f64_bits_partial_cmp(F64_NAN, 0.0f64.to_bits()), None);
    assert_eq!(f32_bits_partial_cmp(F32_NAN, 0.0f32.to_bits()), None);
    assert!(f64_bits_is_zero((-0.0f64).to_bits()));
    assert!(f32_bits_is_zero(0.0f32.to_bits()));
    assert!(!f64_bits_is_zero(5e-324f64.to_bits()));
}

#[test]
fn infinity_is_greatest() {
    for x in [0.0f64, -1.0, 1e308, f64::MAX, f64::MIN] {
        assert_eq!(f64_bits_partial_cmp(F64_INFINITY, x.to_bits()), Some(Ordering::Greater));
    }
    for x in [0.0f32, -1.0, 1e38, f32::MAX, f32::MIN] {
        assert_eq!(f32_bits_partial_cmp(F32_INFINITY, x.to_bits()), Some(Ordering::Greater));
    }
}

#[test]
fn comparison_matches_std() {
    let xs = [-2.5f64, -0.0, 0.0, 1e-310, 1.0, 2.5, f64::NEG_INFINITY, f64::INFINITY, f64::NAN];
    for a in xs {
        for b in xs {
            assert_eq!(f64_bits_partial_cmp(a.to_bits(), b.to_bits()), a.partial_cmp(&b));
        }
    }
    let ys = [-2.5f32, -0.0, 0.0, 1e-40, 1.0, 2.5, f32::NEG_INFINITY, f32::INFINITY, f32::NAN];
    for a in ys {
        for b in ys {
            assert_eq!(f32_bits_partial_cmp(a.to_bits(), b.to_bits()), a.partial_cmp(&b));
        }
    }
}

#[test]
fn mixed_backends_are_an_error() {
    assert_eq!(common_type(Type::F64, Type::F64), Ok(Type::F64));
    assert_eq!(
        common_type(Type::Rug, Type::F32),
        Err(TypeMismatch { left: Type::Rug, right: Type::F32 })
    );
}

#[test]
fn hardware_precision_is_nominal() {
    assert_eq!(precision(Type::F64, 200), 64);
    assert_eq!(precision(Type::F32, 200), 32);
    assert_eq!(precision(Type::Rug, 200), 200);
    assert_eq!(precision(Type::Fastnum, 113), 113);
    assert!(!precision_is_settable(Type::F64));
    assert!(precision_is_settable(Type::Rug));
}
