use numtypes::backend::Type;
use numtypes::bigint::BigInt;
use numtypes::integer::{Integer, PrimeVerdict};
use numtypes::text::{i128_to_string_radix, parse_i128};

#[test]
fn new_is_zero_in_every_backend() {
    for t in [Type::Rug, Type::Fastnum, Type::F64, Type::F32] {
        let z = Integer::new(t);
        assert_eq!(z.itype(), t);
        assert_eq!(z.to_i128(), 0);
    }
}

#[test]
fn from_keeps_value_and_backend() {
    for t in [Type::Rug, Type::Fastnum, Type::F64, Type::F32] {
        let v = Integer::from(t, 4_000_000_000);
        assert_eq!(v.itype(), t);
        assert_eq!(v.to_i128(), 4_000_000_000);
    }
}

#[test]
fn double_and_single_origins_stay_apart() {
    let a = Integer::from(Type::F64, 7);
    let b = Integer::from(Type::F32, 7);
    assert_eq!(a.itype(), Type::F64);
    assert_eq!(b.itype(), Type::F32);
    assert!(matches!(a, Integer::F64(7)));
    assert!(matches!(b, Integer::F32(7)));
}

#[test]
fn primality_only_on_arbitrary_precision() {
    let seven = Integer::from(Type::Rug, 7);
    assert!(seven.is_probably_prime(PrimeVerdict::Yes));
    assert!(seven.is_probably_prime(PrimeVerdict::Probably));
    let nine = Integer::from(Type::Rug, 9);
    assert!(!nine.is_probably_prime(PrimeVerdict::No));
    for t in [Type::Fastnum, Type::F64, Type::F32] {
        let v = Integer::from(t, 7);
        assert!(!v.is_probably_prime(PrimeVerdict::Yes));
    }
}

#[test]
fn next_prime_keeps_other_backends() {
    let v = Integer::from(Type::F64, 8).next_prime(BigInt::from_u32(11));
    assert_eq!(v.to_i128(), 8);
    let w = Integer::from(Type::F32, 8).next_prime(BigInt::from_u32(11));
    assert_eq!(w.to_i128(), 8);
    let r = Integer::from(Type::Rug, 8).next_prime(BigInt::from_u32(11));
    assert_eq!(r.to_i128(), 11);
}

#[test]
fn to_i128_falls_back_to_zero() {
    // 2^127, one past i128::MAX
    let big = Integer::Rug(BigInt::from_limbs(false, vec![0x8000_0000, 0, 0, 0]));
    assert_eq!(big.to_i128(), 0);
    let min = Integer::Rug(BigInt::from_limbs(true, vec![0x8000_0000, 0, 0, 0]));
    assert_eq!(min.to_i128(), i128::MIN);
    let huge = Integer::Rug(BigInt::from_limbs(true, vec![1, 0, 0, 0, 0]));
    assert_eq!(huge.to_i128(), 0);
    let two_limbs = Integer::Rug(BigInt::from_limbs(true, vec![1, 2]));
    assert_eq!(two_limbs.to_i128(), -4_294_967_298);
}

#[test]
fn radix_text_of_each_backend() {
    assert_eq!(Integer::from(Type::Rug, 255).to_string_radix(16), "ff");
    assert_eq!(Integer::from(Type::Rug, 255).to_string_radix(2), "11111111");
    assert_eq!(Integer::from(Type::Fastnum, 255).to_string_radix(16), "ff");
    assert_eq!(Integer::from(Type::F64, 255).to_string_radix(16), "255");
    assert_eq!(Integer::from(Type::F32, 255).to_string_radix(2), "255");
    assert_eq!(Integer::new(Type::Rug).to_string_radix(10), "0");
    let neg = Integer::Rug(BigInt::from_limbs(true, vec![1, 0]));
    assert_eq!(neg.clone().to_string_radix(10), "-4294967296");
    assert_eq!(neg.to_string_radix(36), "-1z141z4");
    let negzero = Integer::Rug(BigInt::from_limbs(true, vec![0, 0]));
    assert_eq!(negzero.to_string_radix(10), "0");
}

#[test]
fn i128_text_both_ways() {
    assert_eq!(i128_to_string_radix(i128::MIN, 10), i128::MIN.to_string());
    assert_eq!(i128_to_string_radix(i128::MAX, 16), "7fffffffffffffffffffffffffffffff");
    assert_eq!(i128_to_string_radix(-35, 36), "-z");
    assert_eq!(parse_i128("170141183460469231731687303715884105727"), Some(i128::MAX));
    assert_eq!(parse_i128("-170141183460469231731687303715884105728"), Some(i128::MIN));
    assert_eq!(parse_i128("170141183460469231731687303715884105728"), None);
    assert_eq!(parse_i128("+42"), Some(42));
    assert_eq!(parse_i128("-"), None);
    assert_eq!(parse_i128(""), None);
    assert_eq!(parse_i128("12a"), None);
    assert_eq!(parse_i128("99999999999999999999999999999999999999999x"), None);
    assert_eq!(parse_i128("007"), Some(7));
}

#[test]
fn fastnum_to_i128_reads_its_text() {
    let v = Integer::from(Type::Fastnum, 123_456);
    assert_eq!(v.to_i128(), 123_456);
}

#[test]
fn decimal_text_reads_back() {
    for v in [0i128, 1, -1, 9, 10, -10, 1234567890123, i128::MAX, i128::MIN] {
        assert_eq!(parse_i128(&i128_to_string_radix(v, 10)), Some(v));
    }
}
