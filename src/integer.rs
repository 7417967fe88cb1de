use crate::backend::Type;
use crate::bigint::BigInt;
use crate::text::{i128_to_string_radix, parse_i128, radix_text};
use vstd::prelude::*;

verus! {

/// fastnum's fixed-width signed integers, carried as opaque values.
#[verifier::external_type_specification]
#[verifier::external_body]
pub struct ExInt<const N: usize>(fastnum::bint::Int<N>);

/// Relies on the derived `Clone` of fastnum's integers, which are `Copy`.
pub assume_specification<const N: usize>[ <fastnum::bint::Int<N> as std::clone::Clone>::clone ](
    a: &fastnum::bint::Int<N>,
) -> (r: fastnum::bint::Int<N>)
    ensures
        r == *a,
;

/// Relies on `From<u32> for fastnum::I512`, which widens the value.
#[verifier::external_body]
fn i512_from_u32(v: u32) -> (r: fastnum::I512) {
    fastnum::I512::from(v)
}

/// Relies on fastnum's `Display` for its integers: the value in decimal.
#[verifier::external_body]
fn i512_to_string(a: &fastnum::I512) -> (r: String) {
    a.to_string()
}

/// Relies on `fastnum::I512::to_str_radix`, which panics outside radix 2 to 36.
#[verifier::external_body]
fn i512_to_str_radix(a: &fastnum::I512, radix: u32) -> (r: String)
    requires
        2 <= radix <= 36,
{
    a.to_str_radix(radix)
}

/// The answer of the arbitrary-precision backend's probabilistic primality test.
#[derive(Clone, Copy, Debug, PartialEq, Eq, Structural)]
pub enum PrimeVerdict {
    No,
    Probably,
    Yes,
}

/// An integer backed by one of four representations. The two `i128` variants
/// share a payload and differ only in which float backend they came from.
#[derive(Clone, Debug)]
pub enum Integer {
    Rug(BigInt),
    Fastnum(fastnum::I512),
    F64(i128),
    F32(i128),
}

impl Integer {
    pub open spec fn spec_itype(&self) -> Type {
        match self {
            Integer::Rug(_) => Type::Rug,
            Integer::Fastnum(_) => Type::Fastnum,
            Integer::F64(_) => Type::F64,
            Integer::F32(_) => Type::F32,
        }
    }

    /// The value, where the payload is one that contracts can read.
    pub open spec fn known_value(&self) -> Option<int> {
        match self {
            Integer::Rug(a) => Some(a@),
            Integer::Fastnum(_) => None,
            Integer::F64(a) => Some(*a as int),
            Integer::F32(a) => Some(*a as int),
        }
    }

    /// Which backend this integer belongs to.
    #[verifier::when_used_as_spec(spec_itype)]
    pub fn itype(&self) -> (r: Type)
        ensures
            r == self.spec_itype(),
    {
        match self {
            Integer::Rug(_) => Type::Rug,
            Integer::Fastnum(_) => Type::Fastnum,
            Integer::F64(_) => Type::F64,
            Integer::F32(_) => Type::F32,
        }
    }

    /// Zero in the backend `obj`.
    pub fn new(obj: Type) -> (r: Self)
        ensures
            r.itype() == obj,
            obj != Type::Fastnum ==> r.known_value() == Some(0int),
    {
        match obj {
            Type::Rug => Integer::Rug(BigInt::zero()),
            Type::Fastnum => Integer::Fastnum(i512_from_u32(0)),
            Type::F64 => Integer::F64(0),
            Type::F32 => Integer::F32(0),
        }
    }

    /// `val` in the backend `obj`.
    pub fn from(obj: Type, val: u32) -> (r: Self)
        ensures
            r.itype() == obj,
            obj != Type::Fastnum ==> r.known_value() == Some(val as int),
    {
        match obj {
            Type::Rug => Integer::Rug(BigInt::from_u32(val)),
            Type::Fastnum => Integer::Fastnum(i512_from_u32(val)),
            Type::F64 => Integer::F64(val as i128),
            Type::F32 => Integer::F32(val as i128),
        }
    }

    /// Primality as the arbitrary-precision backend reports it: `verdict` is that
    /// backend's answer for this value. Every other backend answers false.
    pub fn is_probably_prime(&self, verdict: PrimeVerdict) -> (r: bool)
        ensures
            r == (self is Rug && verdict != PrimeVerdict::No),
            !(self is Rug) ==> !r,
    {
        match self {
            Integer::Rug(_) => verdict != PrimeVerdict::No,
            _ => false,
        }
    }

    /// The value as an `i128`, or zero where it cannot be had as one.
    pub fn to_i128(self) -> (r: i128)
        ensures
            self matches Integer::Rug(a) ==> r == (if i128::MIN <= a@ <= i128::MAX {
                a@ as i128
            } else {
                0
            }),
            self matches Integer::F64(a) ==> r == a,
            self matches Integer::F32(a) ==> r == a,
    {
        match self {
            Integer::Rug(a) => match a.to_i128() {
                Some(v) => v,
                None => 0,
            },
            Integer::Fastnum(a) => match parse_i128(i512_to_string(&a).as_str()) {
                Some(v) => v,
                None => 0,
            },
            Integer::F64(a) => a,
            Integer::F32(a) => a,
        }
    }

    /// The value written in base `base`; the `i128` backends always write base 10.
    pub fn to_string_radix(self, base: i32) -> (r: String)
        requires
            (self is Rug || self is Fastnum) ==> 2 <= base <= 36,
        ensures
            self matches Integer::Rug(a) ==> r@ == radix_text(a@, base as nat),
            self matches Integer::F64(a) ==> r@ == radix_text(a as int, 10),
            self matches Integer::F32(a) ==> r@ == radix_text(a as int, 10),
    {
        match self {
            Integer::Rug(a) => a.to_string_radix(base as u32),
            Integer::Fastnum(a) => i512_to_str_radix(&a, base as u32),
            Integer::F64(a) => i128_to_string_radix(a, 10),
            Integer::F32(a) => i128_to_string_radix(a, 10),
        }
    }

    /// The next prime for the arbitrary-precision backend, where `successor` is the
    /// prime that backend found; every other backend keeps the value unchanged.
    pub fn next_prime(self, successor: BigInt) -> (r: Self)
        ensures
            r.itype() == self.itype(),
            self is Rug ==> r == Integer::Rug(successor),
            !(self is Rug) ==> r == self,
    {
        match self {
            Integer::Rug(_) => Integer::Rug(successor),
            other => other,
        }
    }
}

} // verus!
