use vstd::prelude::*;

verus! {

/// Which numeric representation backs a value. Fixed when the value is made.
#[derive(Clone, Copy, Debug, PartialEq, Eq, Structural)]
pub enum Type {
    /// Arbitrary-precision binary floating point.
    Rug,
    /// Arbitrary-precision decimal.
    Fastnum,
    /// Hardware double.
    F64,
    /// Hardware single.
    F32,
}

} // verus!
