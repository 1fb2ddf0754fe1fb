//! Failures of numeric operations.
use vstd::prelude::*;

verus! {

/// Why a numeric operation produced no value.
#[derive(Clone, Copy, Debug, PartialEq, Eq, Structural)]
pub enum NumError {
    /// A value is not representable in the destination kind.
    ConversionOutOfRange,
    /// A divisor, or the measure of one, is zero.
    DivisionByZero,
    /// An exact result, or an intermediate step, exceeds its representation.
    Overflow,
    /// A bit width that has no representation.
    UnsupportedWidth,
}

} // verus!
