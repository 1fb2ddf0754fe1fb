//! Numeric units: checked integer arithmetic over a capability hierarchy, bit and byte
//! reinterpretation, casts between widths, Gaussian-integer complex numbers, fixed-point
//! reals, and a small typed value system for computation graphs.
use vstd::prelude::*;

pub mod bytes;
pub mod cast;
pub mod complex;
pub mod errors;
pub mod fixed;
pub mod flux;
pub mod integers;
pub mod laws;
pub mod roots;
pub mod units;

verus! {

/// Sum of two unsigned integers; the caller keeps the sum within `u64`.
pub fn add(left: u64, right: u64) -> (r: u64)
    requires
        left + right <= u64::MAX,
    ensures
        r == left + right,
{
    left + right
}

} // verus!
