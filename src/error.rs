use vstd::prelude::*;

verus! {

/// Why an operation on a bit vector was refused.
#[derive(Clone, Copy, Debug, PartialEq, Eq, Structural)]
pub enum BvError {
    /// A length of zero, or one beyond the width of the backing type.
    InvalidLength,
    /// A bit offset at or beyond the logical length.
    OutOfRange,
    /// A division or remainder whose divisor is zero.
    DivisionFault,
}

} // verus!
