//! Helpers shared by the operations.
use vstd::prelude::*;

verus! {

/// The smaller of two lengths.
pub fn min(a: usize, b: usize) -> (r: usize)
    ensures
        r == if a <= b { a } else { b },
{
    if a >= b {
        b
    } else {
        a
    }
}

} // verus!
