//! The ways in which decoding fails for good.

use vstd::prelude::*;

verus! {

/// The range straddles a Fibonacci boundary: the table entry after the one
/// chosen for subtraction lies inside it. `index` is the index of the chosen
/// entry.
#[derive(Debug, Clone, Copy, PartialEq, Eq, Structural)]
pub struct Bisection {
    pub index: usize,
}

/// A failure that ends decoding.
#[derive(Debug, Clone, Copy, PartialEq, Eq, Structural)]
pub enum SolveError {
    /// The table entry after the one chosen for subtraction lies inside the
    /// range, so the range straddles a Fibonacci boundary. `index` is the
    /// index of the chosen entry.
    RangeBisected { index: usize },
    /// A bound of the reduced range is too large to index a sequence.
    IndexOverflow,
}

} // verus!
