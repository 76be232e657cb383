//! Decoding of a very large integer range onto a slice of a source sequence.
//!
//! A range `[start, end)` of arbitrary-precision naturals is reduced by
//! repeated subtraction of entries of a Fibonacci table, in the manner of a
//! Zeckendorf decomposition. A parity tag carried through the reduction
//! selects one of the candidate sequences and decides whether the slice cut
//! from it has its bases substituted.

pub mod bases;
pub mod bignat;
pub mod error;
pub mod extractor;
pub mod parity;
pub mod range;
pub mod reducer;
pub mod selector;
pub mod solver;
pub mod tables;

pub use bases::flip_bases;
pub use bignat::BigNat;
pub use error::{Bisection, SolveError};
pub use extractor::extract;
pub use parity::Parity;
pub use range::Range;
pub use reducer::{find_fit, reduce_range, reduce_step};
pub use selector::find_sequence;
pub use solver::{resolve_fib_index, SolveResult, Solver};
pub use tables::{parse_fibs, parse_seqs, split_lines};
