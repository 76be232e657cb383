//! Cutting the slice out of the chosen sequence.

use crate::bases::{flip_bases, flipped_bases};
use crate::error::SolveError;
use crate::parity::Parity;
use crate::range::{Range, RangeValue};
use vstd::prelude::*;
use vstd::string::StrSliceExecFns;

verus! {

/// The symbols of `seq` from `range.start` up to `range.end`, with the bases
/// substituted where the parity of the range is that of the index of the
/// sequence; or the failure, where a bound is too large for an index.
pub open spec fn extracted(seq: Seq<char>, seq_index: nat, range: RangeValue) -> Result<
    Seq<char>,
    SolveError,
> {
    if range.start > usize::MAX || range.end > usize::MAX {
        Err(SolveError::IndexOverflow)
    } else {
        let slice = seq.subrange(range.start as int, range.end as int);
        if range.parity == Parity::of(seq_index) {
            Ok(flipped_bases(slice))
        } else {
            Ok(slice)
        }
    }
}

/// What the result of an extraction denotes.
pub open spec fn extraction_of(r: Result<String, SolveError>) -> Result<Seq<char>, SolveError> {
    match r {
        Ok(s) => Ok(s@),
        Err(e) => Err(e),
    }
}

/// Cuts the slice `[start, end)` of the range out of `seq` and substitutes
/// its bases where the parity of the range equals that of `seq_index`.
/// Fails where a bound of the range does not fit an index. A range that
/// fits must lie within the sequence.
pub fn extract(seq: &str, seq_index: usize, range: &Range) -> (r: Result<String, SolveError>)
    requires
        range.wf(),
        range@.end <= usize::MAX ==> range@.end <= seq@.len(),
    ensures
        extraction_of(r) == extracted(seq@, seq_index as nat, range@),
{
    let start = match range.start.to_usize() {
        Some(i) => i,
        None => {
            return Err(SolveError::IndexOverflow);
        },
    };
    let end = match range.end.to_usize() {
        Some(i) => i,
        None => {
            return Err(SolveError::IndexOverflow);
        },
    };
    let slice = seq.substring_char(start, end);
    if range.parity == Parity::from_index(seq_index) {
        Ok(flip_bases(slice))
    } else {
        Ok(slice.to_owned())
    }
}

} // verus!
