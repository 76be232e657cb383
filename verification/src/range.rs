//! Half-open ranges of naturals that carry a parity.

use crate::bignat::BigNat;
use crate::parity::Parity;
use vstd::prelude::*;

verus! {

/// What a [`Range`] denotes: the bounds as numbers, and the carried parity.
pub struct RangeValue {
    pub start: nat,
    pub end: nat,
    pub parity: Parity,
}

impl RangeValue {
    /// A valid range holds at least one number.
    pub open spec fn wf(self) -> bool {
        self.start < self.end
    }

    /// How many numbers the range holds.
    pub open spec fn width(self) -> nat {
        (self.end - self.start) as nat
    }

    /// The range moved down by `by`, with the parity `parity`.
    pub open spec fn lowered(self, by: nat, parity: Parity) -> RangeValue {
        RangeValue {
            start: (self.start - by) as nat,
            end: (self.end - by) as nat,
            parity,
        }
    }
}

/// The numbers from `start` up to, not including, `end`, with a parity that
/// is carried along and not derived from the bounds.
#[derive(Debug)]
pub struct Range {
    pub start: BigNat,
    pub end: BigNat,
    pub parity: Parity,
}

impl View for Range {
    type V = RangeValue;

    open spec fn view(&self) -> RangeValue {
        RangeValue { start: self.start@, end: self.end@, parity: self.parity }
    }
}

impl Range {
    /// A valid range has its start below its end.
    pub open spec fn wf(&self) -> bool {
        self@.wf()
    }

    /// Whether the start lies below the end.
    pub fn is_valid(&self) -> (r: bool)
        ensures
            r == self.wf(),
    {
        self.start.lt(&self.end)
    }

    /// How many numbers the range holds.
    pub fn width(&self) -> (r: BigNat)
        requires
            self.wf(),
        ensures
            r@ == self@.width(),
    {
        self.end.sub(&self.start)
    }
}

impl Clone for Range {
    fn clone(&self) -> (r: Range)
        ensures
            r@ == self@,
    {
        Range { start: self.start.duplicate(), end: self.end.duplicate(), parity: self.parity }
    }
}

} // verus!
