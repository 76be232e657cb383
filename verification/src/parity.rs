//! The two-valued tag that the reduction carries.

use crate::bignat::BigNat;
use vstd::prelude::*;

verus! {

/// Even or odd.
#[derive(Debug, Clone, Copy, PartialEq, Eq, Structural)]
pub enum Parity {
    Even,
    Odd,
}

impl Parity {
    /// The other parity.
    pub open spec fn flipped(self) -> Parity {
        match self {
            Parity::Even => Parity::Odd,
            Parity::Odd => Parity::Even,
        }
    }

    /// The parity of the number `n`.
    pub open spec fn of(n: nat) -> Parity {
        if n % 2 == 0 {
            Parity::Even
        } else {
            Parity::Odd
        }
    }

    /// The other parity.
    pub fn flip(self) -> (r: Parity)
        ensures
            r == self.flipped(),
    {
        match self {
            Parity::Even => Parity::Odd,
            Parity::Odd => Parity::Even,
        }
    }

    /// The parity of an index.
    pub fn from_index(i: usize) -> (r: Parity)
        ensures
            r == Parity::of(i as nat),
    {
        if i % 2 == 0 {
            Parity::Even
        } else {
            Parity::Odd
        }
    }

    /// The parity of an arbitrary-precision natural.
    pub fn from_bigint(n: &BigNat) -> (r: Parity)
        ensures
            r == Parity::of(n@),
    {
        let two = BigNat::from_usize(2);
        if n.rem(&two).is_zero() {
            Parity::Even
        } else {
            Parity::Odd
        }
    }
}

impl From<usize> for Parity {
    fn from(n: usize) -> (r: Parity) {
        Parity::from_index(n)
    }
}

impl vstd::std_specs::convert::FromSpecImpl<usize> for Parity {
    open spec fn obeys_from_spec() -> bool {
        true
    }

    open spec fn from_spec(n: usize) -> Parity {
        Parity::of(n as nat)
    }
}

impl<'a> From<&'a BigNat> for Parity {
    fn from(n: &'a BigNat) -> (r: Parity) {
        Parity::from_bigint(n)
    }
}

impl<'a> vstd::std_specs::convert::FromSpecImpl<&'a BigNat> for Parity {
    open spec fn obeys_from_spec() -> bool {
        true
    }

    open spec fn from_spec(n: &'a BigNat) -> Parity {
        Parity::of(n@)
    }
}

/// Flipping twice gives the parity back.
pub proof fn flip_is_involution(p: Parity)
    ensures
        p.flipped().flipped() == p,
{
}

/// Flipping always changes the parity.
pub proof fn flip_changes_parity(p: Parity)
    ensures
        p.flipped() != p,
{
}

} // verus!
