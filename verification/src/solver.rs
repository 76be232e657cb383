//! The whole decoding: reduce the range, settle the parity, choose a
//! sequence, cut the slice.

use crate::bignat::{table_values, BigNat};
use crate::error::SolveError;
use crate::extractor::{extract, extracted};
use crate::parity::Parity;
use crate::range::{Range, RangeValue};
use crate::reducer::{lemma_reduced, reduce_range, reduced, Progress};
use crate::selector::{find_sequence, first_match, lemma_first_match_from, sequence_views};
use vstd::prelude::*;

verus! {

/// The decoded slice.
#[derive(Debug)]
pub struct SolveResult {
    pub substring: String,
}

/// What a [`Solver`] holds, as plain values.
pub struct SolverValue {
    pub range: RangeValue,
    pub fibs: Seq<nat>,
    pub seqs: Seq<Seq<char>>,
    pub n: nat,
}

/// One decoding problem: the range, the table of Fibonacci numbers, the
/// table of candidate sequences and the number `n` whose parity is used
/// where the range needs no reduction.
pub struct Solver {
    range: Range,
    fibs: Vec<BigNat>,
    seqs: Vec<String>,
    n: BigNat,
}

impl View for Solver {
    type V = SolverValue;

    closed spec fn view(&self) -> SolverValue {
        SolverValue {
            range: self.range@,
            fibs: table_values(self.fibs@),
            seqs: sequence_views(self.seqs@),
            n: self.n@,
        }
    }
}

/// The index whose parity classes the sequences: the index that the
/// reduction reports or, where it reports none, 0 for an even `n` and 1 for
/// an odd one.
pub open spec fn fib_index(last: Option<nat>, n: nat) -> nat {
    match last {
        Some(i) => i,
        None => if n % 2 == 0 {
            0
        } else {
            1
        },
    }
}

/// What decoding gives: the slice, `None` where no sequence qualifies, or
/// the failure.
pub open spec fn solved(v: SolverValue) -> Result<Option<Seq<char>>, SolveError> {
    match reduced(v.fibs, Progress::initial(v.range)) {
        Err(i) => Err(SolveError::RangeBisected { index: i as usize }),
        Ok(q) => match first_match(v.seqs, Parity::of(fib_index(q.last, v.n)), q.range.end) {
            None => Ok(None),
            Some(k) => match extracted(v.seqs[k as int], k, q.range) {
                Ok(slice) => Ok(Some(slice)),
                Err(e) => Err(e),
            },
        },
    }
}

/// What the result of a decoding denotes.
pub open spec fn solution_of(r: Result<Option<SolveResult>, SolveError>) -> Result<
    Option<Seq<char>>,
    SolveError,
> {
    match r {
        Ok(Some(found)) => Ok(Some(found.substring@)),
        Ok(None) => Ok(None),
        Err(e) => Err(e),
    }
}

/// Settles the index whose parity classes the sequences.
pub fn resolve_fib_index(last: Option<usize>, n: &BigNat) -> (r: usize)
    ensures
        r == fib_index(
            match last {
                Some(i) => Some(i as nat),
                None => None,
            },
            n@,
        ),
{
    match last {
        Some(index) => index,
        None => match Parity::from_bigint(n) {
            Parity::Even => 0,
            Parity::Odd => 1,
        },
    }
}

impl Solver {
    /// Whether the problem can be decoded: the range is valid.
    pub open spec fn wf(&self) -> bool {
        self@.range.wf()
    }

    /// A problem whose `n` is a machine integer.
    pub fn new(range: Range, fibs: Vec<BigNat>, seqs: Vec<String>, n: usize) -> (r: Solver)
        ensures
            r@ == (SolverValue {
                range: range@,
                fibs: table_values(fibs@),
                seqs: sequence_views(seqs@),
                n: n as nat,
            }),
    {
        Solver { range, fibs, seqs, n: BigNat::from_usize(n) }
    }

    /// A problem whose `n` is an arbitrary-precision natural.
    pub fn new_with_biguint(range: Range, fibs: Vec<BigNat>, seqs: Vec<String>, n: &BigNat) -> (r:
        Solver)
        ensures
            r@ == (SolverValue {
                range: range@,
                fibs: table_values(fibs@),
                seqs: sequence_views(seqs@),
                n: n@,
            }),
    {
        Solver { range, fibs, seqs, n: n.duplicate() }
    }

    /// Whether the range of the problem is valid.
    pub fn is_valid(&self) -> (r: bool)
        ensures
            r == self.wf(),
    {
        self.range.is_valid()
    }

    /// Decodes: reduces the range, settles the parity, chooses the sequence
    /// and cuts the slice. Gives `Ok(None)` where no sequence qualifies, and
    /// fails where the reduction finds the range bisected. Once a sequence
    /// is chosen it covers the reduced range, so the bounds always fit an
    /// index.
    pub fn solve(self) -> (r: Result<Option<SolveResult>, SolveError>)
        requires
            self.wf(),
        ensures
            solution_of(r) == solved(self@),
            !(r matches Err(SolveError::IndexOverflow)),
    {
        let ghost views = sequence_views(self.seqs@);
        let (reduced_range, last) = match reduce_range(&self.range, &self.fibs) {
            Ok(done) => done,
            Err(e) => {
                return Err(SolveError::RangeBisected { index: e.index });
            },
        };
        let index = resolve_fib_index(last, &self.n);
        let target = Parity::from_index(index);
        let (seq, seq_index) = match find_sequence(&self.seqs, target, &reduced_range.end) {
            Some(found) => found,
            None => {
                return Ok(None);
            },
        };
        assert(views[seq_index as int] == seq@);
        match extract(seq.as_str(), seq_index, &reduced_range) {
            Ok(substring) => Ok(Some(SolveResult { substring })),
            Err(e) => Err(e),
        }
    }
}

/// Decoding never fails for want of an index where every sequence is short
/// enough to be indexed: a chosen sequence covers the reduced range.
pub proof fn solving_never_overflows(v: SolverValue)
    requires
        v.range.wf(),
        forall|k: int| 0 <= k < v.seqs.len() ==> v.seqs[k].len() <= usize::MAX,
    ensures
        solved(v) != Err::<Option<Seq<char>>, SolveError>(SolveError::IndexOverflow),
{
    lemma_reduced(v.fibs, Progress::initial(v.range));
    if let Ok(q) = reduced(v.fibs, Progress::initial(v.range)) {
        lemma_first_match_from(v.seqs, Parity::of(fib_index(q.last, v.n)), q.range.end, 0);
    }
}

} // verus!
