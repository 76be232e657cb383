//! Reduction of a range by repeated subtraction of table entries.
//!
//! Each step subtracts, from both bounds, the entry of largest index that is
//! at most the start and exceeds the width. The width therefore never
//! changes, and the start falls until no entry fits.

use crate::bignat::{table_values, BigNat};
use crate::error::Bisection;
use crate::parity::Parity;
use crate::range::{Range, RangeValue};
use vstd::prelude::*;

verus! {

/// Whether the entry at `i` can be subtracted from `range`: it is at most the
/// start and exceeds the width.
pub open spec fn fits(fibs: Seq<nat>, i: int, range: RangeValue) -> bool {
    &&& 0 <= i < fibs.len()
    &&& fibs[i] <= range.start
    &&& fibs[i] > range.end - range.start
}

/// The largest index below `bound` whose entry fits, if there is one.
pub open spec fn last_fit_below(fibs: Seq<nat>, range: RangeValue, bound: nat) -> Option<nat>
    decreases bound,
{
    if bound == 0 {
        None
    } else if fits(fibs, bound - 1, range) {
        Some((bound - 1) as nat)
    } else {
        last_fit_below(fibs, range, (bound - 1) as nat)
    }
}

/// The largest index whose entry fits, if there is one.
pub open spec fn last_fit(fibs: Seq<nat>, range: RangeValue) -> Option<nat> {
    last_fit_below(fibs, range, fibs.len())
}

/// Whether the entry after the one at `i` lies inside `range`.
pub open spec fn bisects(fibs: Seq<nat>, i: nat, range: RangeValue) -> bool {
    &&& i + 1 < fibs.len()
    &&& range.start <= fibs[i as int + 1]
    &&& fibs[i as int + 1] < range.end
}

/// The parity after subtracting the entry at `i`, where `last` is the index
/// of the entry subtracted just before: an odd gap between the two flips it,
/// and the first subtraction never does.
pub open spec fn carried_parity(parity: Parity, last: Option<nat>, i: nat) -> Parity {
    match last {
        Some(p) => if Parity::of((p - i) as nat) == Parity::Odd {
            parity.flipped()
        } else {
            parity
        },
        None => parity,
    }
}

/// The state between two steps: the range so far and the index of the entry
/// subtracted last, if any was.
pub struct Progress {
    pub range: RangeValue,
    pub last: Option<nat>,
}

impl Progress {
    /// Where a reduction of `range` starts.
    pub open spec fn initial(range: RangeValue) -> Progress {
        Progress { range, last: None }
    }

    /// The range is valid, and no entry above the one subtracted last fits.
    pub open spec fn wf(self, fibs: Seq<nat>) -> bool {
        &&& self.range.wf()
        &&& self.last matches Some(p) ==> forall|j: int| fits(fibs, j, self.range) ==> j <= p
    }
}

/// What one step does.
pub enum Step {
    /// No entry fits: the range is fully reduced.
    Finished,
    /// The entry at this index fits, but the one after it lies inside the
    /// range.
    Bisected(nat),
    /// An entry was subtracted.
    Reduced(Progress),
}

/// One step of the reduction.
pub open spec fn step(fibs: Seq<nat>, p: Progress) -> Step {
    match last_fit(fibs, p.range) {
        None => Step::Finished,
        Some(i) => if bisects(fibs, i, p.range) {
            Step::Bisected(i)
        } else {
            Step::Reduced(
                Progress {
                    range: p.range.lowered(
                        fibs[i as int],
                        carried_parity(p.range.parity, p.last, i),
                    ),
                    last: Some(i),
                },
            )
        },
    }
}

/// The state in which the reduction from `p` ends, or the index of the entry
/// chosen when the range was found bisected.
pub open spec fn reduced(fibs: Seq<nat>, p: Progress) -> Result<Progress, nat>
    decreases p.range.start,
{
    if !p.range.wf() {
        Ok(p)
    } else {
        match step(fibs, p) {
            Step::Finished => Ok(p),
            Step::Bisected(i) => Err(i),
            Step::Reduced(q) => {
                proof {
                    lemma_last_fit(fibs, p.range);
                }
                reduced(fibs, q)
            },
        }
    }
}

/// The indices of the entries subtracted on the way from `p`, in order.
pub open spec fn picks(fibs: Seq<nat>, p: Progress) -> Seq<nat>
    decreases p.range.start,
{
    if !p.range.wf() {
        Seq::empty()
    } else {
        match step(fibs, p) {
            Step::Reduced(q) => {
                proof {
                    lemma_last_fit(fibs, p.range);
                }
                seq![q.last->0] + picks(fibs, q)
            },
            _ => Seq::empty(),
        }
    }
}

/// `last_fit_below` gives an index that fits and above which, below the
/// bound, none does; it gives none only where none fits below the bound.
pub proof fn lemma_last_fit_below(fibs: Seq<nat>, range: RangeValue, bound: nat)
    ensures
        match last_fit_below(fibs, range, bound) {
            Some(i) => i < bound && fits(fibs, i as int, range) && forall|j: int|
                i < j < bound ==> !fits(fibs, j, range),
            None => forall|j: int| 0 <= j < bound ==> !fits(fibs, j, range),
        },
    decreases bound,
{
    if bound > 0 && !fits(fibs, bound - 1, range) {
        lemma_last_fit_below(fibs, range, (bound - 1) as nat);
    }
}

/// `last_fit` gives the largest index that fits, and none only where no
/// entry fits.
pub proof fn lemma_last_fit(fibs: Seq<nat>, range: RangeValue)
    ensures
        match last_fit(fibs, range) {
            Some(i) => fits(fibs, i as int, range) && forall|j: int|
                fits(fibs, j, range) ==> j <= i,
            None => forall|j: int| !fits(fibs, j, range),
        },
{
    lemma_last_fit_below(fibs, range, fibs.len());
}

/// A step from a state that is well formed leads to one that is: the range
/// stays valid and keeps its width, and its start falls.
pub proof fn lemma_step_keeps_wf(fibs: Seq<nat>, p: Progress)
    requires
        p.wf(fibs),
    ensures
        step(fibs, p) matches Step::Reduced(q) ==> {
            &&& q.wf(fibs)
            &&& q.range.width() == p.range.width()
            &&& q.range.start < p.range.start
            &&& q.last matches Some(i) && fits(fibs, i as int, p.range)
            &&& p.last matches Some(l) ==> q.last->0 <= l
        },
{
    lemma_last_fit(fibs, p.range);
    if let Step::Reduced(q) = step(fibs, p) {
        let i = q.last->0;
        assert forall|j: int| fits(fibs, j, q.range) implies j <= i by {
            assert(fits(fibs, j, p.range));
        }
    }
}

/// The parity `parity` after a gap of `gap` between two indices: an odd gap
/// flips it.
pub open spec fn flipped_by(parity: Parity, gap: nat) -> Parity {
    if Parity::of(gap) == Parity::Odd {
        parity.flipped()
    } else {
        parity
    }
}

/// Each entry is at least the one before it and at most twice that, as
/// Fibonacci numbers are.
pub open spec fn grows_gently(fibs: Seq<nat>) -> bool {
    forall|k: int| 0 < k < fibs.len() ==> fibs[k - 1] <= #[trigger] fibs[k] <= 2 * fibs[k - 1]
}

/// The table goes far enough for a range that starts at `start`: `start` is
/// below twice the last entry.
pub open spec fn reaches(fibs: Seq<nat>, start: nat) -> bool {
    fibs.len() > 0 ==> start < 2 * fibs.last()
}

/// From the third entry on, each entry is the sum of the two before it; the
/// first is positive and the second is between the first and twice the first.
pub open spec fn is_fibonacci(fibs: Seq<nat>) -> bool {
    &&& fibs.len() > 0 ==> fibs[0] > 0
    &&& fibs.len() > 1 ==> fibs[0] <= fibs[1] <= 2 * fibs[0]
    &&& forall|k: int| 2 <= k < fibs.len() ==> #[trigger] fibs[k] == fibs[k - 1] + fibs[k - 2]
}

/// The start of the range is below the entry subtracted last or, where none
/// was subtracted yet, the table reaches the range.
pub open spec fn tight(fibs: Seq<nat>, p: Progress) -> bool {
    match p.last {
        Some(l) => l < fibs.len() && p.range.start < fibs[l as int],
        None => reaches(fibs, p.range.start),
    }
}

/// A table of Fibonacci numbers grows gently.
pub proof fn fibonacci_grows_gently(fibs: Seq<nat>)
    requires
        is_fibonacci(fibs),
    ensures
        grows_gently(fibs),
{
    assert forall|k: int| 0 < k < fibs.len() implies fibs[k - 1] <= #[trigger] fibs[k] <= 2
        * fibs[k - 1] by {
        if k >= 2 {
            assert(fibs[k] == fibs[k - 1] + fibs[k - 2]);
            if k >= 3 {
                assert(fibs[k - 1] == fibs[k - 2] + fibs[k - 3]);
            }
        }
    }
}

/// Two gaps in a row flip the parity as their sum does.
pub proof fn lemma_flipped_by_sum(parity: Parity, a: nat, b: nat)
    ensures
        flipped_by(flipped_by(parity, a), b) == flipped_by(parity, a + b),
{
}

/// With a gently growing table, a step from a tight state leads to a tight
/// state, and picks an index strictly below the one picked before.
pub proof fn lemma_step_keeps_tight(fibs: Seq<nat>, p: Progress)
    requires
        p.wf(fibs),
        grows_gently(fibs),
        tight(fibs, p),
    ensures
        step(fibs, p) matches Step::Reduced(q) ==> {
            &&& tight(fibs, q)
            &&& p.last matches Some(l) ==> q.last->0 < l
        },
{
    lemma_last_fit(fibs, p.range);
    if let Step::Reduced(q) = step(fibs, p) {
        let i = q.last->0 as int;
        assert(fits(fibs, i, p.range));
        if let Some(l) = p.last {
            assert(i <= l);
        }
        if i + 1 < fibs.len() {
            assert(!fits(fibs, i + 1, p.range));
            assert(fibs[i + 1 - 1] <= fibs[i + 1] <= 2 * fibs[i + 1 - 1]);
        }
    }
}

/// What holds of the state in which a reduction ends: the range is valid, as
/// wide as before and starts no higher; no entry fits it any more; the index
/// it reports is that of the last entry subtracted; and the parity is the
/// one before, flipped where the gap between the first index and the last is
/// odd.
pub proof fn lemma_reduced(fibs: Seq<nat>, p: Progress)
    requires
        p.wf(fibs),
    ensures
        reduced(fibs, p) matches Ok(q) ==> {
            &&& q.wf(fibs)
            &&& q.range.width() == p.range.width()
            &&& q.range.start <= p.range.start
            &&& last_fit(fibs, q.range) is None
            &&& q.last == if picks(fibs, p).len() == 0 {
                p.last
            } else {
                Some(picks(fibs, p).last())
            }
            &&& q.range.parity == match p.last {
                Some(l) => flipped_by(p.range.parity, (l - q.last->0) as nat),
                None => if picks(fibs, p).len() == 0 {
                    p.range.parity
                } else {
                    flipped_by(
                        p.range.parity,
                        (picks(fibs, p).first() - picks(fibs, p).last()) as nat,
                    )
                },
            }
        },
        p.last matches Some(l) ==> (reduced(fibs, p) matches Ok(q) ==> q.last->0 <= l),
    decreases p.range.start,
{
    lemma_last_fit(fibs, p.range);
    lemma_step_keeps_wf(fibs, p);
    if let Step::Reduced(q) = step(fibs, p) {
        lemma_reduced(fibs, q);
        let i = q.last->0;
        let rest = picks(fibs, q);
        assert(picks(fibs, p) == seq![i] + rest);
        assert(picks(fibs, p).first() == i);
        if rest.len() > 0 {
            assert(picks(fibs, p).last() == rest.last());
        }
        if let Ok(end) = reduced(fibs, q) {
            let m = end.last->0;
            assert(m <= i);
            if let Some(l) = p.last {
                lemma_flipped_by_sum(p.range.parity, (l - i) as nat, (i - m) as nat);
            }
        }
    }
}

/// What holds of the indices picked on the way from a well-formed state:
/// each is an index of the table, none exceeds the one picked before the
/// state, and none exceeds its predecessor.
pub proof fn lemma_picks(fibs: Seq<nat>, p: Progress)
    requires
        p.wf(fibs),
    ensures
        forall|k: int| 0 <= k < picks(fibs, p).len() ==> #[trigger] picks(fibs, p)[k] < fibs.len(),
        p.last matches Some(l) ==> forall|k: int|
            0 <= k < picks(fibs, p).len() ==> #[trigger] picks(fibs, p)[k] <= l,
        forall|k: int|
            0 < k < picks(fibs, p).len() ==> #[trigger] picks(fibs, p)[k] <= picks(fibs, p)[k - 1],
    decreases p.range.start,
{
    lemma_last_fit(fibs, p.range);
    lemma_step_keeps_wf(fibs, p);
    if let Step::Reduced(q) = step(fibs, p) {
        lemma_picks(fibs, q);
        let i = q.last->0;
        let rest = picks(fibs, q);
        let all = picks(fibs, p);
        assert(all == seq![i] + rest);
        assert forall|k: int| 0 <= k < all.len() implies #[trigger] all[k] < fibs.len() && (
        p.last matches Some(l) ==> all[k] <= l) by {
            if k > 0 {
                assert(all[k] == rest[k - 1]);
            }
        }
        assert forall|k: int| 0 < k < all.len() implies #[trigger] all[k] <= all[k - 1] by {
            assert(all[k] == rest[k - 1]);
            if k > 1 {
                assert(all[k - 1] == rest[k - 2]);
            }
        }
    }
}

/// With a gently growing table and a tight state, each index picked is
/// strictly below its predecessor, and there are no more picks than the
/// index picked before the state allows.
pub proof fn lemma_picks_strict(fibs: Seq<nat>, p: Progress)
    requires
        p.wf(fibs),
        grows_gently(fibs),
        tight(fibs, p),
    ensures
        forall|k: int|
            0 < k < picks(fibs, p).len() ==> #[trigger] picks(fibs, p)[k] < picks(fibs, p)[k - 1],
        p.last matches Some(l) ==> forall|k: int|
            0 <= k < picks(fibs, p).len() ==> #[trigger] picks(fibs, p)[k] < l,
        picks(fibs, p).len() <= match p.last {
            Some(l) => l,
            None => fibs.len(),
        },
    decreases p.range.start,
{
    lemma_last_fit(fibs, p.range);
    lemma_step_keeps_wf(fibs, p);
    lemma_step_keeps_tight(fibs, p);
    if let Step::Reduced(q) = step(fibs, p) {
        lemma_picks_strict(fibs, q);
        let i = q.last->0;
        let rest = picks(fibs, q);
        let all = picks(fibs, p);
        assert(all == seq![i] + rest);
        assert(fits(fibs, i as int, p.range));
        assert forall|k: int| 0 <= k < all.len() implies (p.last matches Some(l) ==> #[trigger] all[k]
            < l) by {
            if k > 0 {
                assert(all[k] == rest[k - 1]);
            }
        }
        assert forall|k: int| 0 < k < all.len() implies #[trigger] all[k] < all[k - 1] by {
            assert(all[k] == rest[k - 1]);
            if k > 1 {
                assert(all[k - 1] == rest[k - 2]);
            }
        }
    }
}

/// Reduction of a valid range ends in a valid range of the same width that
/// starts no higher and that no table entry fits. This holds of every table.
pub proof fn reduction_keeps_range_valid(fibs: Seq<nat>, range: RangeValue)
    requires
        range.wf(),
    ensures
        reduced(fibs, Progress::initial(range)) matches Ok(q) ==> {
            &&& q.range.wf()
            &&& q.range.width() == range.width()
            &&& q.range.start <= range.start
            &&& last_fit(fibs, q.range) is None
        },
{
    lemma_reduced(fibs, Progress::initial(range));
}

/// The index that a reduction reports is that of the entry subtracted last,
/// and it reports none exactly where nothing was subtracted.
pub proof fn reduction_reports_last_pick(fibs: Seq<nat>, range: RangeValue)
    requires
        range.wf(),
    ensures
        reduced(fibs, Progress::initial(range)) matches Ok(q) ==> q.last == if picks(
            fibs,
            Progress::initial(range),
        ).len() == 0 {
            None
        } else {
            Some(picks(fibs, Progress::initial(range)).last())
        },
{
    lemma_reduced(fibs, Progress::initial(range));
}

/// The parity that a reduction ends with is the parity it began with,
/// flipped once for each odd gap between successive picks; the gaps add up,
/// so it is flipped exactly where the first and the last index picked differ
/// by an odd number.
pub proof fn reduction_parity_follows_gaps(fibs: Seq<nat>, range: RangeValue)
    requires
        range.wf(),
    ensures
        reduced(fibs, Progress::initial(range)) matches Ok(q) ==> q.range.parity == if picks(
            fibs,
            Progress::initial(range),
        ).len() == 0 {
            range.parity
        } else {
            flipped_by(
                range.parity,
                (picks(fibs, Progress::initial(range)).first() - picks(
                    fibs,
                    Progress::initial(range),
                ).last()) as nat,
            )
        },
{
    lemma_reduced(fibs, Progress::initial(range));
}

/// Across successive steps the index picked never rises, whatever the table
/// holds.
pub proof fn picks_never_increase(fibs: Seq<nat>, range: RangeValue, k: int)
    requires
        range.wf(),
        0 < k < picks(fibs, Progress::initial(range)).len(),
    ensures
        picks(fibs, Progress::initial(range))[k] <= picks(fibs, Progress::initial(range))[k - 1],
        picks(fibs, Progress::initial(range))[k] < fibs.len(),
{
    lemma_picks(fibs, Progress::initial(range));
}

/// With a table that grows gently and reaches the range, the index picked
/// falls strictly from each step to the next.
pub proof fn picks_strictly_decrease(fibs: Seq<nat>, range: RangeValue, k: int)
    requires
        range.wf(),
        grows_gently(fibs),
        reaches(fibs, range.start),
        0 < k < picks(fibs, Progress::initial(range)).len(),
    ensures
        picks(fibs, Progress::initial(range))[k] < picks(fibs, Progress::initial(range))[k - 1],
{
    lemma_picks_strict(fibs, Progress::initial(range));
}

/// With a table that grows gently and reaches the range, the reduction
/// takes no more steps than the table has entries.
pub proof fn reduction_takes_at_most_table_len_steps(fibs: Seq<nat>, range: RangeValue)
    requires
        range.wf(),
        grows_gently(fibs),
        reaches(fibs, range.start),
    ensures
        picks(fibs, Progress::initial(range)).len() <= fibs.len(),
{
    lemma_picks_strict(fibs, Progress::initial(range));
}

/// A step picks the same index as the step before exactly where the range
/// before that step started at twice the entry or above.
pub proof fn pick_repeats_iff_start_at_least_double(fibs: Seq<nat>, p: Progress)
    requires
        p.wf(fibs),
        step(fibs, p) is Reduced,
        last_fit(fibs, step(fibs, p)->Reduced_0.range) is Some,
    ensures
        ({
            let q = step(fibs, p)->Reduced_0;
            let i = q.last->0;
            let j = last_fit(fibs, q.range)->0;
            &&& j <= i
            &&& j == i <==> 2 * fibs[i as int] <= p.range.start
        }),
{
    lemma_last_fit(fibs, p.range);
    lemma_step_keeps_wf(fibs, p);
    let q = step(fibs, p)->Reduced_0;
    lemma_last_fit(fibs, q.range);
    let i = q.last->0;
    if 2 * fibs[i as int] <= p.range.start {
        assert(fits(fibs, i as int, q.range));
    }
}

/// What the result of one executed step denotes.
pub open spec fn step_of(r: Result<Option<(Range, usize)>, Bisection>) -> Step {
    match r {
        Ok(None) => Step::Finished,
        Ok(Some((range, i))) => Step::Reduced(Progress { range: range@, last: Some(i as nat) }),
        Err(e) => Step::Bisected(e.index as nat),
    }
}

/// What a finished reduction denotes: the final state, or the index that the
/// error reports.
pub open spec fn reduction_of(r: Result<(Range, Option<usize>), Bisection>) -> Result<
    Progress,
    nat,
> {
    match r {
        Ok((range, last)) => Ok(progress_of(&range, last)),
        Err(e) => Err(e.index as nat),
    }
}

/// The state made of a range and the index subtracted last.
pub open spec fn progress_of(range: &Range, last: Option<usize>) -> Progress {
    Progress {
        range: range@,
        last: match last {
            Some(i) => Some(i as nat),
            None => None,
        },
    }
}

/// Finds the entry of largest index that is at most the start of `range` and
/// exceeds its width.
pub fn find_fit(fibs: &Vec<BigNat>, range: &Range) -> (r: Option<usize>)
    requires
        range.wf(),
    ensures
        match r {
            Some(i) => last_fit(table_values(fibs@), range@) == Some(i as nat),
            None => last_fit(table_values(fibs@), range@) is None,
        },
{
    let width = range.width();
    let ghost table = table_values(fibs@);
    let mut i: usize = fibs.len();
    while i > 0
        invariant
            i <= fibs.len(),
            table == table_values(fibs@),
            width@ == range@.width(),
            range.wf(),
            last_fit(table, range@) == last_fit_below(table, range@, i as nat),
        decreases i,
    {
        i -= 1;
        let f = &fibs[i];
        assert(table[i as int] == f@);
        if f.le(&range.start) && width.lt(f) {
            return Some(i);
        }
    }
    None
}

/// Does one step of the reduction: subtracts from both bounds of `range` the
/// entry that fits, unless none does or the entry after it bisects the range.
/// `last` is the index of the entry subtracted in the step before.
pub fn reduce_step(range: &Range, last: Option<usize>, fibs: &Vec<BigNat>) -> (r: Result<
    Option<(Range, usize)>,
    Bisection,
>)
    requires
        progress_of(range, last).wf(table_values(fibs@)),
    ensures
        step_of(r) == step(table_values(fibs@), progress_of(range, last)),
{
    let ghost table = table_values(fibs@);
    proof {
        lemma_last_fit(table, range@);
    }
    match find_fit(fibs, range) {
        None => Ok(None),
        Some(index) => {
            assert(fits(table, index as int, range@));
            let fib = &fibs[index];
            assert(table[index as int] == fib@);
            let len = fibs.len();
            if index + 1 < len {
                let next = &fibs[index + 1];
                assert(table[index + 1] == next@);
                if range.start.le(next) && next.lt(&range.end) {
                    return Err(Bisection { index });
                }
            }
            let parity = match last {
                Some(prev) => {
                    if Parity::from_index(prev - index) == Parity::Odd {
                        range.parity.flip()
                    } else {
                        range.parity
                    }
                },
                None => range.parity,
            };
            let lowered = Range {
                start: range.start.sub(fib),
                end: range.end.sub(fib),
                parity,
            };
            Ok(Some((lowered, index)))
        },
    }
}

/// Reduces `range` as far as the table allows. Gives the reduced range and
/// the index of the entry subtracted last, which is `None` where nothing was
/// subtracted. Fails where, at some step, the entry after the chosen one
/// lies inside the range.
pub fn reduce_range(range: &Range, fibs: &Vec<BigNat>) -> (r: Result<
    (Range, Option<usize>),
    Bisection,
>)
    requires
        range.wf(),
    ensures
        reduction_of(r) == reduced(table_values(fibs@), Progress::initial(range@)),
        r matches Ok((out, _)) ==> out.wf() && out@.width() == range@.width() && out@.start
            <= range@.start,
{
    let ghost table = table_values(fibs@);
    let mut current = range.clone();
    let mut last: Option<usize> = None;
    loop
        invariant
            table == table_values(fibs@),
            progress_of(&current, last).wf(table),
            current@.width() == range@.width(),
            current@.start <= range@.start,
            reduced(table, progress_of(&current, last)) == reduced(
                table,
                Progress::initial(range@),
            ),
        decreases current@.start,
    {
        proof {
            lemma_step_keeps_wf(table, progress_of(&current, last));
        }
        match reduce_step(&current, last, fibs) {
            Err(e) => {
                return Err(e);
            },
            Ok(None) => {
                return Ok((current, last));
            },
            Ok(Some((next, index))) => {
                current = next;
                last = Some(index);
            },
        }
    }
}

} // verus!
