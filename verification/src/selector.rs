//! Choice of the candidate sequence.
//!
//! A sequence is classed by the parity of its index in the table, not by what
//! it holds. The first one of the wanted parity that is long enough is taken.

use crate::bignat::BigNat;
use crate::parity::Parity;
use vstd::prelude::*;

verus! {

/// The symbols of each sequence of a table, in order.
pub open spec fn sequence_views(seqs: Seq<String>) -> Seq<Seq<char>> {
    Seq::new(seqs.len(), |i: int| seqs[i]@)
}

/// Whether the sequence at `k` has the parity `target` and at least
/// `min_len` symbols.
pub open spec fn qualifies(seqs: Seq<Seq<char>>, k: int, target: Parity, min_len: nat) -> bool {
    &&& 0 <= k < seqs.len()
    &&& Parity::of(k as nat) == target
    &&& seqs[k].len() >= min_len
}

/// The lowest index from `from` on whose sequence qualifies, if there is one.
pub open spec fn first_match_from(
    seqs: Seq<Seq<char>>,
    target: Parity,
    min_len: nat,
    from: nat,
) -> Option<nat>
    decreases seqs.len() - from,
{
    if from >= seqs.len() {
        None
    } else if qualifies(seqs, from as int, target, min_len) {
        Some(from)
    } else {
        first_match_from(seqs, target, min_len, from + 1)
    }
}

/// The lowest index whose sequence qualifies, if there is one.
pub open spec fn first_match(seqs: Seq<Seq<char>>, target: Parity, min_len: nat) -> Option<nat> {
    first_match_from(seqs, target, min_len, 0)
}

/// `first_match_from` gives an index that qualifies and before which, from
/// `from` on, none does; it gives none only where none qualifies from there.
pub proof fn lemma_first_match_from(
    seqs: Seq<Seq<char>>,
    target: Parity,
    min_len: nat,
    from: nat,
)
    ensures
        match first_match_from(seqs, target, min_len, from) {
            Some(k) => from <= k && qualifies(seqs, k as int, target, min_len) && forall|j: int|
                from <= j < k ==> !qualifies(seqs, j, target, min_len),
            None => forall|j: int| from <= j ==> !qualifies(seqs, j, target, min_len),
        },
    decreases seqs.len() - from,
{
    if from < seqs.len() && !qualifies(seqs, from as int, target, min_len) {
        lemma_first_match_from(seqs, target, min_len, from + 1);
    }
}

/// The choice is the lowest index that qualifies, so it is settled by the
/// table, the parity and the length alone: whatever index qualifies with
/// none qualifying before it is the one chosen, and none is chosen exactly
/// where no sequence qualifies.
pub proof fn first_match_is_determined(
    seqs: Seq<Seq<char>>,
    target: Parity,
    min_len: nat,
    k: int,
)
    ensures
        (qualifies(seqs, k, target, min_len) && forall|j: int|
            0 <= j < k ==> !qualifies(seqs, j, target, min_len)) <==> first_match(
            seqs,
            target,
            min_len,
        ) == Some(k as nat) && k >= 0,
        first_match(seqs, target, min_len) is None <==> forall|j: int|
            !qualifies(seqs, j, target, min_len),
{
    lemma_first_match_from(seqs, target, min_len, 0);
    if let Some(m) = first_match(seqs, target, min_len) {
        assert(qualifies(seqs, m as int, target, min_len));
    }
}

/// Finds the first sequence whose index has the parity `target` and which
/// has at least `min_len` symbols. Gives a copy of it with its index, or
/// `None` where no sequence qualifies.
pub fn find_sequence(seqs: &Vec<String>, target: Parity, min_len: &BigNat) -> (r: Option<
    (String, usize),
>)
    ensures
        match r {
            Some((seq, k)) => first_match(sequence_views(seqs@), target, min_len@) == Some(
                k as nat,
            ) && k < seqs.len() && seq@ == seqs[k as int]@ && min_len@ <= seq@.len()
                <= usize::MAX,
            None => first_match(sequence_views(seqs@), target, min_len@) is None,
        },
{
    let ghost views = sequence_views(seqs@);
    let mut k: usize = 0;
    while k < seqs.len()
        invariant
            k <= seqs.len(),
            views == sequence_views(seqs@),
            first_match(views, target, min_len@) == first_match_from(
                views,
                target,
                min_len@,
                k as nat,
            ),
        decreases seqs.len() - k,
    {
        let seq = &seqs[k];
        assert(views[k as int] == seq@);
        if Parity::from_index(k) == target {
            let len = BigNat::from_usize(seq.as_str().unicode_len());
            if min_len.le(&len) {
                proof {
                    lemma_first_match_from(views, target, min_len@, k as nat);
                }
                return Some((seq.clone(), k));
            }
        }
        k += 1;
    }
    None
}

} // verus!
