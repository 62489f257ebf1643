//! Rule set 3: the more leading repetitions of `AT`, the faster an organism
//! reproduces.

#![allow(non_snake_case)]

use crate::evol_prim::{clone_with_mutation, is_mutation_of, Base, BaseSeq};
use crate::random::Probability;
use rand::rngs::StdRng;
use vstd::prelude::*;

verus! {

/// `child` can come out of copying `s` with the mutation chances of this rule
/// set: insertion 1 in 100, deletion 1 in 100, substitution 5 in 100.
pub open spec fn is_child_of(child: Seq<Base>, s: Seq<Base>) -> bool {
    is_mutation_of(
        child,
        s,
        Probability::ratio(1, 100),
        Probability::ratio(1, 100),
        Probability::ratio(5, 100),
    )
}

/// The number of children of a genome with `at_reps` leading `AT` pairs: one
/// per pair, and none below two pairs.
pub open spec fn litter_size(at_reps: int) -> int {
    if at_reps <= 1 {
        0
    } else {
        at_reps
    }
}

/// A genome that starts with at least two `AT` pairs has one mutated child
/// per pair. Any other has none, and nothing is drawn for it.
pub fn reproduce(s: &BaseSeq, rng: &mut StdRng) -> (litter: Vec<BaseSeq>)
    ensures
        litter@.len() == litter_size(at_repetitions(s@)),
        at_repetitions(s@) <= 1 ==> *final(rng) == *old(rng),
        forall|i: int| 0 <= i < litter@.len() ==> is_child_of(#[trigger] litter@[i]@, s@),
{
    let at_reps = count_AT_repetitions(s);
    let mut litter: Vec<BaseSeq> = Vec::new();
    if at_reps > 1 {
        let mut born: usize = 0;
        while born < at_reps
            invariant
                born <= at_reps,
                litter@.len() == born,
                forall|i: int| 0 <= i < litter@.len() ==> is_child_of(#[trigger] litter@[i]@, s@),
            decreases at_reps - born,
        {
            let child = clone_with_mutation(
                s,
                rng,
                Probability::ratio(1, 100),
                Probability::ratio(1, 100),
                Probability::ratio(5, 100),
            );
            litter.push(child);
            born += 1;
        }
    }
    litter
}

/// An empty genome dies, and nothing is drawn for it; any other dies with
/// chance one half.
pub fn death(s: &BaseSeq, rng: &mut StdRng) -> (dead: bool)
    ensures
        s@.len() == 0 ==> dead,
        s@.len() == 0 ==> *final(rng) == *old(rng),
{
    s.len() == 0 || Probability::ratio(1, 2).sample(rng)
}

/// Whether the `k`-th pair of symbols exists and reads `AT`.
pub open spec fn at_pair(s: Seq<Base>, k: int) -> bool {
    0 <= k && 2 * k + 1 < s.len() && s[2 * k] == Base::A && s[2 * k + 1] == Base::T
}

/// The number of `AT` pairs the genome starts with: every pair below it reads
/// `AT`, the pair at it does not.
pub open spec fn leading_at_pairs(s: Seq<Base>, reps: int) -> bool {
    &&& 0 <= reps
    &&& forall|k: int| 0 <= k < reps ==> at_pair(s, k)
    &&& !at_pair(s, reps)
}

/// The number of `AT` pairs that the genome starts with.
pub open spec fn at_repetitions(s: Seq<Base>) -> int {
    choose|reps: int| leading_at_pairs(s, reps)
}

/// Only one number counts the leading `AT` pairs of a genome.
pub proof fn lemma_at_repetitions_unique(s: Seq<Base>, reps: int)
    requires
        leading_at_pairs(s, reps),
    ensures
        at_repetitions(s) == reps,
{
    let other = at_repetitions(s);
    if other < reps {
        assert(at_pair(s, other));
    } else if reps < other {
        assert(at_pair(s, reps));
    }
}

/// Counts the `AT` pairs that the genome starts with.
pub fn count_AT_repetitions(s: &BaseSeq) -> (at_reps: usize)
    ensures
        at_reps == at_repetitions(s@),
        leading_at_pairs(s@, at_reps as int),
{
    let pairs = s.len() / 2;
    let mut at_reps: usize = 0;
    while at_reps < pairs && s[at_reps * 2] == Base::A && s[at_reps * 2 + 1] == Base::T
        invariant
            pairs == s.len() / 2,
            at_reps <= pairs,
            forall|k: int| 0 <= k < at_reps ==> at_pair(s@, k),
        decreases pairs - at_reps,
    {
        at_reps += 1;
    }
    proof {
        lemma_at_repetitions_unique(s@, at_reps as int);
    }
    at_reps
}

} // verus!
