//! Rule set 2: a longer prefix is a mutation that makes replication certain.

use crate::evol_prim::{clone_with_mutation, is_mutation_of, starts_with, Base, BaseSeq};
use crate::random::Probability;
use rand::rngs::StdRng;
use vstd::prelude::*;

verus! {

/// The prefix that lets a genome replicate on every other tick.
pub const E1_REPRODUCE_PREFIX: [Base; 4] = [Base::A, Base::T, Base::A, Base::T];

/// The prefix that lets a genome replicate on every tick.
pub const E2_BETTER_REPRODUCE_PREFIX: [Base; 6] = [
    Base::A,
    Base::T,
    Base::A,
    Base::T,
    Base::A,
    Base::T,
];

/// `child` can come out of copying `s` with the mutation chances of this rule
/// set: insertion 1 in 100, deletion 1 in 100, substitution 5 in 100.
pub open spec fn is_child_of(child: Seq<Base>, s: Seq<Base>) -> bool {
    is_mutation_of(
        child,
        s,
        Probability::ratio(1, 100),
        Probability::ratio(1, 100),
        Probability::ratio(5, 100),
    )
}

/// A genome with the better prefix always has two mutated children. A genome
/// with only the plain prefix has them with chance one half. Any other genome
/// has none.
pub fn reproduce(s: &BaseSeq, rng: &mut StdRng) -> (litter: Vec<BaseSeq>)
    ensures
        litter@.len() == 0 || litter@.len() == 2,
        E2_BETTER_REPRODUCE_PREFIX@.is_prefix_of(s@) ==> litter@.len() == 2,
        !E1_REPRODUCE_PREFIX@.is_prefix_of(s@) && !E2_BETTER_REPRODUCE_PREFIX@.is_prefix_of(s@)
            ==> litter@.len() == 0,
        forall|i: int| 0 <= i < litter@.len() ==> is_child_of(#[trigger] litter@[i]@, s@),
{
    let mut litter: Vec<BaseSeq> = Vec::new();
    if starts_with(s, &E2_BETTER_REPRODUCE_PREFIX) || (Probability::ratio(1, 2).sample(rng)
        && starts_with(s, &E1_REPRODUCE_PREFIX)) {
        let insertion = Probability::ratio(1, 100);
        let deletion = Probability::ratio(1, 100);
        let base_change = Probability::ratio(5, 100);
        let first = clone_with_mutation(s, rng, insertion, deletion, base_change);
        let second = clone_with_mutation(s, rng, insertion, deletion, base_change);
        litter.push(first);
        litter.push(second);
    }
    litter
}

/// An empty genome dies, and nothing is drawn for it; any other dies with
/// chance 33 in 100.
pub fn death(s: &BaseSeq, rng: &mut StdRng) -> (dead: bool)
    ensures
        s@.len() == 0 ==> dead,
        s@.len() == 0 ==> *final(rng) == *old(rng),
{
    s.len() == 0 || Probability::ratio(33, 100).sample(rng)
}

} // verus!
