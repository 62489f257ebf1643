//! Rule set 0: the primordial soup. Genomes copy themselves by chance, with
//! heavy mutation, until the first true replicator appears.

use crate::evol_prim::{clone_with_mutation, is_mutation_of, starts_with, Base, BaseSeq};
use crate::random::Probability;
use rand::rngs::StdRng;
use vstd::prelude::*;

verus! {

/// The prefix of a true replicator.
pub const E1_REPRODUCE_PREFIX: [Base; 4] = [Base::A, Base::T, Base::A, Base::T];

/// `child` can come out of copying `s` with the mutation chances of this rule
/// set: insertion 1 in 10, deletion 1 in 10, substitution 33 in 100.
pub open spec fn is_child_of(child: Seq<Base>, s: Seq<Base>) -> bool {
    is_mutation_of(
        child,
        s,
        Probability::ratio(1, 10),
        Probability::ratio(1, 10),
        Probability::ratio(33, 100),
    )
}

/// With chance one half the genome has two mutated children, else none. The
/// soup ends where a true replicator appears: a genome with the replicator
/// prefix is not accepted.
pub fn reproduce(s: &BaseSeq, rng: &mut StdRng) -> (litter: Vec<BaseSeq>)
    requires
        !E1_REPRODUCE_PREFIX@.is_prefix_of(s@),
    ensures
        litter@.len() == 0 || litter@.len() == 2,
        forall|i: int| 0 <= i < litter@.len() ==> is_child_of(#[trigger] litter@[i]@, s@),
{
    let mut litter: Vec<BaseSeq> = Vec::new();
    if Probability::ratio(1, 2).sample(rng) {
        let insertion = Probability::ratio(1, 10);
        let deletion = Probability::ratio(1, 10);
        let base_change = Probability::ratio(33, 100);
        let first = clone_with_mutation(s, rng, insertion, deletion, base_change);
        let second = clone_with_mutation(s, rng, insertion, deletion, base_change);
        litter.push(first);
        litter.push(second);
    }
    litter
}

/// Whether a genome may be handed to `reproduce`: it is no true replicator.
pub fn in_soup(s: &BaseSeq) -> (yes: bool)
    ensures
        yes == !E1_REPRODUCE_PREFIX@.is_prefix_of(s@),
{
    !starts_with(s, &E1_REPRODUCE_PREFIX)
}

/// An empty genome dies, and nothing is drawn for it; any other dies with
/// chance one half.
pub fn death(s: &BaseSeq, rng: &mut StdRng) -> (dead: bool)
    ensures
        s@.len() == 0 ==> dead,
        s@.len() == 0 ==> *final(rng) == *old(rng),
{
    s.len() == 0 || Probability::ratio(1, 2).sample(rng)
}

} // verus!
