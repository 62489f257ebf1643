//! Rule set 6: every survivor doubles.

use crate::evol_prim::{clone_with_mutation, is_mutation_of, Base, BaseSeq};
use crate::random::Probability;
use rand::rngs::StdRng;
use vstd::prelude::*;

verus! {

/// `child` can come out of copying `s` with the mutation chances of this rule
/// set: insertion 1 in 100, deletion 1 in 100, substitution 5 in 100.
pub open spec fn is_child_of(child: Seq<Base>, s: Seq<Base>) -> bool {
    is_mutation_of(
        child,
        s,
        Probability::ratio(1, 100),
        Probability::ratio(1, 100),
        Probability::ratio(5, 100),
    )
}

/// Every genome has two mutated children.
pub fn reproduce(s: &BaseSeq, rng: &mut StdRng) -> (litter: Vec<BaseSeq>)
    ensures
        litter@.len() == 2,
        forall|i: int| 0 <= i < litter@.len() ==> is_child_of(#[trigger] litter@[i]@, s@),
{
    let insertion = Probability::ratio(1, 100);
    let deletion = Probability::ratio(1, 100);
    let base_change = Probability::ratio(5, 100);
    let mut litter: Vec<BaseSeq> = Vec::new();
    let first = clone_with_mutation(s, rng, insertion, deletion, base_change);
    let second = clone_with_mutation(s, rng, insertion, deletion, base_change);
    litter.push(first);
    litter.push(second);
    litter
}

} // verus!
