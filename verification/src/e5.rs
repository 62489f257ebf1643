//! Rule set 5: organisms age, and old organisms may die.

use crate::evol_prim::Organism;
use crate::random::Probability;
use rand::rngs::StdRng;
use vstd::prelude::*;

verus! {

/// A phenotype that only counts the ticks an organism has lived.
#[derive(Debug, Clone)]
pub struct Body5 {
    pub age: u32,
}

/// An organism older than two ticks dies with chance one half; a younger one
/// never dies, and nothing is drawn for it.
pub fn death(org: &Organism<Body5>, rng: &mut StdRng) -> (dead: bool)
    ensures
        org.body.age <= 2 ==> !dead,
        org.body.age <= 2 ==> *final(rng) == *old(rng),
{
    org.body.age > 2 && Probability::ratio(1, 2).sample(rng)
}

/// The organism ages by one tick. Its genome stays as it is, and nothing is
/// drawn.
pub fn update(org: &mut Organism<Body5>, rng: &mut StdRng)
    requires
        old(org).body.age < u32::MAX,
    ensures
        final(org).body.age == old(org).body.age + 1,
        final(org).genes@ == old(org).genes@,
        *final(rng) == *old(rng),
{
    org.body.age += 1;
}

} // verus!
