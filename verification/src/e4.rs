//! Rule set 4: like rule set 3, and every `C` in a genome protects it from
//! mutation.

#![allow(non_snake_case)]

use crate::e3;
use crate::evol_prim::{clone_with_mutation, is_mutation_of, Base, BaseSeq};
use crate::random::Probability;
use rand::rngs::StdRng;
use vstd::prelude::*;

verus! {

/// The number that divides the mutation chances of a genome: the number of
/// its `C` symbols, or 1 where it has none.
pub open spec fn protection(s: Seq<Base>) -> nat {
    if c_symbols(s).len() == 0 {
        1
    } else {
        c_symbols(s).len()
    }
}

/// `child` can come out of copying `s` with the mutation chances of this rule
/// set: insertion 1 in 100, deletion 1 in 100, substitution 5 in 100, each
/// divided by the protection of `s`.
pub open spec fn is_child_of(child: Seq<Base>, s: Seq<Base>) -> bool {
    is_mutation_of(
        child,
        s,
        Probability::ratio(1, 100).divided_by(protection(s) as u32),
        Probability::ratio(1, 100).divided_by(protection(s) as u32),
        Probability::ratio(5, 100).divided_by(protection(s) as u32),
    )
}

/// A genome that starts with at least two `AT` pairs has one mutated child
/// per pair. Any other has none, and nothing is drawn for it. Every `C` in
/// the genome lowers the chances of mutation. The divided chances must fit the 32 bits of a ratio.
pub fn reproduce(s: &BaseSeq, rng: &mut StdRng) -> (litter: Vec<BaseSeq>)
    requires
        100 * protection(s@) <= u32::MAX,
    ensures
        litter@.len() == e3::litter_size(e3::at_repetitions(s@)),
        e3::at_repetitions(s@) <= 1 ==> *final(rng) == *old(rng),
        forall|i: int| 0 <= i < litter@.len() ==> is_child_of(#[trigger] litter@[i]@, s@),
{
    let at_reps = count_AT_repetitions(s);
    let mut litter: Vec<BaseSeq> = Vec::new();
    if at_reps > 1 {
        let c_count = count_C(s);
        let c: u32 = if c_count == 0 {
            1
        } else {
            c_count as u32
        };
        let insertion = Probability::ratio(1, 100).divided_by(c);
        let deletion = Probability::ratio(1, 100).divided_by(c);
        let base_change = Probability::ratio(5, 100).divided_by(c);
        let mut born: usize = 0;
        while born < at_reps
            invariant
                born <= at_reps,
                litter@.len() == born,
                insertion == Probability::ratio(1, 100).divided_by(protection(s@) as u32),
                deletion == Probability::ratio(1, 100).divided_by(protection(s@) as u32),
                base_change == Probability::ratio(5, 100).divided_by(protection(s@) as u32),
                forall|i: int| 0 <= i < litter@.len() ==> is_child_of(#[trigger] litter@[i]@, s@),
            decreases at_reps - born,
        {
            let child = clone_with_mutation(s, rng, insertion, deletion, base_change);
            litter.push(child);
            born += 1;
        }
    }
    litter
}

/// Whether the genome is small enough for `reproduce`: its divided chances
/// fit the 32 bits of a ratio.
pub fn can_reproduce(s: &BaseSeq) -> (yes: bool)
    ensures
        yes == (100 * protection(s@) <= u32::MAX),
{
    count_C(s) <= 42949672
}

/// An empty genome dies, and nothing is drawn for it; any other dies with
/// chance one half.
pub fn death(s: &BaseSeq, rng: &mut StdRng) -> (dead: bool)
    ensures
        s@.len() == 0 ==> dead,
        s@.len() == 0 ==> *final(rng) == *old(rng),
{
    s.len() == 0 || Probability::ratio(1, 2).sample(rng)
}

/// Counts the `AT` pairs that the genome starts with.
pub fn count_AT_repetitions(s: &BaseSeq) -> (at_reps: usize)
    ensures
        at_reps == e3::at_repetitions(s@),
        e3::leading_at_pairs(s@, at_reps as int),
{
    e3::count_AT_repetitions(s)
}

/// The symbols of a genome that are `C`.
pub open spec fn c_symbols(s: Seq<Base>) -> Seq<Base> {
    s.filter(|b: Base| b == Base::C)
}

/// Counts the occurrences of `C` in the genome.
pub fn count_C(s: &BaseSeq) -> (count: usize)
    ensures
        count == c_symbols(s@).len(),
{
    let mut count: usize = 0;
    let mut i: usize = 0;
    while i < s.len()
        invariant
            i <= s@.len(),
            count <= i,
            count == c_symbols(s@.take(i as int)).len(),
        decreases s@.len() - i,
    {
        proof {
            assert(s@.take(i + 1) == s@.take(i as int).push(s@[i as int]));
            s@.take(i as int).lemma_filter_push(s@[i as int], |b: Base| b == Base::C);
        }
        if s[i] == Base::C {
            count += 1;
        }
        i += 1;
    }
    assert(s@.take(s@.len() as int) == s@);
    count
}

} // verus!
