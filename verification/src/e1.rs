//! Rule set 1: a genome replicates if it starts with a fixed prefix.

use crate::evol_prim::{
    clone_with_mutation, is_mutation_of, starts_with, Base, BaseSeq, Environment, Organism,
};
use crate::random::Probability;
use crate::sim::{
    genomes_of, is_barren, is_history, is_tick, lemma_history_barren, lemma_tick_barren,
    MergePolicy, Strategy, World,
};
use rand::rngs::StdRng;
use vstd::prelude::*;

verus! {

/// The prefix that lets a genome replicate.
pub const E1_REPRODUCE_PREFIX: [Base; 4] = [Base::A, Base::T, Base::A, Base::T];

/// `child` can come out of copying `s` with the mutation chances of this rule
/// set: insertion 1 in 100, deletion 1 in 100, substitution 5 in 100.
pub open spec fn is_child_of(child: Seq<Base>, s: Seq<Base>) -> bool {
    is_mutation_of(
        child,
        s,
        Probability::ratio(1, 100),
        Probability::ratio(1, 100),
        Probability::ratio(5, 100),
    )
}

/// A genome with the prefix has two mutated children. Any other has none,
/// and nothing is drawn for it.
pub fn reproduce(s: &BaseSeq, rng: &mut StdRng) -> (litter: Vec<BaseSeq>)
    ensures
        litter@.len() == if E1_REPRODUCE_PREFIX@.is_prefix_of(s@) { 2nat } else { 0nat },
        !E1_REPRODUCE_PREFIX@.is_prefix_of(s@) ==> *final(rng) == *old(rng),
        forall|i: int| 0 <= i < litter@.len() ==> is_child_of(#[trigger] litter@[i]@, s@),
{
    let mut litter: Vec<BaseSeq> = Vec::new();
    if starts_with(s, &E1_REPRODUCE_PREFIX) {
        let insertion = Probability::ratio(1, 100);
        let deletion = Probability::ratio(1, 100);
        let base_change = Probability::ratio(5, 100);
        let first = clone_with_mutation(s, rng, insertion, deletion, base_change);
        let second = clone_with_mutation(s, rng, insertion, deletion, base_change);
        litter.push(first);
        litter.push(second);
    }
    litter
}

/// An empty genome dies, and nothing is drawn for it; any other dies with
/// chance one half.
pub fn death(s: &BaseSeq, rng: &mut StdRng) -> (dead: bool)
    ensures
        s@.len() == 0 ==> dead,
        s@.len() == 0 ==> *final(rng) == *old(rng),
{
    s.len() == 0 || Probability::ratio(1, 2).sample(rng)
}

/// Rule set 1 as rules for the engine. Organisms carry no phenotype, and no
/// environment acts on them.
#[derive(Debug, Clone, Copy)]
pub struct Rules;

impl<E> Strategy<(), E> for Rules {
    /// Only an organism with a genome can survive.
    open spec fn may_survive(&self, org: &Organism<()>, env: &E) -> bool {
        org.genes@.len() > 0
    }

    fn death(&self, org: &Organism<()>, env: &E, rng: &mut StdRng) -> (dead: bool)
        ensures
            org.genes@.len() == 0 ==> dead && *final(rng) == *old(rng),
    {
        death(&org.genes, rng)
    }

    /// A genome with the prefix has two mutated children, any other has
    /// none.
    open spec fn may_bear(&self, org: &Organism<()>, env: &E, litter: Seq<Seq<Base>>) -> bool {
        &&& litter.len() == if E1_REPRODUCE_PREFIX@.is_prefix_of(org.genes@) {
            2nat
        } else {
            0nat
        }
        &&& forall|i: int| 0 <= i < litter.len() ==> is_child_of(#[trigger] litter[i], org.genes@)
    }

    fn reproduce(&self, org: &Organism<()>, env: &E, rng: &mut StdRng) -> (litter: Vec<BaseSeq>)
        ensures
            !E1_REPRODUCE_PREFIX@.is_prefix_of(org.genes@) ==> *final(rng) == *old(rng),
    {
        reproduce(&org.genes, rng)
    }

    fn build(&self, genes: &BaseSeq, rng: &mut StdRng) -> (body: ()) {
    }

    /// There is nothing to learn; nothing is drawn.
    fn learn(&self, genes: &BaseSeq, body: &mut (), env: &E, rng: &mut StdRng)
        ensures
            *final(rng) == *old(rng),
    {
    }

    /// There is nothing to update; nothing is drawn.
    fn update(&self, genes: &BaseSeq, body: &mut (), env: &E, rng: &mut StdRng)
        ensures
            *final(rng) == *old(rng),
    {
    }
}

/// No organism of the population has a genome with the prefix.
pub open spec fn without_prefix(population: Seq<Organism<()>>) -> bool {
    forall|i: int|
        0 <= i < population.len() ==> !E1_REPRODUCE_PREFIX@.is_prefix_of(
            (#[trigger] population[i]).genes@,
        )
}

/// Where no genome starts with the prefix, these rules give nobody
/// children.
pub proof fn lemma_without_prefix_barren<E>(population: Seq<Organism<()>>)
    requires
        without_prefix(population),
    ensures
        is_barren::<(), E, Rules>(Rules, genomes_of(population)),
{
    assert forall|org: Organism<()>, env: E, litter: Seq<Seq<Base>>|
        genomes_of(population).contains(org.genes@) && #[trigger] Rules.may_bear(
            &org,
            &env,
            litter,
        ) implies litter.len() == 0 by {
        let i = choose|i: int|
            0 <= i < population.len() && genomes_of(population)[i] == org.genes@;
        assert(population[i].genes@ == org.genes@);
    }
}

/// A population whose genomes are all among genomes without the prefix is
/// without the prefix itself.
proof fn lemma_prefix_does_not_arise(before: Seq<Organism<()>>, after: Seq<Organism<()>>)
    requires
        without_prefix(before),
        genomes_of(after).to_multiset().subset_of(genomes_of(before).to_multiset()),
    ensures
        without_prefix(after),
{
    broadcast use vstd::multiset::group_multiset_axioms;
    broadcast use vstd::seq_lib::group_to_multiset_ensures;

    assert forall|i: int| 0 <= i < after.len() implies !E1_REPRODUCE_PREFIX@.is_prefix_of(
        (#[trigger] after[i]).genes@,
    ) by {
        let genes = after[i].genes@;
        assert(genomes_of(after)[i] == genes);
        vstd::seq_lib::to_multiset_contains(genomes_of(after), genes);
        vstd::seq_lib::to_multiset_contains(genomes_of(before), genes);
        let p = choose|p: int| 0 <= p < before.len() && genomes_of(before)[p] == genes;
        assert(before[p].genes@ == genes);
    }
}

/// Without the prefix nothing offsets death: where no genome of a population
/// starts with the prefix, a tick under these rules bears no children, so
/// the population does not grow, and the prefix does not arise.
pub proof fn lemma_without_prefix_no_growth<E: Environment>(
    cap: nat,
    policy: MergePolicy,
    before: World<(), E>,
    after: World<(), E>,
)
    requires
        is_tick(Rules, cap, policy, before, after),
        without_prefix(before.organisms),
    ensures
        after.organisms.len() <= before.organisms.len(),
        without_prefix(after.organisms),
{
    lemma_without_prefix_barren::<E>(before.organisms);
    lemma_tick_barren(Rules, cap, policy, before, after);
    lemma_prefix_does_not_arise(before.organisms, after.organisms);
}

/// The same along a whole run: where no genome of the starting population
/// starts with the prefix, every later population is no larger than the one
/// before it, holds only genomes of the start, counted with repetition, and
/// the prefix never arises.
pub proof fn lemma_without_prefix_dies_down<E: Environment>(
    cap: nat,
    policy: MergePolicy,
    worlds: Seq<World<(), E>>,
    i: int,
)
    requires
        is_history(Rules, cap, policy, worlds),
        without_prefix(worlds[0].organisms),
        0 <= i < worlds.len(),
    ensures
        i > 0 ==> worlds[i].organisms.len() <= worlds[i - 1].organisms.len(),
        worlds[i].organisms.len() <= worlds[0].organisms.len(),
        genomes_of(worlds[i].organisms).to_multiset().subset_of(
            genomes_of(worlds[0].organisms).to_multiset(),
        ),
        without_prefix(worlds[i].organisms),
{
    lemma_without_prefix_barren::<E>(worlds[0].organisms);
    lemma_history_barren(Rules, cap, policy, worlds, i);
    lemma_prefix_does_not_arise(worlds[0].organisms, worlds[i].organisms);
}

} // verus!
