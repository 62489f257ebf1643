//! The generational engine: one tick selects, breeds, caps the population,
//! advances the environment and lets every organism react.

use crate::evol_prim::{Base, BaseSeq, Environment, Organism};
use crate::random::{distinct_below, sample_indices};
use rand::rngs::StdRng;
use vstd::multiset::Multiset;
use vstd::prelude::*;

verus! {

/// How survivors and children are merged when together they exceed the
/// capacity.
#[derive(Debug, Copy, Clone, PartialEq, Eq, Structural)]
pub enum MergePolicy {
    /// Survivors are never evicted: children are admitted in the order of
    /// their birth until the capacity is reached, the rest are discarded.
    TruncateChildren,
    /// Survivors and all children are pooled, and the pool is sampled down to
    /// the capacity: survivors can be evicted.
    PoolAndSample,
}

/// The number of children that the merge admits.
pub open spec fn admitted(survivors: nat, children: nat, cap: nat, policy: MergePolicy) -> nat {
    match policy {
        MergePolicy::PoolAndSample => children,
        MergePolicy::TruncateChildren => if survivors >= cap {
            0
        } else if children <= cap - survivors {
            children
        } else {
            (cap - survivors) as nat
        },
    }
}

/// The pool after the merge: all survivors, then the admitted children in
/// the order of their birth.
pub open spec fn merged<T>(survivors: Seq<T>, children: Seq<T>, cap: nat, policy: MergePolicy) -> Seq<
    T,
> {
    survivors + children.take(admitted(survivors.len(), children.len(), cap, policy) as int)
}

/// The items of `pool` at the positions `picks`, in the order of the picks.
pub open spec fn picked<T>(pool: Seq<T>, picks: Seq<usize>) -> Seq<T> {
    Seq::new(picks.len(), |k: int| pool[picks[k] as int])
}

/// Merges survivors and children under the capacity `cap`. Under
/// `TruncateChildren` the children fill the room that the survivors leave;
/// under `PoolAndSample` all of them join the pool.
pub fn merge_capped<T>(survivors: Vec<T>, children: Vec<T>, cap: usize, policy: MergePolicy) -> (pool:
    Vec<T>)
    ensures
        pool@ == merged(survivors@, children@, cap as nat, policy),
        policy == MergePolicy::TruncateChildren && survivors@.len() <= cap ==> pool@.len() <= cap,
{
    let mut pool = survivors;
    let mut children = children;
    match policy {
        MergePolicy::TruncateChildren => {
            if pool.len() < cap {
                children.truncate(cap - pool.len());
            } else {
                children.truncate(0);
            }
        },
        MergePolicy::PoolAndSample => {},
    }
    pool.append(&mut children);
    pool
}

/// Takes the items at the positions `picks` out of `pool`, in the order of
/// the picks. No item is copied: each pick moves its item.
pub fn take_picked<T>(pool: Vec<T>, picks: &Vec<usize>) -> (out: Vec<T>)
    requires
        distinct_below(picks@, pool@.len()),
    ensures
        out@ == picked(pool@, picks@),
{
    let ghost source = pool@;
    let n = pool.len();
    let mut pool = pool;
    let mut slots: Vec<Option<T>> = Vec::new();
    while pool.len() > 0
        invariant
            n == source.len(),
            pool@ == source.take(pool@.len() as int),
            slots@.len() == n - pool@.len(),
            forall|j: int| 0 <= j < slots@.len() ==> slots@[j] == Some(source[n - 1 - j]),
        decreases pool@.len(),
    {
        let item = pool.pop();
        slots.push(item);
    }
    let mut out: Vec<T> = Vec::new();
    let mut k: usize = 0;
    while k < picks.len()
        invariant
            n == source.len(),
            slots@.len() == n,
            distinct_below(picks@, n as nat),
            k <= picks@.len(),
            out@ == picked(source, picks@.take(k as int)),
            forall|j: int|
                0 <= j < n ==> (#[trigger] slots@[j] is Some ==> slots@[j] == Some(
                    source[n - 1 - j],
                )),
            forall|m: int| k <= m < picks@.len() ==> slots@[n - 1 - picks@[m]] is Some,
        decreases picks@.len() - k,
    {
        assert(picks@[k as int] < n);
        let at = n - 1 - picks[k];
        let item = slots[at].take();
        assert(item == Some(source[picks@[k as int] as int]));
        if let Some(x) = item {
            out.push(x);
        }
        assert(picks@.take(k + 1) == picks@.take(k as int).push(picks@[k as int]));
        k += 1;
    }
    assert(picks@.take(k as int) == picks@);
    out
}

/// The items picked at distinct positions of a pool are, counted with
/// repetition, among the items of the pool: nothing is fabricated and nothing
/// is duplicated.
pub proof fn lemma_picked_within_pool<T>(pool: Seq<T>, picks: Seq<usize>)
    requires
        distinct_below(picks, pool.len()),
    ensures
        picked(pool, picks).len() == picks.len(),
        picked(pool, picks).to_multiset().subset_of(pool.to_multiset()),
    decreases pool.len(),
{
    broadcast use vstd::multiset::group_multiset_axioms;
    broadcast use vstd::seq_lib::group_to_multiset_ensures;

    let out = picked(pool, picks);
    if picks.len() == 0 {
        assert(out == Seq::<T>::empty());
    } else {
        assert(picks[0] < pool.len());
        let last = (pool.len() - 1) as int;
        let rest = pool.drop_last();
        assert(pool == rest.push(pool[last]));
        if exists|k: int| 0 <= k < picks.len() && picks[k] == last {
            let k = choose|k: int| 0 <= k < picks.len() && picks[k] == last;
            let fewer = picks.remove(k);
            assert(distinct_below(fewer, rest.len())) by {
                assert forall|i: int| 0 <= i < fewer.len() implies fewer[i] < rest.len() by {
                    let orig = if i < k { i } else { i + 1 };
                    assert(fewer[i] == picks[orig]);
                    assert(picks[orig] != picks[k]);
                }
                assert forall|i: int, j: int| 0 <= i < j < fewer.len() implies fewer[i]
                    != fewer[j] by {
                    let oi = if i < k { i } else { i + 1 };
                    let oj = if j < k { j } else { j + 1 };
                    assert(fewer[i] == picks[oi] && fewer[j] == picks[oj]);
                }
            }
            lemma_picked_within_pool(rest, fewer);
            assert(picked(rest, fewer) == out.remove(k));
            assert(out[k] == pool[last]);
            assert forall|v: T| out.to_multiset().count(v) <= pool.to_multiset().count(v) by {
                assert(out.remove(k).to_multiset() == out.to_multiset().remove(out[k]));
                assert(out.remove(k).to_multiset().count(v) <= rest.to_multiset().count(v));
                assert(out.to_multiset().count(out[k]) > 0);
            }
        } else {
            assert(distinct_below(picks, rest.len()));
            lemma_picked_within_pool(rest, picks);
            assert(picked(rest, picks) == out);
        }
    }
}

/// Enforces the capacity on a pool. A pool within the capacity is returned as
/// it is, and nothing is drawn. A larger pool is sampled down: exactly `cap` of its organisms are
/// drawn uniformly without replacement, the rest are discarded.
pub fn downsample<T>(pool: Vec<T>, cap: usize, rng: &mut StdRng) -> (out: Vec<T>)
    ensures
        pool@.len() <= cap ==> out@ == pool@,
        pool@.len() <= cap ==> *final(rng) == *old(rng),
        pool@.len() > cap ==> out@.len() == cap && exists|picks: Seq<usize>|
            distinct_below(picks, pool@.len()) && out@ == #[trigger] picked(pool@, picks),
        out@.len() <= cap,
        out@.to_multiset().subset_of(pool@.to_multiset()),
{
    if pool.len() > cap {
        let picks = sample_indices(rng, pool.len(), cap);
        proof {
            lemma_picked_within_pool(pool@, picks@);
        }
        take_picked(pool, &picks)
    } else {
        pool
    }
}

/// The genomes held in a list of genomes.
pub open spec fn snapshot_view(snapshot: Vec<BaseSeq>) -> Seq<Seq<Base>> {
    Seq::new(snapshot@.len(), |i: int| snapshot@[i]@)
}

/// The rules of one experiment: who dies, who reproduces and how, how a
/// phenotype is built from a genome, and how it changes from tick to tick.
/// The engine hands every call the one random source it owns.
///
/// Beside each rule stands a relation that says which answers the rule may
/// give. The engine's contracts are stated over these relations. A rule set
/// that states nothing keeps the defaults, which allow every answer.
pub trait Strategy<O, E> {
    /// `death` may answer `true` for this organism in this environment.
    open spec fn may_die(&self, org: &Organism<O>, env: &E) -> bool {
        true
    }

    /// `death` may answer `false` for this organism in this environment.
    open spec fn may_survive(&self, org: &Organism<O>, env: &E) -> bool {
        true
    }

    /// Whether the organism dies this tick.
    fn death(&self, org: &Organism<O>, env: &E, rng: &mut StdRng) -> (dead: bool)
        ensures
            dead ==> self.may_die(org, env),
            !dead ==> self.may_survive(org, env),
    ;

    /// `reproduce` may answer with this litter for this organism in this
    /// environment.
    open spec fn may_bear(&self, org: &Organism<O>, env: &E, litter: Seq<Seq<Base>>) -> bool {
        true
    }

    /// The genomes of the children that a surviving organism has this tick.
    fn reproduce(&self, org: &Organism<O>, env: &E, rng: &mut StdRng) -> (litter: Vec<BaseSeq>)
        ensures
            self.may_bear(org, env, snapshot_view(litter)),
    ;

    /// `build` may answer with this phenotype for this genome.
    open spec fn may_build(&self, genes: Seq<Base>, body: O) -> bool {
        true
    }

    /// Builds the phenotype of a newborn from its genome. The engine never
    /// hands it an empty genome.
    fn build(&self, genes: &BaseSeq, rng: &mut StdRng) -> (body: O)
        requires
            genes@.len() > 0,
        ensures
            self.may_build(genes@, body),
    ;

    /// `learn` may turn the phenotype `before` into `after` in this
    /// environment.
    open spec fn may_learn(&self, genes: Seq<Base>, before: O, env: &E, after: O) -> bool {
        true
    }

    /// Adjusts the phenotype by experience; runs before `update` in the same
    /// tick. The genome can be read, never changed.
    fn learn(&self, genes: &BaseSeq, body: &mut O, env: &E, rng: &mut StdRng)
        ensures
            self.may_learn(genes@, *old(body), env, *final(body)),
    ;

    /// `update` may turn the phenotype `before` into `after` in this
    /// environment.
    open spec fn may_update(&self, genes: Seq<Base>, before: O, env: &E, after: O) -> bool {
        true
    }

    /// Moves the phenotype forward by one tick. The genome can be read, never
    /// changed.
    fn update(&self, genes: &BaseSeq, body: &mut O, env: &E, rng: &mut StdRng)
        ensures
            self.may_update(genes@, *old(body), env, *final(body)),
    ;
}

/// The genomes of a population, in its order.
pub open spec fn genomes_of<O>(population: Seq<Organism<O>>) -> Seq<Seq<Base>> {
    Seq::new(population.len(), |i: int| population[i].genes@)
}

/// What a simulation holds beside its configuration: the environment and the
/// population.
pub struct World<O, E> {
    pub environment: E,
    pub organisms: Seq<Organism<O>>,
}

/// The answers that the rules and the sampler gave during one tick. `dead`
/// and `litters` have one entry per organism, in the order in which the
/// selection pass visited them.
pub struct TickRecord<O> {
    /// What `death` answered for each organism.
    pub dead: Seq<bool>,
    /// What `reproduce` answered for each organism; nothing for the dead.
    pub litters: Seq<Seq<Seq<Base>>>,
    /// The children as they were built.
    pub newborn: Seq<Organism<O>>,
    /// The positions drawn from the pool, where it was sampled down.
    pub picks: Seq<usize>,
    /// The phenotype of each organism between `learn` and `update`.
    pub learned: Seq<O>,
}

/// The order in which the selection pass visits a population: from the last
/// organism to the first.
pub open spec fn visiting_order<T>(population: Seq<T>) -> Seq<T> {
    population.reverse()
}

/// The organisms that were visited and did not die, in the order of the
/// visits.
pub open spec fn spared<T>(visited: Seq<T>, dead: Seq<bool>) -> Seq<T>
    recommends
        dead.len() == visited.len(),
    decreases dead.len(),
{
    if dead.len() == 0 {
        Seq::empty()
    } else {
        let earlier = spared(visited.drop_last(), dead.drop_last());
        if dead.last() {
            earlier
        } else {
            earlier.push(visited.last())
        }
    }
}

/// The genomes among `candidates` that are not empty, in their order.
pub open spec fn nonempty_genomes(candidates: Seq<Seq<Base>>) -> Seq<Seq<Base>> {
    candidates.filter(|genes: Seq<Base>| genes.len() > 0)
}

/// What `death` and `reproduce` may have answered on one visit: a dead
/// organism does not reproduce, a survivor does.
pub open spec fn visit_allowed<O, E, S: Strategy<O, E>>(
    strategy: S,
    env: E,
    org: Organism<O>,
    dead: bool,
    litter: Seq<Seq<Base>>,
) -> bool {
    if dead {
        strategy.may_die(&org, &env) && litter.len() == 0
    } else {
        strategy.may_survive(&org, &env) && strategy.may_bear(&org, &env, litter)
    }
}

/// A child as `build` may have made it: its genome is not empty.
pub open spec fn birth_allowed<O, E, S: Strategy<O, E>>(strategy: S, child: Organism<O>) -> bool {
    child.genes@.len() > 0 && strategy.may_build(child.genes@, child.body)
}

/// The pool after the capacity is enforced: sampled down at the positions
/// `picks` where it exceeds the capacity, else as it is.
pub open spec fn settled<T>(pool: Seq<T>, picks: Seq<usize>, cap: nat) -> Seq<T> {
    if pool.len() > cap {
        picked(pool, picks)
    } else {
        pool
    }
}

/// An organism after its reaction: the genome is the same, and the phenotype
/// went through `learn` and then through `update`, both in the environment
/// `env`.
pub open spec fn reacted<O, E, S: Strategy<O, E>>(
    strategy: S,
    env: E,
    before: Organism<O>,
    learned: O,
    after: Organism<O>,
) -> bool {
    &&& after.genes@ == before.genes@
    &&& strategy.may_learn(before.genes@, before.body, &env, learned)
    &&& strategy.may_update(before.genes@, learned, &env, after.body)
}

/// One tick leads from the world `before` to the world `after`, with the
/// answers in `record`:
/// - every organism is visited once, from the last to the first, in the
///   environment as it was; the dead are dropped and do not reproduce;
/// - the children are the nonempty genomes of all litters, in the order of
///   their birth, each with a phenotype that `build` made;
/// - survivors and children are merged under the policy, and a pool above
///   the capacity is sampled down to it at distinct positions;
/// - the environment advances once;
/// - every organism that is left learns and then updates, in the environment
///   as it is after the advance.
pub open spec fn tick_explained_by<O, E: Environment, S: Strategy<O, E>>(
    strategy: S,
    cap: nat,
    policy: MergePolicy,
    before: World<O, E>,
    after: World<O, E>,
    record: TickRecord<O>,
) -> bool {
    let visited = visiting_order(before.organisms);
    let pool = merged(spared(visited, record.dead), record.newborn, cap, policy);
    let left = settled(pool, record.picks, cap);
    &&& record.dead.len() == visited.len()
    &&& record.litters.len() == visited.len()
    &&& forall|v: int|
        0 <= v < visited.len() ==> visit_allowed(
            strategy,
            before.environment,
            #[trigger] visited[v],
            record.dead[v],
            record.litters[v],
        )
    &&& genomes_of(record.newborn) == nonempty_genomes(record.litters.flatten())
    &&& forall|c: int|
        0 <= c < record.newborn.len() ==> birth_allowed(strategy, #[trigger] record.newborn[c])
    &&& pool.len() > cap ==> record.picks.len() == cap && distinct_below(record.picks, pool.len())
    &&& before.environment.advances_to(&after.environment)
    &&& after.organisms.len() == left.len()
    &&& record.learned.len() == left.len()
    &&& forall|i: int|
        0 <= i < left.len() ==> reacted(
            strategy,
            after.environment,
            left[i],
            record.learned[i],
            #[trigger] after.organisms[i],
        )
}

/// The world `after` can follow the world `before` in one tick: some answers
/// of the rules and of the sampler explain it.
pub open spec fn is_tick<O, E: Environment, S: Strategy<O, E>>(
    strategy: S,
    cap: nat,
    policy: MergePolicy,
    before: World<O, E>,
    after: World<O, E>,
) -> bool {
    exists|record: TickRecord<O>| #[trigger]
        tick_explained_by(strategy, cap, policy, before, after, record)
}

/// Capacity invariant: whatever the population was, the population after one
/// tick is within the capacity.
pub proof fn lemma_tick_within_capacity<O, E: Environment, S: Strategy<O, E>>(
    strategy: S,
    cap: nat,
    policy: MergePolicy,
    before: World<O, E>,
    after: World<O, E>,
)
    requires
        is_tick(strategy, cap, policy, before, after),
    ensures
        after.organisms.len() <= cap,
{
}

/// The spared are among the visited: none is fabricated and none is counted
/// twice.
pub proof fn lemma_spared_are_visited<T>(visited: Seq<T>, dead: Seq<bool>)
    requires
        dead.len() == visited.len(),
    ensures
        spared(visited, dead).len() <= visited.len(),
        forall|k: int|
            0 <= k < spared(visited, dead).len() ==> visited.contains(
                #[trigger] spared(visited, dead)[k],
            ),
        spared(visited, dead).to_multiset().subset_of(visited.to_multiset()),
    decreases dead.len(),
{
    broadcast use vstd::multiset::group_multiset_axioms;
    broadcast use vstd::seq_lib::group_to_multiset_ensures;

    if dead.len() == 0 {
        assert(spared(visited, dead) == Seq::<T>::empty());
    } else {
        lemma_spared_are_visited(visited.drop_last(), dead.drop_last());
        let earlier = spared(visited.drop_last(), dead.drop_last());
        assert(visited == visited.drop_last().push(visited.last()));
        assert forall|k: int| 0 <= k < spared(visited, dead).len() implies visited.contains(
            #[trigger] spared(visited, dead)[k],
        ) by {
            if k < earlier.len() {
                let v = choose|v: int|
                    0 <= v < visited.drop_last().len() && visited.drop_last()[v] == earlier[k];
                assert(visited[v] == earlier[k]);
            } else {
                assert(visited[visited.len() - 1] == visited.last());
            }
        }
    }
}

/// Filtering and lineage: after a tick every genome of the population is the
/// genome of an organism that was there before the tick, or it is the
/// genome of a child, and that is never empty.
pub proof fn lemma_tick_lineage<O, E: Environment, S: Strategy<O, E>>(
    strategy: S,
    cap: nat,
    policy: MergePolicy,
    before: World<O, E>,
    after: World<O, E>,
    record: TickRecord<O>,
)
    requires
        tick_explained_by(strategy, cap, policy, before, after, record),
    ensures
        forall|i: int|
            0 <= i < after.organisms.len() ==> {
                let genes = (#[trigger] after.organisms[i]).genes@;
                ||| genomes_of(before.organisms).contains(genes)
                ||| genes.len() > 0 && genomes_of(record.newborn).contains(genes)
            },
{
    let visited = visiting_order(before.organisms);
    let survivors = spared(visited, record.dead);
    let pool = merged(survivors, record.newborn, cap, policy);
    let left = settled(pool, record.picks, cap);
    lemma_spared_are_visited(visited, record.dead);
    assert forall|i: int| 0 <= i < after.organisms.len() implies {
        let genes = (#[trigger] after.organisms[i]).genes@;
        ||| genomes_of(before.organisms).contains(genes)
        ||| genes.len() > 0 && genomes_of(record.newborn).contains(genes)
    } by {
        assert(reacted(
            strategy,
            after.environment,
            left[i],
            record.learned[i],
            after.organisms[i],
        ));
        let at = if pool.len() > cap {
            record.picks[i] as int
        } else {
            i
        };
        assert(left[i] == pool[at]);
        if at < survivors.len() {
            assert(visited.contains(survivors[at]));
            let v = choose|v: int| 0 <= v < visited.len() && visited[v] == survivors[at];
            let p = before.organisms.len() - 1 - v;
            assert(genomes_of(before.organisms)[p] == before.organisms[p].genes@);
        } else {
            let c = at - survivors.len();
            assert(birth_allowed(strategy, record.newborn[c]));
            assert(genomes_of(record.newborn)[c] == record.newborn[c].genes@);
        }
    }
}

/// Without births the genomes after a tick are, counted with repetition,
/// among the genomes before it.
proof fn lemma_tick_without_lost_genomes<O, E: Environment, S: Strategy<O, E>>(
    strategy: S,
    cap: nat,
    policy: MergePolicy,
    before: World<O, E>,
    after: World<O, E>,
    record: TickRecord<O>,
)
    requires
        tick_explained_by(strategy, cap, policy, before, after, record),
        record.newborn.len() == 0,
    ensures
        genomes_of(after.organisms).to_multiset().subset_of(
            genomes_of(before.organisms).to_multiset(),
        ),
{
    broadcast use vstd::multiset::group_multiset_axioms;

    let genomes = genomes_of(before.organisms);
    let visited = visiting_order(genomes);
    let survivors = spared(visited, record.dead);
    let pool = merged(survivors, genomes_of(record.newborn), cap, policy);
    let left = settled(pool, record.picks, cap);
    lemma_tick_genomes(strategy, cap, policy, before, after, record);
    assert(genomes_of(after.organisms) == left);
    genomes.lemma_reverse_to_multiset();
    lemma_spared_are_visited(visited, record.dead);
    assert(pool == survivors);
    if pool.len() > cap {
        let placed = visiting_order(before.organisms);
        assert(genomes_of(placed) == visited);
        lemma_spared_genomes(placed, record.dead);
        assert(merged(spared(placed, record.dead), record.newborn, cap, policy).len()
            == pool.len());
        lemma_picked_within_pool(pool, record.picks);
    }
}

/// A tick without births cannot grow the population.
pub proof fn lemma_tick_without_births<O, E: Environment, S: Strategy<O, E>>(
    strategy: S,
    cap: nat,
    policy: MergePolicy,
    before: World<O, E>,
    after: World<O, E>,
    record: TickRecord<O>,
)
    requires
        tick_explained_by(strategy, cap, policy, before, after, record),
        record.newborn.len() == 0,
    ensures
        after.organisms.len() <= before.organisms.len(),
        forall|i: int|
            0 <= i < after.organisms.len() ==> genomes_of(before.organisms).contains(
                (#[trigger] after.organisms[i]).genes@,
            ),
        genomes_of(after.organisms).to_multiset().subset_of(
            genomes_of(before.organisms).to_multiset(),
        ),
{
    lemma_tick_without_lost_genomes(strategy, cap, policy, before, after, record);
    lemma_spared_are_visited(visiting_order(before.organisms), record.dead);
    lemma_tick_lineage(strategy, cap, policy, before, after, record);
    assert forall|i: int| 0 <= i < after.organisms.len() implies genomes_of(
        before.organisms,
    ).contains((#[trigger] after.organisms[i]).genes@) by {
        let genes = after.organisms[i].genes@;
        if !genomes_of(before.organisms).contains(genes) {
            assert(genomes_of(record.newborn).contains(genes));
        }
    }
}

/// The genomes after a tick, as they follow from the genomes before it, from
/// what `death` answered, from the genomes of the children and from what
/// the sampler drew.
pub open spec fn next_genomes(
    before: Seq<Seq<Base>>,
    dead: Seq<bool>,
    born: Seq<Seq<Base>>,
    picks: Seq<usize>,
    cap: nat,
    policy: MergePolicy,
) -> Seq<Seq<Base>> {
    settled(merged(spared(visiting_order(before), dead), born, cap, policy), picks, cap)
}

/// The genomes of the spared are the spared among the genomes.
proof fn lemma_spared_genomes<O>(visited: Seq<Organism<O>>, dead: Seq<bool>)
    requires
        dead.len() == visited.len(),
    ensures
        genomes_of(spared(visited, dead)) == spared(genomes_of(visited), dead),
    decreases dead.len(),
{
    if dead.len() > 0 {
        lemma_spared_genomes(visited.drop_last(), dead.drop_last());
        let earlier = spared(visited.drop_last(), dead.drop_last());
        assert(genomes_of(visited).drop_last() == genomes_of(visited.drop_last()));
        assert(genomes_of(visited).last() == visited.last().genes@);
        assert(genomes_of(earlier.push(visited.last())) == genomes_of(earlier).push(
            visited.last().genes@,
        ));
    }
}

/// The genomes after a tick are a function of the genomes before it and of
/// the answers: phenotypes, environments and the rules themselves play no
/// part in them.
pub proof fn lemma_tick_genomes<O, E: Environment, S: Strategy<O, E>>(
    strategy: S,
    cap: nat,
    policy: MergePolicy,
    before: World<O, E>,
    after: World<O, E>,
    record: TickRecord<O>,
)
    requires
        tick_explained_by(strategy, cap, policy, before, after, record),
    ensures
        genomes_of(after.organisms) == next_genomes(
            genomes_of(before.organisms),
            record.dead,
            genomes_of(record.newborn),
            record.picks,
            cap,
            policy,
        ),
{
    let visited = visiting_order(before.organisms);
    let survivors = spared(visited, record.dead);
    let pool = merged(survivors, record.newborn, cap, policy);
    let left = settled(pool, record.picks, cap);
    assert(genomes_of(visited) == visiting_order(genomes_of(before.organisms)));
    lemma_spared_genomes(visited, record.dead);
    assert(genomes_of(pool) == merged(
        genomes_of(survivors),
        genomes_of(record.newborn),
        cap,
        policy,
    ));
    assert(genomes_of(left) == settled(genomes_of(pool), record.picks, cap));
    assert forall|i: int| 0 <= i < left.len() implies after.organisms[i].genes@
        == left[i].genes@ by {
        assert(reacted(
            strategy,
            after.environment,
            left[i],
            record.learned[i],
            after.organisms[i],
        ));
    }
    assert(genomes_of(after.organisms) == genomes_of(left));
}

/// Two ticks got the same answers where `death` answered alike, the
/// children have the same genomes and the sampler drew alike.
pub open spec fn same_answers<O>(first: TickRecord<O>, second: TickRecord<O>) -> bool {
    &&& first.dead == second.dead
    &&& genomes_of(first.newborn) == genomes_of(second.newborn)
    &&& first.picks == second.picks
}

/// The engine adds no chance of its own: two ticks that start from the same
/// genomes and get the same answers end with the same genomes in the same
/// order.
pub proof fn lemma_tick_determined_by_answers<O, E: Environment, S: Strategy<O, E>>(
    strategy: S,
    cap: nat,
    policy: MergePolicy,
    first_before: World<O, E>,
    first_after: World<O, E>,
    first_record: TickRecord<O>,
    second_before: World<O, E>,
    second_after: World<O, E>,
    second_record: TickRecord<O>,
)
    requires
        tick_explained_by(strategy, cap, policy, first_before, first_after, first_record),
        tick_explained_by(strategy, cap, policy, second_before, second_after, second_record),
        genomes_of(first_before.organisms) == genomes_of(second_before.organisms),
        same_answers(first_record, second_record),
    ensures
        genomes_of(first_after.organisms) == genomes_of(second_after.organisms),
{
    lemma_tick_genomes(strategy, cap, policy, first_before, first_after, first_record);
    lemma_tick_genomes(strategy, cap, policy, second_before, second_after, second_record);
}

/// The rules give no children to an organism that carries one of these
/// genomes, whatever its phenotype and its environment.
pub open spec fn is_barren<O, E, S: Strategy<O, E>>(strategy: S, genomes: Seq<Seq<Base>>) -> bool {
    forall|org: Organism<O>, env: E, litter: Seq<Seq<Base>>|
        genomes.contains(org.genes@) && #[trigger] strategy.may_bear(&org, &env, litter)
            ==> litter.len() == 0
}

/// Litters that are all empty hold no genome.
proof fn lemma_empty_litters(litters: Seq<Seq<Seq<Base>>>)
    requires
        forall|v: int| 0 <= v < litters.len() ==> (#[trigger] litters[v]).len() == 0,
    ensures
        litters.flatten() == Seq::<Seq<Base>>::empty(),
    decreases litters.len(),
{
    if litters.len() > 0 {
        lemma_empty_litters(litters.drop_first());
    }
}

/// Nothing offsets death where nothing is born: a tick on a population
/// whose genomes are all barren bears no children. The population does not
/// grow, its genomes are, counted with repetition, among the genomes before
/// the tick, and so they are barren again.
pub proof fn lemma_tick_barren<O, E: Environment, S: Strategy<O, E>>(
    strategy: S,
    cap: nat,
    policy: MergePolicy,
    before: World<O, E>,
    after: World<O, E>,
)
    requires
        is_tick(strategy, cap, policy, before, after),
        is_barren(strategy, genomes_of(before.organisms)),
    ensures
        after.organisms.len() <= before.organisms.len(),
        genomes_of(after.organisms).to_multiset().subset_of(
            genomes_of(before.organisms).to_multiset(),
        ),
        is_barren(strategy, genomes_of(after.organisms)),
{
    let record = choose|record: TickRecord<O>| #[trigger]
        tick_explained_by(strategy, cap, policy, before, after, record);
    let visited = visiting_order(before.organisms);
    assert forall|v: int| 0 <= v < record.litters.len() implies (#[trigger] record.litters[v]).len()
        == 0 by {
        assert(visit_allowed(
            strategy,
            before.environment,
            visited[v],
            record.dead[v],
            record.litters[v],
        ));
        let p = before.organisms.len() - 1 - v;
        assert(visited[v] == before.organisms[p]);
        assert(genomes_of(before.organisms)[p] == visited[v].genes@);
    }
    lemma_empty_litters(record.litters);
    assert(record.newborn.len() == 0) by {
        assert(genomes_of(record.newborn).len() == record.newborn.len());
    }
    lemma_tick_without_births(strategy, cap, policy, before, after, record);
    assert forall|org: Organism<O>, env: E, litter: Seq<Seq<Base>>|
        genomes_of(after.organisms).contains(org.genes@) && #[trigger] strategy.may_bear(
            &org,
            &env,
            litter,
        ) implies litter.len() == 0 by {
        let i = choose|i: int|
            0 <= i < after.organisms.len() && genomes_of(after.organisms)[i] == org.genes@;
        assert(genomes_of(before.organisms).contains(after.organisms[i].genes@));
    }
}

/// A history lists the worlds of a simulation tick by tick: each entry after
/// the first can follow the entry before it in one tick.
pub open spec fn is_history<O, E: Environment, S: Strategy<O, E>>(
    strategy: S,
    cap: nat,
    policy: MergePolicy,
    worlds: Seq<World<O, E>>,
) -> bool {
    forall|i: int| 0 < i < worlds.len() ==> #[trigger] is_step(strategy, cap, policy, worlds, i)
}

/// The world at position `i` of the list can follow the world before it in
/// one tick.
pub open spec fn is_step<O, E: Environment, S: Strategy<O, E>>(
    strategy: S,
    cap: nat,
    policy: MergePolicy,
    worlds: Seq<World<O, E>>,
    i: int,
) -> bool {
    is_tick(strategy, cap, policy, worlds[i - 1], worlds[i])
}

/// Capacity invariant along a run: every population that is reached by at
/// least one tick is within the capacity.
pub proof fn lemma_history_within_capacity<O, E: Environment, S: Strategy<O, E>>(
    strategy: S,
    cap: nat,
    policy: MergePolicy,
    worlds: Seq<World<O, E>>,
    i: int,
)
    requires
        is_history(strategy, cap, policy, worlds),
        0 < i < worlds.len(),
    ensures
        worlds[i].organisms.len() <= cap,
{
    assert(is_step(strategy, cap, policy, worlds, i));
    lemma_tick_within_capacity(strategy, cap, policy, worlds[i - 1], worlds[i]);
}

/// Along a history of barren genomes nothing is ever born: every population
/// is no larger than the one before it, and its genomes are, counted with
/// repetition, among the genomes at the start.
pub proof fn lemma_history_barren<O, E: Environment, S: Strategy<O, E>>(
    strategy: S,
    cap: nat,
    policy: MergePolicy,
    worlds: Seq<World<O, E>>,
    i: int,
)
    requires
        is_history(strategy, cap, policy, worlds),
        is_barren(strategy, genomes_of(worlds[0].organisms)),
        0 <= i < worlds.len(),
    ensures
        is_barren(strategy, genomes_of(worlds[i].organisms)),
        genomes_of(worlds[i].organisms).to_multiset().subset_of(
            genomes_of(worlds[0].organisms).to_multiset(),
        ),
        worlds[i].organisms.len() <= worlds[0].organisms.len(),
        i > 0 ==> worlds[i].organisms.len() <= worlds[i - 1].organisms.len(),
    decreases i,
{
    broadcast use vstd::multiset::group_multiset_axioms;

    if i > 0 {
        lemma_history_barren(strategy, cap, policy, worlds, i - 1);
        assert(is_step(strategy, cap, policy, worlds, i));
        lemma_tick_barren(strategy, cap, policy, worlds[i - 1], worlds[i]);
    }
}

/// The answers that explain a history, tick by tick: the entry at position
/// `i` explains the tick that leads to the world at position `i`. The first
/// entry explains nothing.
pub open spec fn history_explained_by<O, E: Environment, S: Strategy<O, E>>(
    strategy: S,
    cap: nat,
    policy: MergePolicy,
    worlds: Seq<World<O, E>>,
    records: Seq<TickRecord<O>>,
) -> bool {
    &&& records.len() == worlds.len()
    &&& forall|i: int|
        0 < i < worlds.len() ==> tick_explained_by(
            strategy,
            cap,
            policy,
            worlds[i - 1],
            worlds[i],
            #[trigger] records[i],
        )
}

/// Every history has answers that explain it.
pub proof fn lemma_history_has_answers<O, E: Environment, S: Strategy<O, E>>(
    strategy: S,
    cap: nat,
    policy: MergePolicy,
    worlds: Seq<World<O, E>>,
) -> (records: Seq<TickRecord<O>>)
    requires
        is_history(strategy, cap, policy, worlds),
    ensures
        history_explained_by(strategy, cap, policy, worlds, records),
{
    let records = Seq::new(
        worlds.len(),
        |i: int|
            choose|record: TickRecord<O>| #[trigger]
                tick_explained_by(strategy, cap, policy, worlds[i - 1], worlds[i], record),
    );
    assert forall|i: int| 0 < i < worlds.len() implies tick_explained_by(
        strategy,
        cap,
        policy,
        worlds[i - 1],
        worlds[i],
        #[trigger] records[i],
    ) by {
        assert(is_step(strategy, cap, policy, worlds, i));
    }
    records
}

/// Determinism of the engine along a run: two histories of the same length
/// that start from the same genomes and get the same answers at every tick
/// hold the same genomes, in the same order, after every tick.
pub proof fn lemma_history_determined_by_answers<O, E: Environment, S: Strategy<O, E>>(
    strategy: S,
    cap: nat,
    policy: MergePolicy,
    first: Seq<World<O, E>>,
    first_records: Seq<TickRecord<O>>,
    second: Seq<World<O, E>>,
    second_records: Seq<TickRecord<O>>,
    i: int,
)
    requires
        history_explained_by(strategy, cap, policy, first, first_records),
        history_explained_by(strategy, cap, policy, second, second_records),
        first.len() == second.len(),
        genomes_of(first[0].organisms) == genomes_of(second[0].organisms),
        forall|k: int|
            0 < k < first.len() ==> same_answers(
                #[trigger] first_records[k],
                second_records[k],
            ),
        0 <= i < first.len(),
    ensures
        genomes_of(first[i].organisms) == genomes_of(second[i].organisms),
    decreases i,
{
    if i > 0 {
        lemma_history_determined_by_answers(
            strategy,
            cap,
            policy,
            first,
            first_records,
            second,
            second_records,
            i - 1,
        );
        assert(same_answers(first_records[i], second_records[i]));
        lemma_tick_determined_by_answers(
            strategy,
            cap,
            policy,
            first[i - 1],
            first[i],
            first_records[i],
            second[i - 1],
            second[i],
            second_records[i],
        );
    }
}

/// Whether the population is logged at tick `t`: a cadence is set and divides
/// the tick.
pub open spec fn is_print_tick(t: int, print_freq: Option<u32>) -> bool {
    match print_freq {
        Some(f) => f > 0 && t % (f as int) == 0,
        None => false,
    }
}

/// The genomes that are logged, in order, along a history that starts at
/// tick `start`: the population reached at tick `start + i` is logged where
/// that tick is a print tick. The starting population is never logged.
pub open spec fn logged<O, E>(worlds: Seq<World<O, E>>, start: int, print_freq: Option<u32>) -> Seq<
    Seq<Seq<Base>>,
>
    decreases worlds.len(),
{
    if worlds.len() <= 1 {
        Seq::empty()
    } else {
        let earlier = logged(worlds.drop_last(), start, print_freq);
        if is_print_tick(start + worlds.len() - 1, print_freq) {
            earlier.push(genomes_of(worlds.last().organisms))
        } else {
            earlier
        }
    }
}

/// The snapshots held in a log.
pub open spec fn log_view(log: Vec<Vec<BaseSeq>>) -> Seq<Seq<Seq<Base>>> {
    Seq::new(log@.len(), |i: int| snapshot_view(log@[i]))
}

/// Whether the population is logged at tick `t` under the cadence
/// `print_freq`.
pub fn print_due(t: i32, print_freq: Option<u32>) -> (due: bool)
    requires
        print_freq != Some(0u32),
    ensures
        due == is_print_tick(t as int, print_freq),
{
    match print_freq {
        None => false,
        Some(f) => {
            let magnitude: u32 = if t >= 0 {
                t as u32
            } else {
                (-(t as i64)) as u32
            };
            proof {
                lemma_divides_negation(t as int, f as int);
            }
            magnitude % f == 0
        },
    }
}

/// A number divides another exactly when it divides its negation.
proof fn lemma_divides_negation(t: int, f: int)
    requires
        f > 0,
    ensures
        (t % f == 0) == ((-t) % f == 0),
{
    vstd::arithmetic::div_mod::lemma_fundamental_div_mod(t, f);
    vstd::arithmetic::div_mod::lemma_fundamental_div_mod(-t, f);
    if t % f == 0 {
        vstd::arithmetic::div_mod::lemma_mod_multiples_basic(-(t / f), f);
        assert(-t == -(t / f) * f) by (nonlinear_arith)
            requires
                t == f * (t / f),
        ;
    }
    if (-t) % f == 0 {
        vstd::arithmetic::div_mod::lemma_mod_multiples_basic(-((-t) / f), f);
        assert(t == -((-t) / f) * f) by (nonlinear_arith)
            requires
                -t == f * ((-t) / f),
        ;
    }
}

/// A population simulation: the organisms, their environment, the rules of
/// the experiment and the one random source that every draw comes from.
#[derive(Clone)]
pub struct Simulation<O, E, S> {
    /// The rules of the experiment.
    pub strategy: S,
    /// All organisms in the simulation.
    pub organisms: Vec<Organism<O>>,
    pub environment: E,
    /// The capacity: no tick leaves more organisms than this.
    pub max_sequences: usize,
    pub merge_policy: MergePolicy,
    /// The current tick.
    pub t: i32,
    /// The tick at which a run ends.
    pub max_t: i32,
    pub rng: StdRng,
}

/// Turns the genomes of one litter into children: an empty genome is
/// discarded, every other gets its phenotype built, in the order of the
/// litter.
fn rear<O, E, S: Strategy<O, E>>(
    strategy: &S,
    litter: Vec<BaseSeq>,
    children: &mut Vec<Organism<O>>,
    rng: &mut StdRng,
)
    requires
        forall|c: int|
            0 <= c < old(children)@.len() ==> birth_allowed(*strategy, #[trigger] old(children)@[c]),
    ensures
        genomes_of(final(children)@) == genomes_of(old(children)@) + nonempty_genomes(
            snapshot_view(litter),
        ),
        forall|c: int|
            0 <= c < final(children)@.len() ==> birth_allowed(
                *strategy,
                #[trigger] final(children)@[c],
            ),
{
    let ghost candidates = snapshot_view(litter);
    let ghost earlier = genomes_of(children@);
    assert(candidates.take(0) == Seq::<Seq<Base>>::empty());
    for genes in it: litter
        invariant
            it.seq().len() == candidates.len(),
            forall|k: int| 0 <= k < candidates.len() ==> (#[trigger] it.seq()[k])@ == candidates[k],
            genomes_of(children@) == earlier + nonempty_genomes(candidates.take(it.index() as int)),
            forall|c: int|
                0 <= c < children@.len() ==> birth_allowed(*strategy, #[trigger] children@[c]),
    {
        proof {
            let seen = candidates.take(it.index() as int);
            assert(candidates.take(it.index() + 1) == seen.push(genes@));
            seen.lemma_filter_push(genes@, |genes: Seq<Base>| genes.len() > 0);
        }
        if genes.len() > 0 {
            let body = strategy.build(&genes, rng);
            let ghost grown = genomes_of(children@);
            children.push(Organism { genes, body });
            assert(genomes_of(children@) == grown.push(genes@));
        }
    }
    assert(candidates.take(candidates.len() as int) == candidates);
}

/// The selection pass. It visits every organism once, from the last to the
/// first. A dead organism is dropped. A survivor is kept, and each nonempty
/// genome that it reproduces becomes a child with a newly built phenotype.
/// Returns the survivors, the children and what the rules answered.
fn selection_pass<O, E, S: Strategy<O, E>>(
    strategy: &S,
    organisms: &mut Vec<Organism<O>>,
    env: &E,
    rng: &mut StdRng,
) -> (out: (Vec<Organism<O>>, Vec<Organism<O>>, Ghost<(Seq<bool>, Seq<Seq<Seq<Base>>>)>))
    ensures
        final(organisms)@.len() == 0,
        out.2@.0.len() == old(organisms)@.len(),
        out.2@.1.len() == old(organisms)@.len(),
        forall|v: int|
            0 <= v < old(organisms)@.len() ==> visit_allowed(
                *strategy,
                *env,
                #[trigger] visiting_order(old(organisms)@)[v],
                out.2@.0[v],
                out.2@.1[v],
            ),
        out.0@ == spared(visiting_order(old(organisms)@), out.2@.0),
        genomes_of(out.1@) == nonempty_genomes(out.2@.1.flatten()),
        forall|c: int| 0 <= c < out.1@.len() ==> birth_allowed(*strategy, #[trigger] out.1@[c]),
{
    let ghost before = organisms@;
    let ghost visited = visiting_order(before);
    let mut survivors: Vec<Organism<O>> = Vec::new();
    let mut children: Vec<Organism<O>> = Vec::new();
    let ghost mut dead: Seq<bool> = Seq::empty();
    let ghost mut litters: Seq<Seq<Seq<Base>>> = Seq::empty();
    assert(visited.take(0) == Seq::<Organism<O>>::empty());
    assert(genomes_of(children@) == nonempty_genomes(litters.flatten()));
    while organisms.len() > 0
        invariant
            visited == visiting_order(before),
            organisms@ == before.take(organisms@.len() as int),
            organisms@.len() <= before.len(),
            dead.len() == before.len() - organisms@.len(),
            litters.len() == dead.len(),
            forall|v: int|
                0 <= v < dead.len() ==> visit_allowed(
                    *strategy,
                    *env,
                    #[trigger] visited[v],
                    dead[v],
                    litters[v],
                ),
            survivors@ == spared(visited.take(dead.len() as int), dead),
            genomes_of(children@) == nonempty_genomes(litters.flatten()),
            forall|c: int|
                0 <= c < children@.len() ==> birth_allowed(*strategy, #[trigger] children@[c]),
        decreases organisms@.len(),
    {
        let ghost visit = dead.len() as int;
        let ghost born = genomes_of(children@);
        if let Some(org) = organisms.pop() {
            assert(org == visited[visit]);
            let died = strategy.death(&org, env, rng);
            let ghost litter: Seq<Seq<Base>> = Seq::empty();
            if !died {
                let candidates = strategy.reproduce(&org, env, rng);
                proof {
                    litter = snapshot_view(candidates);
                }
                rear(strategy, candidates, &mut children, rng);
                survivors.push(org);
            }
            proof {
                assert(visited.take(visit + 1).drop_last() == visited.take(visit));
                assert(dead.push(died).drop_last() == dead);
                litters.lemma_flatten_push(litter);
                Seq::filter_distributes_over_add(
                    litters.flatten(),
                    litter,
                    |genes: Seq<Base>| genes.len() > 0,
                );
                assert(nonempty_genomes(Seq::<Seq<Base>>::empty()) == Seq::<Seq<Base>>::empty());
                dead = dead.push(died);
                litters = litters.push(litter);
            }
        }
    }
    assert(visited.take(dead.len() as int) == visited);
    (survivors, children, Ghost((dead, litters)))
}

/// The reaction pass: every organism learns, then updates, against the
/// environment as it is now. Only phenotypes change. Returns the phenotypes
/// as they were between the two.
fn reaction_pass<O, E, S: Strategy<O, E>>(
    strategy: &S,
    organisms: &mut Vec<Organism<O>>,
    env: &E,
    rng: &mut StdRng,
) -> (learned: Ghost<Seq<O>>)
    ensures
        final(organisms)@.len() == old(organisms)@.len(),
        learned@.len() == old(organisms)@.len(),
        forall|i: int|
            0 <= i < old(organisms)@.len() ==> reacted(
                *strategy,
                *env,
                old(organisms)@[i],
                learned@[i],
                #[trigger] final(organisms)@[i],
            ),
{
    let n = organisms.len();
    let ghost mut learned: Seq<O> = Seq::empty();
    let mut i: usize = 0;
    while i < n
        invariant
            i <= n,
            n == organisms@.len(),
            n == old(organisms)@.len(),
            learned.len() == i,
            forall|k: int|
                0 <= k < i ==> reacted(
                    *strategy,
                    *env,
                    old(organisms)@[k],
                    learned[k],
                    #[trigger] organisms@[k],
                ),
            forall|k: int| i <= k < n ==> organisms@[k] == old(organisms)@[k],
        decreases n - i,
    {
        let ghost between;
        let org = &mut organisms[i];
        strategy.learn(&org.genes, &mut org.body, env, rng);
        proof {
            between = org.body;
        }
        strategy.update(&org.genes, &mut org.body, env, rng);
        proof {
            learned = learned.push(between);
        }
        i += 1;
    }
    Ghost(learned)
}

impl<O, E: Environment, S: Strategy<O, E>> Simulation<O, E, S> {
    /// The environment and the population of the simulation.
    pub open spec fn world(self) -> World<O, E> {
        World { environment: self.environment, organisms: self.organisms@ }
    }

    /// Runs one tick: the selection pass with reproduction, the merge under
    /// the capacity, the down-sampling guard, one advance of the environment,
    /// the reaction of every organism, and the tick counter.
    pub fn run_step(&mut self)
        requires
            old(self).t < i32::MAX,
        ensures
            final(self).t == old(self).t + 1,
            final(self).max_t == old(self).max_t,
            final(self).max_sequences == old(self).max_sequences,
            final(self).merge_policy == old(self).merge_policy,
            final(self).strategy == old(self).strategy,
            final(self).organisms@.len() <= final(self).max_sequences,
            is_tick(
                old(self).strategy,
                old(self).max_sequences as nat,
                old(self).merge_policy,
                old(self).world(),
                final(self).world(),
            ),
    {
        let ghost before = self.world();
        let cap = self.max_sequences;
        let policy = self.merge_policy;
        let (survivors, children, Ghost(answers)) = selection_pass(
            &self.strategy,
            &mut self.organisms,
            &self.environment,
            &mut self.rng,
        );
        let ghost newborn = children@;
        let pool = merge_capped(survivors, children, cap, policy);
        let ghost pool_before = pool@;
        let left = downsample(pool, cap, &mut self.rng);
        let ghost picks = if pool_before.len() > cap {
            choose|picks: Seq<usize>|
                distinct_below(picks, pool_before.len()) && left@ == #[trigger] picked(
                    pool_before,
                    picks,
                )
        } else {
            Seq::empty()
        };
        let ghost left_before = left@;
        self.organisms = left;
        self.environment.update(&mut self.rng);
        let Ghost(learned) = reaction_pass(
            &self.strategy,
            &mut self.organisms,
            &self.environment,
            &mut self.rng,
        );
        self.t += 1;
        proof {
            let record = TickRecord {
                dead: answers.0,
                litters: answers.1,
                newborn,
                picks,
                learned,
            };
            assert(left_before == settled(pool_before, picks, cap as nat));
            assert(tick_explained_by(
                self.strategy,
                cap as nat,
                policy,
                before,
                self.world(),
                record,
            ));
        }
    }

    /// A copy of the genomes of the population, in its order.
    pub fn genomes(&self) -> (snapshot: Vec<BaseSeq>)
        ensures
            snapshot_view(snapshot) == genomes_of(self.organisms@),
    {
        let mut snapshot: Vec<BaseSeq> = Vec::new();
        let mut i: usize = 0;
        while i < self.organisms.len()
            invariant
                i <= self.organisms@.len(),
                snapshot@.len() == i,
                forall|k: int| 0 <= k < i ==> snapshot@[k]@ == self.organisms@[k].genes@,
            decreases self.organisms@.len() - i,
        {
            let genes = self.organisms[i].genes.clone();
            assert(genes@ == self.organisms@[i as int].genes@);
            snapshot.push(genes);
            i += 1;
        }
        snapshot
    }

    /// Runs ticks until the tick counter reaches `max_t`; a simulation that
    /// is already there is left as it is, its random source too. Under a print cadence the genomes
    /// of the population are logged after every tick that the cadence
    /// divides, and the log is returned for the caller to print. A cadence
    /// of zero divides nothing and is accepted only where no tick is run.
    pub fn run(&mut self, print_freq: Option<u32>) -> (log: Vec<Vec<BaseSeq>>)
        requires
            print_freq == Some(0u32) ==> old(self).t >= old(self).max_t,
        ensures
            final(self).t == if old(self).t < old(self).max_t {
                old(self).max_t
            } else {
                old(self).t
            },
            final(self).max_t == old(self).max_t,
            final(self).max_sequences == old(self).max_sequences,
            final(self).merge_policy == old(self).merge_policy,
            final(self).strategy == old(self).strategy,
            exists|worlds: Seq<World<O, E>>| #[trigger]
                run_explained_by(*old(self), *final(self), log_view(log), print_freq, worlds),
            old(self).t < old(self).max_t ==> final(self).organisms@.len() <= old(
                self
            ).max_sequences,
            old(self).t >= old(self).max_t ==> final(self).rng == old(self).rng,
    {
        let mut log: Vec<Vec<BaseSeq>> = Vec::new();
        let ghost mut worlds = seq![self.world()];
        while self.t < self.max_t
            invariant
                self.max_t == old(self).max_t,
                self.max_sequences == old(self).max_sequences,
                self.merge_policy == old(self).merge_policy,
                self.strategy == old(self).strategy,
                print_freq == Some(0u32) ==> old(self).t >= old(self).max_t,
                old(self).t <= self.t,
                old(self).t < old(self).max_t ==> self.t <= self.max_t,
                old(self).t >= old(self).max_t ==> self.t == old(self).t,
                old(self).t >= old(self).max_t ==> self.rng == old(self).rng,
                worlds.len() == self.t - old(self).t + 1,
                worlds[0] == old(self).world(),
                worlds.last() == self.world(),
                is_history(
                    self.strategy,
                    self.max_sequences as nat,
                    self.merge_policy,
                    worlds,
                ),
                log_view(log) == logged(worlds, old(self).t as int, print_freq),
                self.t > old(self).t ==> self.organisms@.len() <= self.max_sequences,
            decreases self.max_t - self.t,
        {
            self.run_step();
            proof {
                let longer = worlds.push(self.world());
                assert(longer.drop_last() == worlds);
                assert forall|i: int| 0 < i < longer.len() implies #[trigger] is_step(
                    self.strategy,
                    self.max_sequences as nat,
                    self.merge_policy,
                    longer,
                    i,
                ) by {
                    if i < worlds.len() {
                        assert(is_step(
                            self.strategy,
                            self.max_sequences as nat,
                            self.merge_policy,
                            worlds,
                            i,
                        ));
                    }
                }
                worlds = longer;
            }
            if print_due(self.t, print_freq) {
                let snapshot = self.genomes();
                let ghost earlier = log_view(log);
                log.push(snapshot);
                assert(log_view(log) == earlier.push(snapshot_view(snapshot)));
            }
        }
        proof {
            assert(run_explained_by(*old(self), *self, log_view(log), print_freq, worlds));
        }
        log
    }
}

/// A run leads from the simulation `before` to the simulation `after` and
/// writes `log` when the simulation passes through `worlds`, one entry per
/// tick and one for the start.
pub open spec fn run_explained_by<O, E: Environment, S: Strategy<O, E>>(
    before: Simulation<O, E, S>,
    after: Simulation<O, E, S>,
    log: Seq<Seq<Seq<Base>>>,
    print_freq: Option<u32>,
    worlds: Seq<World<O, E>>,
) -> bool {
    &&& worlds.len() == after.t - before.t + 1
    &&& worlds[0] == before.world()
    &&& worlds.last() == after.world()
    &&& is_history(before.strategy, before.max_sequences as nat, before.merge_policy, worlds)
    &&& log == logged(worlds, before.t as int, print_freq)
}

/// A run of barren genomes cannot grow the population: after the run the
/// population is no larger than before it, and its genomes are, counted
/// with repetition, among the genomes before the run.
pub proof fn lemma_run_barren<O, E: Environment, S: Strategy<O, E>>(
    before: Simulation<O, E, S>,
    after: Simulation<O, E, S>,
    log: Seq<Seq<Seq<Base>>>,
    print_freq: Option<u32>,
    worlds: Seq<World<O, E>>,
)
    requires
        run_explained_by(before, after, log, print_freq, worlds),
        before.t <= after.t,
        is_barren(before.strategy, genomes_of(before.organisms@)),
    ensures
        after.organisms@.len() <= before.organisms@.len(),
        genomes_of(after.organisms@).to_multiset().subset_of(
            genomes_of(before.organisms@).to_multiset(),
        ),
        is_barren(before.strategy, genomes_of(after.organisms@)),
{
    lemma_history_barren(
        before.strategy,
        before.max_sequences as nat,
        before.merge_policy,
        worlds,
        worlds.len() - 1,
    );
}

/// Determinism of the engine over whole runs: two runs under the same rules
/// and the same configuration that start from the same genomes at the same
/// tick, run as long and get the same answers at every tick end with the
/// same genomes in the same order, and write the same log.
pub proof fn lemma_run_determined_by_answers<O, E: Environment, S: Strategy<O, E>>(
    first_before: Simulation<O, E, S>,
    first_after: Simulation<O, E, S>,
    first_log: Seq<Seq<Seq<Base>>>,
    first_worlds: Seq<World<O, E>>,
    first_records: Seq<TickRecord<O>>,
    second_before: Simulation<O, E, S>,
    second_after: Simulation<O, E, S>,
    second_log: Seq<Seq<Seq<Base>>>,
    second_worlds: Seq<World<O, E>>,
    second_records: Seq<TickRecord<O>>,
    print_freq: Option<u32>,
)
    requires
        run_explained_by(first_before, first_after, first_log, print_freq, first_worlds),
        run_explained_by(second_before, second_after, second_log, print_freq, second_worlds),
        first_before.strategy == second_before.strategy,
        first_before.max_sequences == second_before.max_sequences,
        first_before.merge_policy == second_before.merge_policy,
        first_before.t == second_before.t,
        first_after.t == second_after.t,
        first_before.t <= first_after.t,
        genomes_of(first_before.organisms@) == genomes_of(second_before.organisms@),
        history_explained_by(
            first_before.strategy,
            first_before.max_sequences as nat,
            first_before.merge_policy,
            first_worlds,
            first_records,
        ),
        history_explained_by(
            first_before.strategy,
            first_before.max_sequences as nat,
            first_before.merge_policy,
            second_worlds,
            second_records,
        ),
        forall|k: int|
            0 < k < first_worlds.len() ==> same_answers(
                #[trigger] first_records[k],
                second_records[k],
            ),
    ensures
        forall|i: int|
            0 <= i < first_worlds.len() ==> genomes_of((#[trigger] first_worlds[i]).organisms)
                == genomes_of(second_worlds[i].organisms),
        genomes_of(first_after.organisms@) == genomes_of(second_after.organisms@),
        first_log == second_log,
{
    let strategy = first_before.strategy;
    let cap = first_before.max_sequences as nat;
    let policy = first_before.merge_policy;
    assert forall|i: int| 0 <= i < first_worlds.len() implies genomes_of(
        (#[trigger] first_worlds[i]).organisms,
    ) == genomes_of(second_worlds[i].organisms) by {
        lemma_history_determined_by_answers(
            strategy,
            cap,
            policy,
            first_worlds,
            first_records,
            second_worlds,
            second_records,
            i,
        );
    }
    assert(genomes_of(first_worlds.last().organisms) == genomes_of(
        second_worlds.last().organisms,
    ));
    lemma_logged_by_genomes(first_worlds, second_worlds, first_before.t as int, print_freq);
}

/// The log of a history depends on its genomes only.
proof fn lemma_logged_by_genomes<O, E>(
    first: Seq<World<O, E>>,
    second: Seq<World<O, E>>,
    start: int,
    print_freq: Option<u32>,
)
    requires
        first.len() == second.len(),
        forall|i: int|
            0 <= i < first.len() ==> genomes_of((#[trigger] first[i]).organisms) == genomes_of(
                second[i].organisms,
            ),
    ensures
        logged(first, start, print_freq) == logged(second, start, print_freq),
    decreases first.len(),
{
    if first.len() > 1 {
        assert forall|i: int| 0 <= i < first.drop_last().len() implies genomes_of(
            (#[trigger] first.drop_last()[i]).organisms,
        ) == genomes_of(second.drop_last()[i].organisms) by {
            assert(first.drop_last()[i] == first[i]);
        }
        lemma_logged_by_genomes(first.drop_last(), second.drop_last(), start, print_freq);
        assert(first.last() == first[first.len() - 1]);
    }
}

} // verus!
