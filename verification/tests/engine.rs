use evol_sim::e1;
use evol_sim::evol_prim::{clone_with_mutation, random_base, Base, BaseSeq, Environment, Organism};
use evol_sim::random::Probability;
use evol_sim::sim::{
    downsample, merge_capped, print_due, take_picked, MergePolicy, Simulation, Strategy,
};
use rand::rngs::StdRng;
use rand::SeedableRng;

use Base::{A, C, G, T};

#[derive(Clone)]
struct Still;

impl Environment for Still {
    fn update(&mut self, _rng: &mut StdRng) {}
}

#[derive(Clone)]
struct Clock {
    ticks: u32,
}

impl Environment for Clock {
    fn update(&mut self, _rng: &mut StdRng) {
        self.ticks += 1;
    }
}

fn ratio(numerator: u32, denominator: u32) -> Probability {
    Probability::checked_ratio(numerator, denominator).unwrap()
}

fn seed_population(genomes: Vec<BaseSeq>) -> Vec<Organism<()>> {
    genomes.into_iter().map(|genes| Organism { genes, body: () }).collect()
}

fn simulation<E, S>(
    strategy: S,
    organisms: Vec<Organism<()>>,
    environment: E,
    max_sequences: usize,
    max_t: i32,
    seed: u64,
) -> Simulation<(), E, S> {
    Simulation {
        strategy,
        organisms,
        environment,
        max_sequences,
        merge_policy: MergePolicy::TruncateChildren,
        t: 0,
        max_t,
        rng: StdRng::seed_from_u64(seed),
    }
}

/// Nobody dies; everybody has two mutated children.
#[derive(Clone)]
struct Doubling;

impl<E> Strategy<(), E> for Doubling {
    fn death(&self, _org: &Organism<()>, _env: &E, _rng: &mut StdRng) -> bool {
        false
    }

    fn reproduce(&self, org: &Organism<()>, _env: &E, rng: &mut StdRng) -> Vec<BaseSeq> {
        (0..2)
            .map(|_| clone_with_mutation(&org.genes, rng, ratio(1, 100), ratio(0, 1), ratio(1, 20)))
            .collect()
    }

    fn build(&self, _genes: &BaseSeq, _rng: &mut StdRng) {}

    fn learn(&self, _genes: &BaseSeq, _body: &mut (), _env: &E, _rng: &mut StdRng) {}

    fn update(&self, _genes: &BaseSeq, _body: &mut (), _env: &E, _rng: &mut StdRng) {}
}

/// Reproduces only with a fixed prefix; dies with chance one half.
struct PrefixOnly;

impl<E> Strategy<(), E> for PrefixOnly {
    fn death(&self, _org: &Organism<()>, _env: &E, rng: &mut StdRng) -> bool {
        ratio(1, 2).sample(rng)
    }

    fn reproduce(&self, org: &Organism<()>, _env: &E, rng: &mut StdRng) -> Vec<BaseSeq> {
        if org.genes.starts_with(&[A, T, A, T]) {
            vec![
                clone_with_mutation(&org.genes, rng, ratio(1, 100), ratio(1, 100), ratio(1, 20)),
                clone_with_mutation(&org.genes, rng, ratio(1, 100), ratio(1, 100), ratio(1, 20)),
            ]
        } else {
            Vec::new()
        }
    }

    fn build(&self, _genes: &BaseSeq, _rng: &mut StdRng) {}

    fn learn(&self, _genes: &BaseSeq, _body: &mut (), _env: &E, _rng: &mut StdRng) {}

    fn update(&self, _genes: &BaseSeq, _body: &mut (), _env: &E, _rng: &mut StdRng) {}
}

#[test]
fn two_doubling_organisms_grow_to_six() {
    let seeds = seed_population(vec![vec![A, T, A, T], vec![A, T, A, T]]);
    let mut sim = simulation(Doubling, seeds, Still, 400, 1, 1);
    sim.run_step();
    assert_eq!(sim.organisms.len(), 6);
    assert!(sim.organisms.len() <= sim.max_sequences);
    assert_eq!(sim.organisms[0].genes, vec![A, T, A, T]);
    assert_eq!(sim.organisms[1].genes, vec![A, T, A, T]);
    assert_eq!(sim.t, 1);
}

#[test]
fn population_without_the_prefix_dies_out() {
    let mut rng = StdRng::seed_from_u64(5);
    let mut genomes: Vec<BaseSeq> = Vec::new();
    while genomes.len() < 100 {
        let genome: BaseSeq = (0..8).map(|_| random_base(&mut rng)).collect();
        if !genome.starts_with(&[A, T, A, T]) {
            genomes.push(genome);
        }
    }
    let mut sim = simulation(PrefixOnly, seed_population(genomes), Still, 400, 300, 6);
    let mut last = sim.organisms.len();
    while sim.t < sim.max_t {
        sim.run_step();
        assert!(sim.organisms.len() <= 400);
        assert!(sim.organisms.len() <= last);
        last = sim.organisms.len();
    }
    assert_eq!(sim.t, 300);
    assert_eq!(sim.organisms.len(), 0);
}

#[test]
fn random_population_stays_within_capacity() {
    let mut rng = StdRng::seed_from_u64(7);
    let genomes: Vec<BaseSeq> =
        (0..100).map(|_| (0..8).map(|_| random_base(&mut rng)).collect()).collect();
    let mut sim = simulation(PrefixOnly, seed_population(genomes), Still, 400, 300, 8);
    let log = sim.run(None);
    assert!(log.is_empty());
    assert_eq!(sim.t, 300);
    assert!(sim.organisms.len() <= 400);
}

/// Records, in each phenotype, the ticks of the environment it has seen.
struct Watcher;

#[derive(Debug, Clone, PartialEq)]
struct Seen {
    events: Vec<(u8, u32)>,
}

impl Strategy<Seen, Clock> for Watcher {
    fn death(&self, _org: &Organism<Seen>, _env: &Clock, _rng: &mut StdRng) -> bool {
        false
    }

    fn reproduce(&self, org: &Organism<Seen>, _env: &Clock, _rng: &mut StdRng) -> Vec<BaseSeq> {
        vec![org.genes.clone()]
    }

    fn build(&self, _genes: &BaseSeq, _rng: &mut StdRng) -> Seen {
        Seen { events: Vec::new() }
    }

    fn learn(&self, _genes: &BaseSeq, body: &mut Seen, env: &Clock, _rng: &mut StdRng) {
        body.events.push((b'L', env.ticks));
    }

    fn update(&self, _genes: &BaseSeq, body: &mut Seen, env: &Clock, _rng: &mut StdRng) {
        body.events.push((b'U', env.ticks));
    }
}

#[test]
fn environment_advances_once_before_any_update() {
    let seeds = vec![
        Organism { genes: vec![A], body: Seen { events: Vec::new() } },
        Organism { genes: vec![C, G], body: Seen { events: Vec::new() } },
    ];
    let mut sim = Simulation {
        strategy: Watcher,
        organisms: seeds,
        environment: Clock { ticks: 0 },
        max_sequences: 400,
        merge_policy: MergePolicy::TruncateChildren,
        t: 0,
        max_t: 3,
        rng: StdRng::seed_from_u64(9),
    };
    sim.run_step();
    assert_eq!(sim.environment.ticks, 1);
    assert_eq!(sim.organisms.len(), 4);
    for org in &sim.organisms {
        assert_eq!(org.body.events, vec![(b'L', 1), (b'U', 1)]);
    }
    sim.run_step();
    assert_eq!(sim.environment.ticks, 2);
    assert_eq!(sim.organisms.len(), 8);
    for org in &sim.organisms[..4] {
        assert_eq!(org.body.events, vec![(b'L', 1), (b'U', 1), (b'L', 2), (b'U', 2)]);
    }
    for org in &sim.organisms[4..] {
        assert_eq!(org.body.events, vec![(b'L', 2), (b'U', 2)]);
    }
}

/// Reproduction that often yields empty genomes; building one would panic.
struct Fussy;

impl Strategy<usize, Still> for Fussy {
    fn death(&self, _org: &Organism<usize>, _env: &Still, rng: &mut StdRng) -> bool {
        ratio(1, 4).sample(rng)
    }

    fn reproduce(&self, org: &Organism<usize>, _env: &Still, rng: &mut StdRng) -> Vec<BaseSeq> {
        let mut litter = Vec::new();
        for _ in 0..3 {
            if ratio(1, 2).sample(rng) {
                litter.push(Vec::new());
            } else {
                litter.push(clone_with_mutation(
                    &org.genes,
                    rng,
                    ratio(1, 10),
                    ratio(1, 2),
                    ratio(1, 10),
                ));
            }
        }
        litter
    }

    fn build(&self, genes: &BaseSeq, _rng: &mut StdRng) -> usize {
        assert!(!genes.is_empty());
        genes.len()
    }

    fn learn(&self, _genes: &BaseSeq, _body: &mut usize, _env: &Still, _rng: &mut StdRng) {}

    fn update(&self, _genes: &BaseSeq, _body: &mut usize, _env: &Still, _rng: &mut StdRng) {}
}

#[test]
fn build_never_sees_an_empty_genome() {
    for seed in 0..20 {
        let seeds = (0..10).map(|_| Organism { genes: vec![A, C], body: 2usize }).collect();
        let mut sim = Simulation {
            strategy: Fussy,
            organisms: seeds,
            environment: Still,
            max_sequences: 60,
            merge_policy: MergePolicy::PoolAndSample,
            t: 0,
            max_t: 30,
            rng: StdRng::seed_from_u64(seed),
        };
        while sim.t < sim.max_t {
            sim.run_step();
            assert!(sim.organisms.len() <= 60);
        }
        for org in &sim.organisms {
            assert!(!org.genes.is_empty());
            assert_eq!(org.body, org.genes.len());
        }
    }
}

#[test]
fn capacity_holds_after_every_tick() {
    for policy in [MergePolicy::TruncateChildren, MergePolicy::PoolAndSample] {
        for cap in [0usize, 1, 3, 10] {
            let seeds = seed_population(vec![vec![A, T], vec![C], vec![G, G, G], vec![T, A]]);
            let mut sim = simulation(Doubling, seeds, Still, cap, 6, 31);
            sim.merge_policy = policy;
            while sim.t < sim.max_t {
                sim.run_step();
                assert!(sim.organisms.len() <= cap);
            }
        }
    }
}

#[test]
fn truncation_keeps_all_survivors_and_the_first_children() {
    let seeds = seed_population(vec![vec![A, A, A, A], vec![C, C, C, C]]);
    let mut sim = simulation(Doubling, seeds, Still, 3, 1, 32);
    sim.run_step();
    assert_eq!(sim.organisms.len(), 3);
    assert_eq!(sim.organisms[0].genes, vec![C, C, C, C]);
    assert_eq!(sim.organisms[1].genes, vec![A, A, A, A]);
}

#[test]
fn oversized_seed_population_is_sampled_down() {
    let genomes: Vec<BaseSeq> = (0..10).map(|i| vec![G; i + 1]).collect();
    let mut sim = simulation(Doubling, seed_population(genomes.clone()), Still, 4, 1, 33);
    sim.run_step();
    assert_eq!(sim.organisms.len(), 4);
    let mut lengths: Vec<usize> = sim.organisms.iter().map(|o| o.genes.len()).collect();
    lengths.sort();
    lengths.dedup();
    assert_eq!(lengths.len(), 4);
    for org in &sim.organisms {
        assert!(genomes.contains(&org.genes));
    }
}

#[test]
fn identical_seeds_give_identical_trajectories() {
    let start: Vec<BaseSeq> = vec![vec![A, T, A, T, G, C], vec![A, T, A, T], vec![G, C, A]];
    for policy in [MergePolicy::TruncateChildren, MergePolicy::PoolAndSample] {
        let mut first = simulation(PrefixOnly, seed_population(start.clone()), Still, 25, 40, 77);
        let mut second = simulation(PrefixOnly, seed_population(start.clone()), Still, 25, 40, 77);
        first.merge_policy = policy;
        second.merge_policy = policy;
        while first.t < first.max_t {
            first.run_step();
            second.run_step();
            assert_eq!(first.genomes(), second.genomes());
        }
        assert_eq!(second.t, second.max_t);
    }
}

#[test]
fn identical_seeds_give_identical_logs() {
    let start: Vec<BaseSeq> = vec![vec![A, T, A, T, G, C], vec![A, T, A, T]];
    let mut first = simulation(Doubling, seed_population(start.clone()), Still, 12, 9, 78);
    let mut second = first.clone();
    let first_log = first.run(Some(2));
    let second_log = second.run(Some(2));
    assert_eq!(first_log.len(), 4);
    assert_eq!(first_log, second_log);
    assert_eq!(first.genomes(), second.genomes());
}

#[test]
fn run_stops_at_the_last_tick_and_logs_on_cadence() {
    let seeds = seed_population(vec![vec![A, T, A, T]]);
    let mut sim = simulation(Doubling, seeds, Clock { ticks: 0 }, 5, 10, 41);
    let log = sim.run(Some(3));
    assert_eq!(sim.t, 10);
    assert_eq!(sim.environment.ticks, 10);
    assert_eq!(log.len(), 3);
    for snapshot in &log {
        assert!(snapshot.len() <= 5);
    }
    assert_eq!(log[0].len(), 5);
    let again = sim.run(Some(1));
    assert!(again.is_empty());
    assert_eq!(sim.t, 10);
    assert_eq!(sim.environment.ticks, 10);
}

#[test]
fn run_logs_the_population_of_the_logged_tick() {
    let seeds = seed_population(vec![vec![A, T, A, T]]);
    let mut sim = simulation(Doubling, seeds, Still, 50, 4, 42);
    let log = sim.run(Some(4));
    assert_eq!(log.len(), 1);
    assert_eq!(log[0], sim.genomes());
}

#[test]
fn empty_population_keeps_ticking() {
    let mut sim = simulation(PrefixOnly, Vec::new(), Clock { ticks: 0 }, 400, 25, 43);
    let log = sim.run(Some(5));
    assert_eq!(sim.t, 25);
    assert_eq!(sim.environment.ticks, 25);
    assert_eq!(sim.organisms.len(), 0);
    assert_eq!(log, vec![Vec::<BaseSeq>::new(); 5]);
}

#[test]
fn print_due_follows_the_cadence() {
    assert!(!print_due(0, None));
    assert!(!print_due(4, None));
    assert!(print_due(0, Some(3)));
    assert!(!print_due(1, Some(3)));
    assert!(print_due(3, Some(3)));
    assert!(print_due(9, Some(3)));
    assert!(print_due(7, Some(1)));
    assert!(print_due(-6, Some(3)));
    assert!(!print_due(-7, Some(3)));
    assert!(print_due(i32::MIN, Some(2)));
    assert!(!print_due(i32::MAX, Some(2)));
    assert!(!print_due(5, Some(u32::MAX)));
}

#[test]
fn merge_truncates_children_to_the_room_left() {
    let policy = MergePolicy::TruncateChildren;
    assert_eq!(merge_capped(vec![1, 2], vec![3, 4, 5], 4, policy), vec![1, 2, 3, 4]);
    assert_eq!(merge_capped(vec![1, 2], vec![3, 4, 5], 5, policy), vec![1, 2, 3, 4, 5]);
    assert_eq!(merge_capped(vec![1, 2], vec![3, 4, 5], 9, policy), vec![1, 2, 3, 4, 5]);
    assert_eq!(merge_capped(vec![1, 2], vec![3, 4, 5], 2, policy), vec![1, 2]);
    assert_eq!(merge_capped(vec![1, 2], vec![3, 4, 5], 1, policy), vec![1, 2]);
    assert_eq!(merge_capped(vec![1, 2], vec![3, 4, 5], 0, policy), vec![1, 2]);
    assert_eq!(merge_capped(Vec::<u8>::new(), vec![3, 4, 5], 2, policy), vec![3, 4]);
    assert_eq!(merge_capped(vec![1], Vec::new(), 2, policy), vec![1]);
}

#[test]
fn merge_pools_everything_under_the_sampling_policy() {
    let policy = MergePolicy::PoolAndSample;
    assert_eq!(merge_capped(vec![1, 2], vec![3, 4, 5], 4, policy), vec![1, 2, 3, 4, 5]);
    assert_eq!(merge_capped(vec![1, 2], vec![3, 4, 5], 0, policy), vec![1, 2, 3, 4, 5]);
}

#[test]
fn take_picked_moves_the_picked_items_in_pick_order() {
    let pool = vec!["a".to_string(), "b".to_string(), "c".to_string(), "d".to_string()];
    assert_eq!(take_picked(pool.clone(), &vec![2, 0, 3]), vec!["c", "a", "d"]);
    assert_eq!(take_picked(pool.clone(), &vec![]), Vec::<String>::new());
    assert_eq!(take_picked(pool.clone(), &vec![3, 2, 1, 0]), vec!["d", "c", "b", "a"]);
    assert_eq!(take_picked(pool, &vec![1]), vec!["b"]);
}

#[test]
fn downsample_keeps_a_pool_within_capacity() {
    let mut rng = StdRng::seed_from_u64(51);
    assert_eq!(downsample(vec![4, 5, 6], 3, &mut rng), vec![4, 5, 6]);
    assert_eq!(downsample(vec![4, 5, 6], 7, &mut rng), vec![4, 5, 6]);
    assert_eq!(downsample(Vec::<u8>::new(), 0, &mut rng), Vec::<u8>::new());
}

#[test]
fn downsample_draws_exactly_the_capacity_without_replacement() {
    let mut rng = StdRng::seed_from_u64(52);
    let pool: Vec<u32> = vec![7, 7, 8, 9, 10, 11, 12, 7, 13, 14];
    for cap in 0..pool.len() {
        for _ in 0..30 {
            let out = downsample(pool.clone(), cap, &mut rng);
            assert_eq!(out.len(), cap);
            let mut left = pool.clone();
            for item in &out {
                let at = left.iter().position(|x| x == item);
                assert!(at.is_some());
                left.remove(at.unwrap());
            }
        }
    }
}

#[test]
fn downsample_reaches_every_organism() {
    let mut rng = StdRng::seed_from_u64(53);
    let pool: Vec<usize> = (0..6).collect();
    let mut seen = [false; 6];
    let mut first_seen = [false; 6];
    for _ in 0..200 {
        let out = downsample(pool.clone(), 2, &mut rng);
        first_seen[out[0]] = true;
        for item in out {
            seen[item] = true;
        }
    }
    assert_eq!(seen, [true; 6]);
    assert_eq!(first_seen, [true; 6]);
}

#[test]
fn pooled_children_can_evict_survivors() {
    let mut evicted = false;
    for seed in 0..40 {
        let seeds = seed_population(vec![vec![T, T, T, T, T, T, T, T]]);
        let mut sim = simulation(Doubling, seeds, Still, 1, 1, seed);
        sim.merge_policy = MergePolicy::PoolAndSample;
        sim.run_step();
        assert_eq!(sim.organisms.len(), 1);
        let mut twin = simulation(
            Doubling,
            seed_population(vec![vec![T, T, T, T, T, T, T, T]]),
            Still,
            1,
            1,
            seed,
        );
        twin.run_step();
        assert_eq!(twin.organisms.len(), 1);
        assert_eq!(twin.organisms[0].genes, vec![T; 8]);
        evicted = evicted || sim.organisms[0].genes != vec![T; 8];
    }
    assert!(evicted);
}

#[test]
fn library_rules_without_the_prefix_only_shrink() {
    let mut rng = StdRng::seed_from_u64(61);
    let mut genomes: Vec<BaseSeq> = Vec::new();
    while genomes.len() < 100 {
        let genome: BaseSeq = (0..8).map(|_| random_base(&mut rng)).collect();
        if !genome.starts_with(&e1::E1_REPRODUCE_PREFIX) {
            genomes.push(genome);
        }
    }
    let mut sim = simulation(e1::Rules, seed_population(genomes.clone()), (), 400, 300, 62);
    let mut last = sim.organisms.len();
    while sim.t < sim.max_t {
        sim.run_step();
        assert!(sim.organisms.len() <= last);
        for org in &sim.organisms {
            assert!(genomes.contains(&org.genes));
        }
        last = sim.organisms.len();
    }
    assert_eq!(sim.organisms.len(), 0);
}

#[test]
fn library_rules_with_the_prefix_fill_the_capacity() {
    let seeds = seed_population(vec![vec![A, T, A, T, G, G, C, C]; 20]);
    let mut sim = simulation(e1::Rules, seeds, (), 400, 60, 63);
    let mut peak = 0;
    while sim.t < sim.max_t {
        sim.run_step();
        assert!(sim.organisms.len() <= 400);
        for org in &sim.organisms {
            assert!(!org.genes.is_empty());
        }
        peak = peak.max(sim.organisms.len());
    }
    assert!(peak > 100);
}

#[test]
fn run_without_births_keeps_only_genomes_of_the_start() {
    let start: Vec<BaseSeq> = vec![
        vec![G, A, T],
        vec![G, A, T],
        vec![C, C],
        vec![T, A, T, A],
        vec![G, A, T],
        vec![A, T, A, G],
    ];
    for policy in [MergePolicy::TruncateChildren, MergePolicy::PoolAndSample] {
        for seed in 0..10 {
            let mut sim = simulation(e1::Rules, seed_population(start.clone()), (), 4, 3, seed);
            sim.merge_policy = policy;
            let log = sim.run(Some(1));
            assert_eq!(log.len(), 3);
            let mut sizes = vec![start.len()];
            sizes.extend(log.iter().map(|snapshot| snapshot.len()));
            assert!(sizes.windows(2).all(|pair| pair[1] <= pair[0]));
            assert!(sim.organisms.len() <= 4);
            let mut left = start.clone();
            for genes in sim.genomes() {
                let at = left.iter().position(|g| *g == genes);
                assert!(at.is_some());
                left.remove(at.unwrap());
            }
        }
    }
}

#[test]
fn nothing_is_drawn_where_the_engine_has_nothing_to_do() {
    let mut rng = StdRng::seed_from_u64(71);
    let untouched = rng.clone();
    assert_eq!(downsample(vec![1, 2, 3], 3, &mut rng), vec![1, 2, 3]);
    assert_eq!(downsample(vec![1, 2, 3], 9, &mut rng), vec![1, 2, 3]);
    assert_eq!(rng, untouched);
    let _ = downsample(vec![1, 2, 3], 2, &mut rng);
    assert_ne!(rng, untouched);

    let seeds = seed_population(vec![vec![A, T, A, T]; 3]);
    let mut sim = simulation(e1::Rules, seeds, (), 2, 5, 72);
    sim.t = 5;
    let before = sim.rng.clone();
    let log = sim.run(Some(0));
    assert!(log.is_empty());
    assert_eq!(sim.rng, before);
    assert_eq!(sim.organisms.len(), 3);
    assert_eq!(sim.t, 5);
}
