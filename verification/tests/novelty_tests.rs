use novelty_search::novelty::EvalPass;
use novelty_search::novelty::select_novelty;
use novelty_search::population::{gen_population, merge_population};
use novelty_search::replenish::ReplenishPass;
use novelty_search::rng::{chacha12_from_seed, draw_index};
use novelty_search::scored::ScoredAgent;
use novelty_search::sorting::sort_scored_desc;

fn to_bits(v: &[f64]) -> Vec<u64> {
    v.iter().map(|x| x.to_bits()).collect()
}

fn pop_to_bits(pop: &[Vec<f64>]) -> Vec<Vec<u64>> {
    pop.iter().map(|a| to_bits(a)).collect()
}

fn pop_from_bits(pop: &[Vec<u64>]) -> Vec<Vec<f64>> {
    pop.iter().map(|a| a.iter().map(|b| f64::from_bits(*b)).collect()).collect()
}

/// The distance tables an evaluation pass works on: distances among the
/// population, and from each agent to each archive entry.
fn dist_tables(pop: &[Vec<f64>], arch: &[Vec<f64>]) -> (Vec<Vec<u64>>, Vec<Vec<u64>>) {
    let dist_pop: Vec<Vec<u64>> = pop
        .iter()
        .map(|a| pop.iter().map(|b| distances::vectors::euclidean::<f64, f64>(a, b).to_bits()).collect())
        .collect();
    let dist_arch: Vec<Vec<u64>> = pop
        .iter()
        .map(|a| arch.iter().map(|b| distances::vectors::euclidean::<f64, f64>(a, b).to_bits()).collect())
        .collect();
    (dist_pop, dist_arch)
}

/// Drive one evaluation pass, answering each request with the mean of the
/// handed-out distances, exactly as the scoring rule demands.
fn run_eval(
    pop: &[Vec<f64>],
    archive: Vec<Vec<f64>>,
    k: usize,
    threshold: f64,
) -> (Vec<(Vec<f64>, f64)>, Vec<Vec<f64>>) {
    let (dist_pop, dist_arch) = dist_tables(pop, &archive);
    let mut pass = EvalPass::new(
        pop_to_bits(pop),
        pop_to_bits(&archive),
        dist_pop,
        dist_arch,
        k,
        threshold.to_bits(),
    )
    .expect("evaluation inputs must be well shaped and free of NaN");
    loop {
        match pass.request() {
            None => break,
            Some(ds) => {
                if !pass.has_neighbours() {
                    pass.score_isolated();
                } else {
                    let sum: f64 = ds.iter().map(|b| f64::from_bits(*b)).sum();
                    let mean = sum / ds.len() as f64;
                    assert!(!mean.is_nan());
                    pass.supply_mean(mean.to_bits());
                }
            }
        }
    }
    let (scored, archive_bits) = pass.finish();
    let scored_f: Vec<(Vec<f64>, f64)> = scored
        .into_iter()
        .map(|sa| (sa.agent.iter().map(|b| f64::from_bits(*b)).collect(), f64::from_bits(sa.score)))
        .collect();
    (scored_f, pop_from_bits(&archive_bits))
}

/// Drive one reproduction pass: blend crossover then uniform noise on every
/// component, with all randomness from the one generator.
fn run_replenish(
    selected: &[Vec<f64>],
    alive_agents: usize,
    killed_agents: usize,
    noise_min: f64,
    noise_max: f64,
    rng: &mut rand_chacha::ChaCha12Rng,
) -> Vec<Vec<f64>> {
    let mut pass = ReplenishPass::new(pop_to_bits(selected), alive_agents, killed_agents)
        .expect("survivors must be non-empty and of one dimensionality");
    while !pass.is_complete() {
        let (p1, p2) = pass.next_parents(rng);
        let child: Vec<u64> = p1
            .iter()
            .zip(p2.iter())
            .map(|(a, b)| {
                let mixed = (f64::from_bits(*a) + f64::from_bits(*b)) / 2.0;
                let noise: f64 = rand::Rng::random_range(rng, noise_min..=noise_max);
                (mixed + noise).to_bits()
            })
            .collect();
        pass.supply_child(child);
    }
    pop_from_bits(&pass.finish())
}

#[test]
fn isolated_point_scores_its_nearest_neighbor_distance() {
    // Population of three clustered points and one outlier, one dimension,
    // no archive, one nearest neighbour.
    let pop = vec![vec![0.0], vec![0.0], vec![0.0], vec![10.0]];
    let (scored, archive) = run_eval(&pop, Vec::new(), 1, 0.0);
    assert_eq!(scored.len(), 4);
    // The outlier scores its nearest-neighbour distance, 10.0, and leads.
    assert_eq!(scored[0].0, vec![10.0]);
    assert_eq!(scored[0].1, 10.0);
    // Each clustered point has another point at distance zero.
    for i in 1..4 {
        assert_eq!(scored[i].0, vec![0.0]);
        assert_eq!(scored[i].1, 0.0);
    }
    // Only the outlier exceeded the threshold of 0.0.
    assert_eq!(archive, vec![vec![10.0]]);
}

#[test]
fn point_on_archived_point_scores_zero() {
    let pop = vec![vec![5.0]];
    let archive = vec![vec![5.0]];
    let (scored, archive_after) = run_eval(&pop, archive, 1, 0.0);
    assert_eq!(scored.len(), 1);
    assert_eq!(scored[0].0, vec![5.0]);
    assert_eq!(scored[0].1, 0.0);
    // A score of exactly 0.0 does not strictly exceed the threshold 0.0.
    assert_eq!(archive_after, vec![vec![5.0]]);
}

#[test]
fn singleton_population_without_archive_scores_zero() {
    let pop = vec![vec![3.0, 4.0]];
    let (scored, archive) = run_eval(&pop, Vec::new(), 5, -1.0);
    assert_eq!(scored.len(), 1);
    assert_eq!(scored[0].1, 0.0);
    // 0.0 strictly exceeds the threshold of -1.0, so the point is archived.
    assert_eq!(archive, vec![vec![3.0, 4.0]]);
}

#[test]
fn select_novelty_is_a_stable_truncation() {
    // Equal scores keep their input order through the descending sort.
    let scored = vec![
        ScoredAgent { agent: to_bits(&[1.0]), score: 0.9f64.to_bits() },
        ScoredAgent { agent: to_bits(&[2.0]), score: 0.5f64.to_bits() },
        ScoredAgent { agent: to_bits(&[3.0]), score: 0.9f64.to_bits() },
    ];
    let sorted = sort_scored_desc(scored);
    let order: Vec<f64> = sorted.iter().map(|sa| f64::from_bits(sa.score)).collect();
    assert_eq!(order, vec![0.9, 0.9, 0.5]);
    let survivors = select_novelty(&sorted, 2);
    assert_eq!(pop_from_bits(&survivors), vec![vec![1.0], vec![3.0]]);
}

#[test]
fn select_novelty_returns_at_most_what_exists() {
    let scored = vec![ScoredAgent { agent: to_bits(&[1.0]), score: 0.5f64.to_bits() }];
    let survivors = select_novelty(&scored, 4);
    assert_eq!(pop_from_bits(&survivors), vec![vec![1.0]]);
}

#[test]
fn archive_grows_during_the_pass_and_influences_later_scores() {
    // Two identical points far from a third; with k large enough, the
    // second identical point is judged against the first one's archived
    // copy as well as the population, in the same pass.
    let pop = vec![vec![0.0], vec![100.0], vec![100.0]];
    let (scored, archive) = run_eval(&pop, Vec::new(), 1, 0.5);
    // Agent 0 scores 100.0 (nearest neighbour) and is archived; agent 1
    // scores 0.0 (agent 2 at distance 0), agent 2 scores 0.0.
    assert_eq!(scored[0].1, 100.0);
    assert_eq!(archive.len(), 1);
    assert_eq!(archive[0], vec![0.0]);
    assert_eq!(scored[1].1, 0.0);
    assert_eq!(scored[2].1, 0.0);
}

#[test]
fn k_beyond_the_neighbour_count_averages_all_distances() {
    // Three points on a line; with k = 5 every agent averages both of its
    // distances: 0 has (1+3)/2 = 2.0, 1 has (1+2)/2 = 1.5, 3 has
    // (3+2)/2 = 2.5. The threshold of 10.0 keeps the archive empty.
    let pop = vec![vec![0.0], vec![1.0], vec![3.0]];
    let (scored, archive) = run_eval(&pop, Vec::new(), 5, 10.0);
    assert_eq!(
        scored,
        vec![(vec![3.0], 2.5), (vec![0.0], 2.0), (vec![1.0], 1.5)]
    );
    assert!(archive.is_empty());
}

#[test]
fn gen_population_chunks_draws_in_order() {
    let draws: Vec<u64> = to_bits(&[0.5, 1.5, 2.5, 3.5, 4.5, 5.5]);
    let pop = gen_population(3, 2, &draws);
    assert_eq!(
        pop_from_bits(&pop),
        vec![vec![0.5, 1.5], vec![2.5, 3.5], vec![4.5, 5.5]]
    );
}

#[test]
fn gen_population_from_seeded_draws_is_in_range() {
    let mut rng = chacha12_from_seed(1);
    let agents = 12;
    let dimensions = 2;
    let mut draws: Vec<u64> = Vec::new();
    for _ in 0..agents * dimensions {
        let x: f64 = rand::Rng::random_range(&mut rng, 0.0..=1.0);
        draws.push(x.to_bits());
    }
    let pop = gen_population(agents, dimensions, &draws);
    assert_eq!(pop.len(), agents);
    for agent in pop_from_bits(&pop) {
        assert_eq!(agent.len(), dimensions);
        for x in agent {
            assert!((0.0..=1.0).contains(&x));
        }
    }
}

#[test]
fn merge_population_concatenates_in_order() {
    let survivors = pop_to_bits(&[vec![1.0], vec![2.0]]);
    let offspring = pop_to_bits(&[vec![3.0]]);
    let merged = merge_population(survivors, offspring);
    assert_eq!(pop_from_bits(&merged), vec![vec![1.0], vec![2.0], vec![3.0]]);
}

#[test]
fn replenish_returns_exactly_the_offspring_count() {
    let mut rng = chacha12_from_seed(7);
    let selected = vec![vec![0.0, 0.0], vec![1.0, 1.0], vec![4.0, 4.0]];
    let children = run_replenish(&selected, 3, 5, -0.5, 0.5, &mut rng);
    assert_eq!(children.len(), 5);
    for child in &children {
        assert_eq!(child.len(), 2);
        // Parents' components lie in [0, 4]; a blend mean stays there and
        // the noise moves it by at most 0.5.
        for x in child {
            assert!(*x >= -0.5 && *x <= 4.5);
        }
    }
}

#[test]
fn replenish_with_one_survivor_clones_it_up_to_noise() {
    // With a single survivor both parents must be index 0, so every child
    // is that survivor shifted by noise alone.
    let mut rng = chacha12_from_seed(3);
    let selected = vec![vec![2.0]];
    let children = run_replenish(&selected, 1, 4, -0.25, 0.25, &mut rng);
    assert_eq!(children.len(), 4);
    for child in &children {
        assert!(child[0] >= 1.75 && child[0] <= 2.25);
    }
}

#[test]
fn replenish_rejects_a_draw_range_wider_than_the_pool() {
    assert!(ReplenishPass::new(pop_to_bits(&[vec![1.0]]), 2, 3).is_none());
    assert!(ReplenishPass::new(Vec::new(), 1, 3).is_none());
}

#[test]
fn evaluation_rejects_nan_and_misshapen_input() {
    let pop = pop_to_bits(&[vec![0.0], vec![1.0]]);
    let (dist_pop, dist_arch) = dist_tables(&[vec![0.0], vec![1.0]], &[]);
    // NaN coordinate.
    let mut bad_pop = pop.clone();
    bad_pop[0][0] = f64::NAN.to_bits();
    assert!(
        EvalPass::new(bad_pop, Vec::new(), dist_pop.clone(), dist_arch.clone(), 1, 0u64).is_none()
    );
    // NaN threshold.
    assert!(
        EvalPass::new(
            pop.clone(),
            Vec::new(),
            dist_pop.clone(),
            dist_arch.clone(),
            1,
            f64::NAN.to_bits()
        )
        .is_none()
    );
    // A distance table with a missing row.
    assert!(EvalPass::new(pop, Vec::new(), Vec::new(), dist_arch, 1, 0u64).is_none());
}

#[test]
fn draw_index_stays_below_the_bound() {
    let mut rng = chacha12_from_seed(11);
    for bound in 1..6usize {
        for _ in 0..40 {
            assert!(draw_index(&mut rng, bound) < bound);
        }
    }
}

/// One full generation, exactly as the driving loop composes the steps.
fn run_generation(
    population: Vec<Vec<f64>>,
    archive: Vec<Vec<f64>>,
    k: usize,
    threshold: f64,
    alive_agents: usize,
    noise_min: f64,
    noise_max: f64,
    rng: &mut rand_chacha::ChaCha12Rng,
) -> (Vec<Vec<f64>>, Vec<Vec<f64>>) {
    let agents = population.len();
    let (scored, archive_after) = run_eval(&population, archive, k, threshold);
    let scored_bits: Vec<ScoredAgent> = scored
        .iter()
        .map(|(a, s)| ScoredAgent { agent: to_bits(a), score: s.to_bits() })
        .collect();
    let survivors = select_novelty(&scored_bits, alive_agents);
    let survivors_f = pop_from_bits(&survivors);
    let offspring = run_replenish(
        &survivors_f,
        alive_agents,
        agents - alive_agents,
        noise_min,
        noise_max,
        rng,
    );
    let merged = merge_population(survivors, pop_to_bits(&offspring));
    (pop_from_bits(&merged), archive_after)
}

fn run_whole_search(seed_init: u64, seed_mutation: u64, generations: usize) -> Vec<(Vec<Vec<f64>>, Vec<Vec<f64>>)> {
    let agents = 8;
    let dimensions = 2;
    let k = 3;
    let threshold = 0.5;
    let alive_agents = 3;
    let mut rng_init = chacha12_from_seed(seed_init);
    let mut rng_mut = chacha12_from_seed(seed_mutation);
    let mut draws: Vec<u64> = Vec::new();
    for _ in 0..agents * dimensions {
        let x: f64 = rand::Rng::random_range(&mut rng_init, 0.0..=1.0);
        draws.push(x.to_bits());
    }
    let mut population = pop_from_bits(&gen_population(agents, dimensions, &draws));
    let mut archive: Vec<Vec<f64>> = Vec::new();
    let mut history = Vec::new();
    for _ in 0..generations {
        let (next_population, next_archive) = run_generation(
            population, archive, k, threshold, alive_agents, -0.6, 0.6, &mut rng_mut,
        );
        population = next_population;
        archive = next_archive;
        history.push((population.clone(), archive.clone()));
    }
    history
}

#[test]
fn identical_seeds_give_bit_identical_runs() {
    let a = run_whole_search(1, 2, 5);
    let b = run_whole_search(1, 2, 5);
    for ((pop_a, arch_a), (pop_b, arch_b)) in a.iter().zip(b.iter()) {
        let pa: Vec<Vec<u64>> = pop_to_bits(pop_a);
        let pb: Vec<Vec<u64>> = pop_to_bits(pop_b);
        assert_eq!(pa, pb);
        assert_eq!(pop_to_bits(arch_a), pop_to_bits(arch_b));
    }
}

#[test]
fn population_size_and_dimensions_hold_across_generations() {
    let history = run_whole_search(4, 9, 6);
    let mut last_archive_len = 0;
    for (population, archive) in &history {
        assert_eq!(population.len(), 8);
        for agent in population {
            assert_eq!(agent.len(), 2);
        }
        // The archive only ever grows.
        assert!(archive.len() >= last_archive_len);
        last_archive_len = archive.len();
    }
}

#[test]
fn archive_entries_come_from_their_generation() {
    // Each new archive entry must equal, by value, a member of the
    // population that was being evaluated when it was inserted.
    let agents = 6;
    let dimensions = 1;
    let mut rng_mut = chacha12_from_seed(21);
    let mut draws: Vec<u64> = Vec::new();
    let mut rng_init = chacha12_from_seed(20);
    for _ in 0..agents * dimensions {
        let x: f64 = rand::Rng::random_range(&mut rng_init, 0.0..=1.0);
        draws.push(x.to_bits());
    }
    let mut population = pop_from_bits(&gen_population(agents, dimensions, &draws));
    let mut archive: Vec<Vec<f64>> = Vec::new();
    for _ in 0..4 {
        let before = archive.len();
        let population_before = pop_to_bits(&population);
        let (next_population, next_archive) =
            run_generation(population, archive, 2, 0.2, 2, -0.6, 0.6, &mut rng_mut);
        population = next_population;
        archive = next_archive;
        let archive_bits = pop_to_bits(&archive);
        for entry in archive_bits.iter().skip(before) {
            assert!(population_before.contains(entry));
        }
    }
}
