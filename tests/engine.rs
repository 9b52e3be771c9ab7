use bio_computation::ga::{self, crossover_at, mutate_gene, mutate_genes, sum_genes, Population};
use bio_computation::genetics::{
    breeding_pool, check_parameters, fittest, next_generation, offspring, select_one,
    total_fitness, tournament_winner,
};
use bio_computation::{run, AlgorithmConfig, ConfigError, Individual};

fn genome(genes: Vec<u32>) -> ga::Individual {
    ga::Individual::from_genes(genes).unwrap()
}

fn scored(scores: &[u32]) -> Vec<ga::Individual> {
    scores.iter().map(|&s| genome(vec![s])).collect()
}

fn config(population_size: usize, epochs: usize) -> AlgorithmConfig {
    AlgorithmConfig {
        population_size,
        epochs,
        tournament_size: 2,
        mutation_rate: 5,
        mutation_size: 100,
    }
}

#[test]
fn population_size_is_kept_every_generation() {
    let mut p = Population::new(8, 10, 5, 50, 3).unwrap();
    for _ in 0..5 {
        p.advance_generation();
        assert_eq!(p.population.len(), 10);
    }
}

#[test]
fn totals_reconcile_after_each_step() {
    let mut p = Population::new(6, 7, 10, 200, 2).unwrap();
    for _ in 0..4 {
        let sum: u128 = p.population.iter().map(|g| g.fitness() as u128).sum();
        assert_eq!(p.total_fitness, sum);
        assert_eq!(p.average_fitness(), sum / 7);
        p.advance_generation();
    }
}

#[test]
fn generation_counter_advances_by_steps_taken() {
    let mut p = Population::new(4, 5, 0, 0, 2).unwrap();
    assert_eq!(p.current_generation, 1);
    p.advance_generation();
    assert_eq!(p.current_generation, 2);
    p.advance_generations(3);
    assert_eq!(p.current_generation, 5);
    p.advance_generations(0);
    assert_eq!(p.current_generation, 5);
}

#[test]
fn best_fitness_never_decreases() {
    let stats = run::<ga::Individual>(config(12, 15)).unwrap();
    let best = &stats.best_generational_fitness;
    assert_eq!(best.len(), 16);
    for w in best.windows(2) {
        assert!(w[0] <= w[1]);
    }
    assert_eq!(stats.solution.fitness(), *best.last().unwrap());
    for g in 0..16 {
        assert_eq!(
            stats.average_generational_fitness[g],
            stats.total_generational_fitness[g] / 12
        );
    }
}

#[test]
fn crossover_takes_prefix_and_suffix() {
    let a = vec![1, 2, 3, 4];
    let b = vec![5, 6, 7, 8];
    assert_eq!(crossover_at(&a, &b, 0), vec![5, 6, 7, 8]);
    assert_eq!(crossover_at(&a, &b, 1), vec![1, 6, 7, 8]);
    assert_eq!(crossover_at(&a, &b, 2), vec![1, 2, 7, 8]);
    assert_eq!(crossover_at(&a, &b, 3), vec![1, 2, 3, 8]);
}

#[test]
fn splice_at_matches_parents() {
    let a = genome(vec![10, 20, 30, 40, 50]);
    let b = genome(vec![60, 70, 80, 90, 100]);
    for point in 0..5 {
        let child = a.splice_at(&b, point);
        for i in 0..5 {
            let expected = if i < point { a.genes()[i] } else { b.genes()[i] };
            assert_eq!(child.genes()[i], expected);
        }
        assert_eq!(child.fitness(), child.genes().iter().map(|&g| g as u64).sum::<u64>());
    }
}

#[test]
fn mutation_at_rate_zero_is_identity() {
    let genes = vec![0, 250, 500, 750, 1000];
    assert_eq!(mutate_genes(&genes, 0, 1000), genes);
    let g = genome(genes.clone());
    assert_eq!(g.mutated(0, 300).genes(), &genes);
}

#[test]
fn mutation_at_full_rate_perturbs_every_gene() {
    let genes = vec![100; 50];
    let out = mutate_genes(&genes, 100, 0);
    assert_eq!(out, genes);
    let out = mutate_genes(&genes, 100, 1000);
    assert_eq!(out.len(), 50);
    assert!(out.iter().all(|&g| g <= 1000));
    assert!(out.iter().any(|&g| g != 100));
}

#[test]
fn mutate_gene_exact_values() {
    assert_eq!(mutate_gene(500, 100, 99, 200, true), 700);
    assert_eq!(mutate_gene(500, 100, 0, 200, false), 300);
    assert_eq!(mutate_gene(900, 100, 0, 200, true), 1000);
    assert_eq!(mutate_gene(100, 50, 10, 300, false), 0);
    assert_eq!(mutate_gene(100, 50, 50, 300, false), 100);
    assert_eq!(mutate_gene(100, 0, 0, 300, true), 100);
}

#[test]
fn full_tournament_returns_fittest() {
    let population = scored(&[3, 9, 1, 4]);
    assert_eq!(tournament_winner(&population, &vec![0, 1, 2, 3]), 1);
    assert_eq!(tournament_winner(&population, &vec![3, 2, 1, 0]), 1);
    assert_eq!(tournament_winner(&population, &vec![2, 3, 0]), 3);
    assert_eq!(tournament_winner(&population, &vec![2]), 2);
}

#[test]
fn full_tournaments_fill_pool_with_best() {
    let population = scored(&[1, 2, 3, 4]);
    let draws = [vec![0, 1, 2, 3], vec![3, 2, 1, 0], vec![1, 3, 0, 2], vec![2, 0, 3, 1]];
    let pool: Vec<usize> = draws.iter().map(|d| tournament_winner(&population, d)).collect();
    assert_eq!(pool, vec![3, 3, 3, 3]);
}

#[test]
fn select_one_picks_from_population() {
    let population = scored(&[5, 5, 5, 8]);
    for _ in 0..20 {
        assert!(select_one(&population, 1) < 4);
        let w = select_one(&population, 4);
        assert!(w < 4);
    }
    let pool = breeding_pool(&population, 2);
    assert_eq!(pool.len(), 4);
    assert!(pool.iter().all(|&i| i < 4));
}

#[test]
fn single_genome_tournament_always_returns_it() {
    let population = scored(&[7]);
    assert_eq!(select_one(&population, 1), 0);
    assert_eq!(breeding_pool(&population, 1), vec![0]);
}

#[test]
fn self_crossover_stays_within_gene_range() {
    let g = genome(vec![1, 2, 3, 4]);
    for point in 0..4 {
        let child = g.splice_at(&g, point);
        assert_eq!(child.genes(), &vec![1, 2, 3, 4]);
        assert!(child.genes().iter().all(|&x| (1..=4).contains(&x)));
        assert_eq!(child.fitness(), 10);
    }
    let child = g.breed_with(&g, 0, 0);
    assert_eq!(child.genes(), &vec![1, 2, 3, 4]);
    assert_eq!(child.fitness(), 10);
}

#[test]
fn empty_population_is_rejected() {
    let r = run::<ga::Individual>(config(0, 3));
    assert_eq!(r.err(), Some(ConfigError::EmptyPopulation));
    assert_eq!(Population::new(4, 0, 5, 10, 1).err(), Some(ConfigError::EmptyPopulation));
}

#[test]
fn each_config_error_has_an_input() {
    assert_eq!(check_parameters(0, 0, 500), Some(ConfigError::EmptyPopulation));
    assert_eq!(check_parameters(5, 0, 5), Some(ConfigError::EmptyTournament));
    assert_eq!(check_parameters(5, 6, 5), Some(ConfigError::TournamentLargerThanPopulation));
    assert_eq!(check_parameters(5, 5, 101), Some(ConfigError::MutationRateAbovePercent));
    assert_eq!(check_parameters(5, 5, 100), None);
    assert_eq!(check_parameters(1, 1, 0), None);
    let mut c = config(4, 1);
    assert!(c.validate().is_ok());
    c.tournament_size = 0;
    assert_eq!(c.validate(), Err(ConfigError::EmptyTournament));
    c.tournament_size = 9;
    assert_eq!(run::<ga::Individual>(c).err(), Some(ConfigError::TournamentLargerThanPopulation));
    c.tournament_size = 2;
    c.mutation_rate = 150;
    assert_eq!(Population::new(3, 4, 150, 10, 2).err(), Some(ConfigError::MutationRateAbovePercent));
    assert_eq!(run::<ga::Individual>(c).err(), Some(ConfigError::MutationRateAbovePercent));
}

#[test]
fn zero_epochs_record_initial_population_only() {
    let stats = run::<ga::Individual>(config(6, 0)).unwrap();
    assert_eq!(stats.total_generational_fitness.len(), 1);
    assert_eq!(stats.average_generational_fitness.len(), 1);
    assert_eq!(stats.best_generational_fitness.len(), 1);
    assert_eq!(
        stats.average_generational_fitness[0],
        stats.total_generational_fitness[0] / 6
    );
    let p = Population::new(5, 6, 5, 10, 2).unwrap();
    assert_eq!(p.current_generation, 1);
}

#[test]
fn totals_and_fittest_exact() {
    let population = scored(&[4, 9, 2, 9]);
    assert_eq!(total_fitness(&population), 24);
    assert_eq!(fittest(&population), 1);
    assert_eq!(sum_genes(&vec![1000, 1000, 3]), 2003);
    assert_eq!(sum_genes(&vec![]), 0);
}

#[test]
fn next_generation_keeps_size() {
    let population = scored(&[100, 200, 300, 400, 500]);
    let next = next_generation(&population, 2, 10, 50);
    assert_eq!(next.len(), 5);
    let next = next_generation(&next, 5, 0, 0);
    assert_eq!(next.len(), 5);
}

#[test]
fn gene_bounds_are_checked() {
    assert!(ga::Individual::from_genes(vec![1001]).is_none());
    assert!(ga::Individual::from_genes(vec![1000, 0]).is_some());
    assert!(ga::Individual::from_genes(vec![]).is_some());
}

#[test]
fn random_genomes_draw_varied_genes() {
    let g = ga::Individual::random(200);
    assert_eq!(g.genes().len(), 200);
    assert!(g.genes().iter().all(|&x| x <= 1000));
    assert!(g.fitness() > 0);
    assert!(g.genes().iter().any(|&x| x != g.genes()[0]));
    let sampled = <ga::Individual as Individual>::new();
    assert_eq!(sampled.genes().len(), ga::DEFAULT_GENOME_SIZE);
    assert_eq!(sampled.calculate_fitness(), sampled.fitness());
    let copy = sampled.duplicate();
    assert_eq!(copy.genes(), sampled.genes());
}

#[test]
fn offspring_follow_the_given_pairs() {
    let population = scored(&[5, 9, 2]);
    let children = offspring(&population, &vec![(0, 1), (2, 2)], 3, 0, 0);
    let genes: Vec<Vec<u32>> = children.iter().map(|c| c.genes().clone()).collect();
    assert_eq!(genes, vec![vec![9], vec![5], vec![2]]);
    let children = offspring(&population, &vec![(1, 2)], 1, 0, 0);
    assert_eq!(children.len(), 1);
    assert_eq!(children[0].genes(), &vec![2]);
}

#[test]
fn splice_point_stays_below_length() {
    let a = genome(vec![1, 1, 1, 1]);
    let b = genome(vec![0, 0, 0, 0]);
    for _ in 0..50 {
        let child = a.splice(&b);
        assert_eq!(child.genes()[3], 0);
    }
}
