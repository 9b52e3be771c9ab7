use vstd::prelude::*;

use crate::random::random_index;

verus! {

/// What the engine needs of a candidate solution.
///
/// Recombination and mutation never change a parent: they return a new
/// genome. Fitness is an unsigned score, higher is better.
pub trait Individual: Sized {
    /// The genome is well formed.
    spec fn wf(&self) -> bool;

    /// The genome's fitness score.
    spec fn score(&self) -> u64;

    /// `child` is one of the genomes that crossover of `self` with `partner`
    /// can return.
    spec fn crossover_outcome(&self, partner: Self, child: Self) -> bool;

    /// `out` is one of the genomes that mutation of `self` at `rate` percent,
    /// by at most `size`, can return.
    spec fn mutation_result(&self, rate: u32, size: u64, out: Self) -> bool;

    /// `self` is a copy of `original`.
    spec fn copy_of(&self, original: Self) -> bool;

    /// A freshly randomized genome.
    fn new() -> (r: Self)
        ensures
            r.wf(),
    ;

    /// A new genome that splices material of `self` and `partner`.
    fn crossover(&self, partner: &Self) -> (r: Self)
        requires
            self.wf(),
            partner.wf(),
        ensures
            r.wf(),
            self.crossover_outcome(*partner, r),
    ;

    /// A new genome in which each element is perturbed with a probability of
    /// `mutation_rate` percent, by at most `mutation_size`.
    fn mutate(&self, mutation_rate: u32, mutation_size: u64) -> (r: Self)
        requires
            self.wf(),
            mutation_rate <= 100,
        ensures
            r.wf(),
            self.mutation_result(mutation_rate, mutation_size, r),
    ;

    /// The fitness, as it may have been cached.
    fn fitness(&self) -> (r: u64)
        requires
            self.wf(),
        ensures
            r == self.score(),
    ;

    /// The fitness, computed afresh.
    fn calculate_fitness(&self) -> (r: u64)
        requires
            self.wf(),
        ensures
            r == self.score(),
    ;

    /// An independent copy of the genome.
    fn duplicate(&self) -> (r: Self)
        requires
            self.wf(),
        ensures
            r.wf(),
            r.score() == self.score(),
            r.copy_of(*self),
    ;
}

/// Every genome of `s` is well formed.
pub open spec fn all_wf<I: Individual>(s: Seq<I>) -> bool {
    forall|i: int| 0 <= i < s.len() ==> (#[trigger] s[i]).wf()
}

/// The sum of the scores of `s`.
pub open spec fn total_score<I: Individual>(s: Seq<I>) -> int
    decreases s.len(),
{
    if s.len() == 0 {
        0
    } else {
        total_score(s.drop_last()) + s.last().score()
    }
}

/// `s[i]` scores at least as high as every genome of `s`.
pub open spec fn is_fittest<I: Individual>(s: Seq<I>, i: int) -> bool {
    &&& 0 <= i < s.len()
    &&& forall|j: int| 0 <= j < s.len() ==> (#[trigger] s[j]).score() <= s[i].score()
}

/// `winner` is one of the indices `draws` and none of the drawn genomes
/// scores higher.
pub open spec fn wins<I: Individual>(s: Seq<I>, draws: Seq<usize>, winner: usize) -> bool {
    &&& draws.contains(winner)
    &&& winner < s.len()
    &&& forall|d: int| 0 <= d < draws.len() ==> s[#[trigger] draws[d] as int].score() <= s[winner as int].score()
}

/// Every index of `draws` points into `s`.
pub open spec fn draws_in<I: Individual>(s: Seq<I>, draws: Seq<usize>) -> bool {
    forall|d: int| 0 <= d < draws.len() ==> #[trigger] draws[d] < s.len()
}

/// `winner` is what a tournament of `k` draws over `s` can return.
pub open spec fn tournament_outcome<I: Individual>(s: Seq<I>, k: nat, winner: usize) -> bool {
    exists|draws: Seq<usize>| #[trigger] draws.len() == k && draws_in(s, draws) && wins(s, draws, winner)
}

proof fn lemma_total_score_bound<I: Individual>(s: Seq<I>)
    ensures
        0 <= total_score(s) <= s.len() * (u64::MAX as int),
    decreases s.len(),
{
    if s.len() > 0 {
        lemma_total_score_bound(s.drop_last());
    }
}

/// The sum of the fitness of every genome of `population`.
pub fn total_fitness<I: Individual>(population: &Vec<I>) -> (r: u128)
    requires
        all_wf(population@),
    ensures
        r == total_score(population@),
{
    let mut total: u128 = 0;
    let mut i: usize = 0;
    while i < population.len()
        invariant
            i <= population.len(),
            all_wf(population@),
            total == total_score(population@.subrange(0, i as int)),
        decreases population.len() - i,
    {
        let f = population[i].fitness();
        proof {
            let next = population@.subrange(0, i + 1);
            assert(next.drop_last() =~= population@.subrange(0, i as int));
            lemma_total_score_bound(population@.subrange(0, i as int));
            assert(i * (u64::MAX as int) + u64::MAX <= u128::MAX) by (nonlinear_arith)
                requires
                    i <= usize::MAX,
            ;
        }
        total = total + f as u128;
        i = i + 1;
    }
    assert(population@.subrange(0, i as int) =~= population@);
    total
}

/// The index of the first genome of `population` with the highest fitness.
pub fn fittest<I: Individual>(population: &Vec<I>) -> (r: usize)
    requires
        population.len() > 0,
        all_wf(population@),
    ensures
        is_fittest(population@, r as int),
        forall|j: int| 0 <= j < r ==> population@[j].score() < population@[r as int].score(),
{
    let mut best: usize = 0;
    let mut best_fitness = population[0].fitness();
    let mut i: usize = 1;
    while i < population.len()
        invariant
            1 <= i <= population.len(),
            best < i,
            all_wf(population@),
            best_fitness == population@[best as int].score(),
            forall|j: int| 0 <= j < i ==> (#[trigger] population@[j]).score() <= best_fitness,
            forall|j: int| 0 <= j < best ==> (#[trigger] population@[j]).score() < best_fitness,
        decreases population.len() - i,
    {
        let f = population[i].fitness();
        if f > best_fitness {
            best = i;
            best_fitness = f;
        }
        i = i + 1;
    }
    best
}

/// The index, among `draws`, of the first drawn genome with the highest
/// fitness.
pub fn tournament_winner<I: Individual>(population: &Vec<I>, draws: &Vec<usize>) -> (r: usize)
    requires
        draws.len() > 0,
        draws_in(population@, draws@),
        all_wf(population@),
    ensures
        wins(population@, draws@, r),
{
    let mut best = draws[0];
    let mut best_fitness = population[best].fitness();
    let mut d: usize = 1;
    assert(draws@.subrange(0, 1)[0] == best);
    while d < draws.len()
        invariant
            1 <= d <= draws.len(),
            draws_in(population@, draws@),
            all_wf(population@),
            best < population.len(),
            draws@.subrange(0, d as int).contains(best),
            best_fitness == population@[best as int].score(),
            forall|e: int| 0 <= e < d ==> population@[#[trigger] draws@[e] as int].score() <= best_fitness,
        decreases draws.len() - d,
    {
        let candidate = draws[d];
        let f = population[candidate].fitness();
        proof {
            let j = choose|j: int| 0 <= j < d && draws@.subrange(0, d as int)[j] == best;
            assert(draws@.subrange(0, d + 1)[j] == best);
        }
        if f > best_fitness {
            best = candidate;
            best_fitness = f;
            assert(draws@.subrange(0, d + 1)[d as int] == best);
        }
        d = d + 1;
    }
    proof {
        let j = choose|j: int| 0 <= j < d && draws@.subrange(0, d as int)[j] == best;
        assert(draws@[j] == best);
    }
    best
}

/// A tournament of `k` genomes drawn uniformly, with replacement, from
/// `population`: the index of the fittest genome drawn.
pub fn select_one<I: Individual>(population: &Vec<I>, k: usize) -> (r: usize)
    requires
        k >= 1,
        population.len() > 0,
        all_wf(population@),
    ensures
        r < population.len(),
        tournament_outcome(population@, k as nat, r),
{
    let mut draws: Vec<usize> = Vec::new();
    let mut i: usize = 0;
    while i < k
        invariant
            i <= k,
            draws.len() == i,
            population.len() > 0,
            draws_in(population@, draws@),
        decreases k - i,
    {
        draws.push(random_index(population.len()));
        i = i + 1;
    }
    let r = tournament_winner(population, &draws);
    assert(draws@.len() == k as nat);
    r
}

/// A breeding pool: one tournament of `k` per genome of `population`.
pub fn breeding_pool<I: Individual>(population: &Vec<I>, k: usize) -> (r: Vec<usize>)
    requires
        k >= 1,
        population.len() > 0,
        all_wf(population@),
    ensures
        r.len() == population.len(),
        forall|i: int| 0 <= i < r.len() ==> #[trigger] r@[i] < population.len() && tournament_outcome(population@, k as nat, r@[i]),
{
    let mut pool: Vec<usize> = Vec::new();
    let mut i: usize = 0;
    while i < population.len()
        invariant
            i <= population.len(),
            pool.len() == i,
            k >= 1,
            all_wf(population@),
            forall|j: int| 0 <= j < i ==> #[trigger] pool@[j] < population.len() && tournament_outcome(population@, k as nat, pool@[j]),
        decreases population.len() - i,
    {
        let w = select_one(population, k);
        pool.push(w);
        i = i + 1;
    }
    pool
}

/// A full tournament picks the fittest genome: when every index of the
/// population was drawn, the winner scores at least as high as every genome.
pub proof fn lemma_full_tournament_is_elitist<I: Individual>(
    population: Seq<I>,
    draws: Seq<usize>,
    winner: usize,
)
    requires
        population.len() <= usize::MAX,
        wins(population, draws, winner),
        forall|j: usize| j < population.len() ==> draws.contains(j),
    ensures
        is_fittest(population, winner as int),
{
    assert forall|j: int| 0 <= j < population.len() implies (#[trigger] population[j]).score()
        <= population[winner as int].score() by {
        assert(draws.contains(j as usize));
        let d = choose|d: int| 0 <= d < draws.len() && draws[d] == j as usize;
        assert(population[draws[d] as int].score() <= population[winner as int].score());
    }
}

/// Parameters of a run, fixed for its whole length.
#[derive(Clone, Copy, Debug)]
pub struct AlgorithmConfig {
    pub population_size: usize,
    pub epochs: usize,
    pub tournament_size: usize,
    /// The chance, in percent, that a gene is mutated.
    pub mutation_rate: u32,
    /// The largest amount by which a mutation moves a gene.
    pub mutation_size: u64,
}

/// Why a configuration was rejected.
#[derive(Clone, Copy, Debug, PartialEq, Eq, Structural)]
pub enum ConfigError {
    EmptyPopulation,
    EmptyTournament,
    TournamentLargerThanPopulation,
    MutationRateAbovePercent,
}

/// The first rule that the parameters break, if any.
pub open spec fn config_error_of(population_size: usize, tournament_size: usize, mutation_rate: u32) -> Option<ConfigError> {
    if population_size == 0 {
        Some(ConfigError::EmptyPopulation)
    } else if tournament_size == 0 {
        Some(ConfigError::EmptyTournament)
    } else if tournament_size > population_size {
        Some(ConfigError::TournamentLargerThanPopulation)
    } else if mutation_rate > 100 {
        Some(ConfigError::MutationRateAbovePercent)
    } else {
        None
    }
}

/// Checks the parameters of a run: the first rule broken, or `None`.
pub fn check_parameters(population_size: usize, tournament_size: usize, mutation_rate: u32) -> (r: Option<ConfigError>)
    ensures
        r == config_error_of(population_size, tournament_size, mutation_rate),
{
    if population_size == 0 {
        Some(ConfigError::EmptyPopulation)
    } else if tournament_size == 0 {
        Some(ConfigError::EmptyTournament)
    } else if tournament_size > population_size {
        Some(ConfigError::TournamentLargerThanPopulation)
    } else if mutation_rate > 100 {
        Some(ConfigError::MutationRateAbovePercent)
    } else {
        None
    }
}

impl AlgorithmConfig {
    /// The configuration breaks no rule.
    pub open spec fn valid(&self) -> bool {
        config_error_of(self.population_size, self.tournament_size, self.mutation_rate).is_none()
    }

    /// `Ok` when the configuration is valid, else the first rule it breaks.
    pub fn validate(&self) -> (r: Result<(), ConfigError>)
        ensures
            r.is_ok() == self.valid(),
            r.is_err() ==> Some(r->Err_0) == config_error_of(
                self.population_size,
                self.tournament_size,
                self.mutation_rate,
            ),
    {
        match check_parameters(self.population_size, self.tournament_size, self.mutation_rate) {
            Some(e) => Err(e),
            None => Ok(()),
        }
    }
}

/// `child` can come from crossover of `a` with `b`, then one mutation at
/// `rate` percent by at most `size`.
pub open spec fn child_of<I: Individual>(a: I, b: I, rate: u32, size: u64, child: I) -> bool {
    exists|c: I| a.crossover_outcome(b, c) && #[trigger] c.mutation_result(rate, size, child)
}

/// `child` can come from two parents of the breeding pool `pool` over `s`.
pub open spec fn bred_from<I: Individual>(s: Seq<I>, pool: Seq<usize>, rate: u32, size: u64, child: I) -> bool {
    exists|x: usize, y: usize|
        pool.contains(x) && pool.contains(y) && x < s.len() && y < s.len()
            && #[trigger] child_of(s[x as int], s[y as int], rate, size, child)
}

/// `pool` can be the breeding pool over `s`: one tournament of `k` for each
/// genome of `s`.
pub open spec fn pool_outcome<I: Individual>(s: Seq<I>, k: nat, pool: Seq<usize>) -> bool {
    &&& pool.len() == s.len()
    &&& forall|j: int| 0 <= j < pool.len() ==> #[trigger] pool[j] < s.len() && tournament_outcome(s, k, pool[j])
}

/// `next` can be the generation after `s`: as many genomes, each bred from
/// two parents of one breeding pool of tournaments of `k` over `s`.
pub open spec fn generation_outcome<I: Individual>(s: Seq<I>, k: nat, rate: u32, size: u64, next: Seq<I>) -> bool {
    &&& next.len() == s.len()
    &&& exists|pool: Seq<usize>| #[trigger] pool_outcome(s, k, pool)
        && forall|i: int| 0 <= i < next.len() ==> #[trigger] bred_from(s, pool, rate, size, next[i])
}

/// Two complementary offspring of `a` and `b`, each mutated on its own.
pub fn breed<I: Individual>(a: &I, b: &I, mutation_rate: u32, mutation_size: u64) -> (r: (I, I))
    requires
        a.wf(),
        b.wf(),
        mutation_rate <= 100,
    ensures
        r.0.wf(),
        r.1.wf(),
        child_of(*a, *b, mutation_rate, mutation_size, r.0),
        child_of(*b, *a, mutation_rate, mutation_size, r.1),
{
    let first_cross = a.crossover(b);
    let first = first_cross.mutate(mutation_rate, mutation_size);
    let second_cross = b.crossover(a);
    let second = second_cross.mutate(mutation_rate, mutation_size);
    (first, second)
}

/// The `n` children of the parent pairs `pairs`, indices into `population`:
/// pair `m` gives the children `2m` (crossover of its first parent with its
/// second) and `2m + 1` (the other way round), each mutated once.
pub fn offspring<I: Individual>(
    population: &Vec<I>,
    pairs: &Vec<(usize, usize)>,
    n: usize,
    mutation_rate: u32,
    mutation_size: u64,
) -> (r: Vec<I>)
    requires
        n <= 2 * pairs.len(),
        mutation_rate <= 100,
        all_wf(population@),
        forall|m: int| 0 <= m < pairs.len() ==> (#[trigger] pairs@[m]).0 < population.len() && pairs@[m].1 < population.len(),
    ensures
        r.len() == n,
        all_wf(r@),
        forall|m: int| 0 <= m < pairs.len() && 2 * m < n ==> child_of(
            population@[(#[trigger] pairs@[m]).0 as int],
            population@[pairs@[m].1 as int],
            mutation_rate,
            mutation_size,
            r@[2 * m],
        ),
        forall|m: int| 0 <= m < pairs.len() && 2 * m + 1 < n ==> child_of(
            population@[(#[trigger] pairs@[m]).1 as int],
            population@[pairs@[m].0 as int],
            mutation_rate,
            mutation_size,
            r@[2 * m + 1],
        ),
{
    let mut children: Vec<I> = Vec::new();
    let mut m: usize = 0;
    while children.len() < n
        invariant
            n <= 2 * pairs.len(),
            mutation_rate <= 100,
            all_wf(population@),
            forall|m: int| 0 <= m < pairs.len() ==> (#[trigger] pairs@[m]).0 < population.len() && pairs@[m].1 < population.len(),
            children.len() <= n,
            m <= pairs.len(),
            children.len() < n ==> children.len() == 2 * m,
            children.len() == n ==> 2 * m >= n,
            all_wf(children@),
            forall|j: int| 0 <= j < m && 2 * j < children.len() ==> child_of(
                population@[(#[trigger] pairs@[j]).0 as int],
                population@[pairs@[j].1 as int],
                mutation_rate,
                mutation_size,
                children@[2 * j],
            ),
            forall|j: int| 0 <= j < m && 2 * j + 1 < children.len() ==> child_of(
                population@[(#[trigger] pairs@[j]).1 as int],
                population@[pairs@[j].0 as int],
                mutation_rate,
                mutation_size,
                children@[2 * j + 1],
            ),
        decreases n - children.len(),
    {
        let (a, b) = pairs[m];
        let (first, second) = breed(&population[a], &population[b], mutation_rate, mutation_size);
        children.push(first);
        if children.len() < n {
            children.push(second);
        }
        m = m + 1;
    }
    children
}

/// The next generation of `population`: a breeding pool by tournaments of
/// `tournament_size`, then pairs of parents drawn uniformly from the pool,
/// each pair giving two children, until the new population has the same
/// size as the old one.
pub fn next_generation<I: Individual>(
    population: &Vec<I>,
    tournament_size: usize,
    mutation_rate: u32,
    mutation_size: u64,
) -> (r: Vec<I>)
    requires
        population.len() > 0,
        tournament_size >= 1,
        mutation_rate <= 100,
        all_wf(population@),
    ensures
        r.len() == population.len(),
        all_wf(r@),
        generation_outcome(population@, tournament_size as nat, mutation_rate, mutation_size, r@),
{
    let n = population.len();
    let pool = breeding_pool(population, tournament_size);
    let count = n / 2 + n % 2;
    let mut pairs: Vec<(usize, usize)> = Vec::new();
    while pairs.len() < count
        invariant
            n == population.len(),
            n > 0,
            pool.len() == n,
            pairs.len() <= count,
            forall|i: int| 0 <= i < n ==> #[trigger] pool@[i] < n,
            forall|m: int| 0 <= m < pairs.len() ==> pool@.contains((#[trigger] pairs@[m]).0) && pool@.contains(pairs@[m].1)
                && pairs@[m].0 < n && pairs@[m].1 < n,
        decreases count - pairs.len(),
    {
        let x = random_index(n);
        let y = random_index(n);
        let px = pool[x];
        let py = pool[y];
        assert(pool@[x as int] == px);
        assert(pool@[y as int] == py);
        pairs.push((px, py));
    }
    let children = offspring(population, &pairs, n, mutation_rate, mutation_size);
    assert(pool_outcome(population@, tournament_size as nat, pool@));
    assert forall|i: int| 0 <= i < children.len() implies #[trigger] bred_from(
        population@,
        pool@,
        mutation_rate,
        mutation_size,
        children@[i],
    ) by {
        let m = i / 2;
        let pr = pairs@[m];
        if i == 2 * m {
            assert(child_of(population@[pr.0 as int], population@[pr.1 as int], mutation_rate, mutation_size, children@[i]));
        } else {
            assert(i == 2 * m + 1);
            assert(child_of(population@[pr.1 as int], population@[pr.0 as int], mutation_rate, mutation_size, children@[i]));
        }
    }
    children
}

/// What a run records: per generation, starting with the initial population,
/// the total fitness, the average fitness and the best fitness seen so far;
/// and a copy of the best genome seen.
pub struct AlgorithmStats<I: Individual> {
    pub total_generational_fitness: Vec<u128>,
    pub average_generational_fitness: Vec<u128>,
    pub best_generational_fitness: Vec<u64>,
    pub solution: I,
}

/// `s` never decreases.
pub open spec fn non_decreasing(s: Seq<u64>) -> bool {
    forall|i: int, j: int| 0 <= i <= j < s.len() ==> s[i] <= s[j]
}

impl<I: Individual> AlgorithmStats<I> {
    /// The record of a run over `generations` generational steps of
    /// populations of `population_size`.
    pub open spec fn wf(&self, population_size: usize, generations: nat) -> bool {
        &&& self.total_generational_fitness.len() == generations + 1
        &&& self.average_generational_fitness.len() == generations + 1
        &&& self.best_generational_fitness.len() == generations + 1
        &&& forall|g: int| 0 <= g <= generations ==> #[trigger] self.average_generational_fitness@[g]
            == self.total_generational_fitness@[g] / population_size as u128
        &&& non_decreasing(self.best_generational_fitness@)
        &&& self.solution.wf()
        &&& self.solution.score() == self.best_generational_fitness@.last()
    }
}

/// `b` is the highest score among the generations `history[0..=g]`.
pub open spec fn best_through<I: Individual>(history: Seq<Seq<I>>, g: int, b: u64) -> bool {
    &&& forall|h: int, j: int| 0 <= h <= g && 0 <= j < history[h].len() ==> (#[trigger] history[h][j]).score() <= b
    &&& exists|h: int, j: int| 0 <= h <= g && 0 <= j < history[h].len() && (#[trigger] history[h][j]).score() == b
}

/// `stats` records the generations `history` of `population_size` genomes:
/// per generation its exact total fitness and the best fitness so far.
pub open spec fn records<I: Individual>(stats: AlgorithmStats<I>, history: Seq<Seq<I>>, population_size: usize) -> bool {
    &&& history.len() > 0
    &&& stats.wf(population_size, (history.len() - 1) as nat)
    &&& forall|g: int| 0 <= g < history.len() ==> #[trigger] generation_recorded(stats, history, population_size, g)
}

/// Generation `g` of `history` has `population_size` well-formed genomes,
/// and `stats` holds its exact total fitness and the best fitness so far.
pub open spec fn generation_recorded<I: Individual>(
    stats: AlgorithmStats<I>,
    history: Seq<Seq<I>>,
    population_size: usize,
    g: int,
) -> bool {
    &&& history[g].len() == population_size
    &&& all_wf(history[g])
    &&& stats.total_generational_fitness@[g] == total_score(history[g])
    &&& best_through(history, g, stats.best_generational_fitness@[g])
}

/// `solution` is a copy of the first genome of `history`, by generation and
/// then by position, that reached the score `b`.
pub open spec fn first_best<I: Individual>(history: Seq<Seq<I>>, solution: I, b: u64) -> bool {
    exists|h: int, j: int|
        0 <= h < history.len() && 0 <= j < history[h].len() && #[trigger] solution.copy_of(history[h][j])
            && history[h][j].score() == b
            && (forall|h2: int, j2: int| 0 <= h2 < h && 0 <= j2 < history[h2].len() ==> (#[trigger] history[h2][j2]).score() < b)
            && (forall|j2: int| 0 <= j2 < j ==> (#[trigger] history[h][j2]).score() < b)
}

/// Each generation of `history` after the first is bred from the one before
/// it, with tournaments of `k` and mutation at `rate` percent by at most
/// `size`.
pub open spec fn evolved<I: Individual>(history: Seq<Seq<I>>, k: nat, rate: u32, size: u64) -> bool {
    forall|g: int| 0 <= g < history.len() - 1 ==> #[trigger] generation_outcome(history[g], k, rate, size, history[g + 1])
}

proof fn lemma_first_best_step<I: Individual>(
    old_history: Seq<Seq<I>>,
    history: Seq<Seq<I>>,
    before: I,
    after: I,
    prev: u64,
    b: u64,
)
    requires
        old_history.len() > 0,
        history == old_history.push(history.last()),
        first_best(old_history, before, prev),
        best_through(old_history, old_history.len() - 1, prev),
        (after == before && b == prev) || (b > prev && exists|j: int| 0 <= j < history.last().len()
            && #[trigger] after.copy_of(history.last()[j]) && history.last()[j].score() == b
            && forall|j2: int| 0 <= j2 < j ==> history.last()[j2].score() < b),
    ensures
        first_best(history, after, b),
{
    let g = old_history.len() as int;
    if after == before && b == prev {
        let (h, j) = choose|h: int, j: int|
            0 <= h < old_history.len() && 0 <= j < old_history[h].len() && #[trigger] before.copy_of(old_history[h][j])
                && old_history[h][j].score() == prev
                && (forall|h2: int, j2: int| 0 <= h2 < h && 0 <= j2 < old_history[h2].len() ==> (#[trigger] old_history[h2][j2]).score() < prev)
                && (forall|j2: int| 0 <= j2 < j ==> (#[trigger] old_history[h][j2]).score() < prev);
        assert(history[h] == old_history[h]);
        assert forall|h2: int, j2: int| 0 <= h2 < h && 0 <= j2 < history[h2].len() implies (#[trigger] history[h2][j2]).score() < b by {
            assert(history[h2] == old_history[h2]);
        }
        assert(after.copy_of(history[h][j]));
    } else {
        let j = choose|j: int| 0 <= j < history.last().len()
            && #[trigger] after.copy_of(history.last()[j]) && history.last()[j].score() == b
            && forall|j2: int| 0 <= j2 < j ==> history.last()[j2].score() < b;
        assert(history[g] == history.last());
        assert forall|h2: int, j2: int| 0 <= h2 < g && 0 <= j2 < history[h2].len() implies (#[trigger] history[h2][j2]).score() < b by {
            assert(history[h2] == old_history[h2]);
            assert(old_history[h2][j2].score() <= prev);
        }
        assert forall|j2: int| 0 <= j2 < j implies (#[trigger] history[g][j2]).score() < b by {
            assert(history.last()[j2].score() < b);
        }
        assert(after.copy_of(history[g][j]));
    }
}

/// Records a generation in `stats`: its totals, and its fittest genome if it
/// beats the best one seen so far.
fn record_generation<I: Individual>(stats: &mut AlgorithmStats<I>, population: &Vec<I>, Ghost(generations): Ghost<nat>)
    requires
        population.len() > 0,
        all_wf(population@),
        old(stats).wf(population.len(), generations),
    ensures
        final(stats).wf(population.len(), generations + 1),
        final(stats).total_generational_fitness@ == old(stats).total_generational_fitness@.push(
            total_score(population@) as u128,
        ),
        final(stats).best_generational_fitness@.last() >= old(stats).best_generational_fitness@.last(),
        forall|j: int| 0 <= j < population.len() ==> (#[trigger] population@[j]).score()
            <= final(stats).best_generational_fitness@.last(),
        final(stats).best_generational_fitness@.last() == old(stats).best_generational_fitness@.last()
            || exists|j: int| 0 <= j < population.len() && (#[trigger] population@[j]).score()
            == final(stats).best_generational_fitness@.last(),
        final(stats).best_generational_fitness@.drop_last() == old(stats).best_generational_fitness@,
        (final(stats).solution == old(stats).solution && final(stats).best_generational_fitness@.last()
            == old(stats).best_generational_fitness@.last()) || (final(stats).best_generational_fitness@.last()
            > old(stats).best_generational_fitness@.last() && exists|j: int| 0 <= j < population.len()
            && #[trigger] final(stats).solution.copy_of(population@[j]) && population@[j].score()
            == final(stats).best_generational_fitness@.last() && forall|j2: int| 0 <= j2 < j
            ==> population@[j2].score() < final(stats).best_generational_fitness@.last()),
{
    let total = total_fitness(population);
    let best = fittest(population);
    let best_fitness = population[best].fitness();
    let last = stats.best_generational_fitness.len() - 1;
    let mut record = stats.best_generational_fitness[last];
    if best_fitness > record {
        stats.solution = population[best].duplicate();
        record = best_fitness;
        assert(stats.solution.copy_of(population@[best as int]));
    }
    stats.total_generational_fitness.push(total);
    stats.average_generational_fitness.push(total / population.len() as u128);
    stats.best_generational_fitness.push(record);
    assert(non_decreasing(stats.best_generational_fitness@));
}

proof fn lemma_best_through_extend<I: Individual>(old_history: Seq<Seq<I>>, history: Seq<Seq<I>>, k: int, b: u64)
    requires
        old_history.len() > 0,
        history == old_history.push(history.last()),
        0 <= k < old_history.len(),
        best_through(old_history, k, b),
    ensures
        best_through(history, k, b),
{
    let (h, j) = choose|h: int, j: int| 0 <= h <= k && 0 <= j < old_history[h].len() && (#[trigger] old_history[h][j]).score() == b;
    assert(history[h] == old_history[h]);
    assert(history[h][j].score() == b);
    assert forall|h2: int, j2: int| 0 <= h2 <= k && 0 <= j2 < history[h2].len() implies (#[trigger] history[h2][j2]).score() <= b by {
        assert(history[h2] == old_history[h2]);
        assert(old_history[h2][j2].score() <= b);
    }
}

proof fn lemma_best_through_new<I: Individual>(old_history: Seq<Seq<I>>, history: Seq<Seq<I>>, prev: u64, b: u64)
    requires
        old_history.len() > 0,
        history == old_history.push(history.last()),
        best_through(old_history, old_history.len() - 1, prev),
        prev <= b,
        forall|j: int| 0 <= j < history.last().len() ==> (#[trigger] history.last()[j]).score() <= b,
        b == prev || exists|j: int| 0 <= j < history.last().len() && (#[trigger] history.last()[j]).score() == b,
    ensures
        best_through(history, old_history.len() as int, b),
{
    let g = old_history.len() as int;
    lemma_best_through_extend(old_history, history, g - 1, prev);
    assert(history[g] == history.last());
    assert forall|h: int, j: int| 0 <= h <= g && 0 <= j < history[h].len() implies (#[trigger] history[h][j]).score() <= b by {
        if h < g {
            assert(history[h][j].score() <= prev);
        } else {
            assert(history.last()[j].score() <= b);
        }
    }
    if b != prev {
        let j = choose|j: int| 0 <= j < history.last().len() && (#[trigger] history.last()[j]).score() == b;
        assert(history[g][j].score() == b);
    }
}

proof fn lemma_record_step<I: Individual>(
    before: AlgorithmStats<I>,
    after: AlgorithmStats<I>,
    old_history: Seq<Seq<I>>,
    history: Seq<Seq<I>>,
    n: usize,
)
    requires
        records(before, old_history, n),
        history == old_history.push(history.last()),
        history.last().len() == n,
        n > 0,
        all_wf(history.last()),
        after.wf(n, old_history.len()),
        after.total_generational_fitness@ == before.total_generational_fitness@.push(
            total_score(history.last()) as u128,
        ),
        after.best_generational_fitness@.drop_last() == before.best_generational_fitness@,
        after.best_generational_fitness@.last() >= before.best_generational_fitness@.last(),
        forall|j: int| 0 <= j < n ==> (#[trigger] history.last()[j]).score() <= after.best_generational_fitness@.last(),
        after.best_generational_fitness@.last() == before.best_generational_fitness@.last()
            || exists|j: int| 0 <= j < n && (#[trigger] history.last()[j]).score()
            == after.best_generational_fitness@.last(),
    ensures
        records(after, history, n),
{
    let g = old_history.len() as int;
    let b = after.best_generational_fitness@.last();
    let prev = before.best_generational_fitness@.last();
    assert(generation_recorded(before, old_history, n, g - 1));
    assert(before.best_generational_fitness@[g - 1] == prev);
    lemma_best_through_new(old_history, history, prev, b);
    lemma_total_score_bound(history.last());
    assert(n * (u64::MAX as int) <= u128::MAX) by (nonlinear_arith)
        requires
            n <= usize::MAX,
    ;
    assert forall|k: int| 0 <= k < history.len() implies #[trigger] generation_recorded(after, history, n, k) by {
        if k < g {
            assert(generation_recorded(before, old_history, n, k));
            assert(history[k] == old_history[k]);
            assert(after.best_generational_fitness@.drop_last()[k] == after.best_generational_fitness@[k]);
            lemma_best_through_extend(old_history, history, k, before.best_generational_fitness@[k]);
        } else {
            assert(history[k] == history.last());
        }
    }
}

/// Runs `config.epochs` generational steps from a freshly sampled population
/// of `config.population_size` genomes, or rejects an invalid configuration
/// before any genome is sampled.
pub fn run<I: Individual>(config: AlgorithmConfig) -> (r: Result<AlgorithmStats<I>, ConfigError>)
    ensures
        r.is_ok() == config.valid(),
        r.is_err() ==> Some(r->Err_0) == config_error_of(
            config.population_size,
            config.tournament_size,
            config.mutation_rate,
        ),
        r.is_ok() ==> r->Ok_0.wf(config.population_size, config.epochs as nat),
        r.is_ok() ==> exists|history: Seq<Seq<I>>| #[trigger] history.len() == config.epochs + 1
            && records(r->Ok_0, history, config.population_size)
            && evolved(history, config.tournament_size as nat, config.mutation_rate, config.mutation_size)
            && first_best(history, r->Ok_0.solution, r->Ok_0.best_generational_fitness@.last()),
{
    match config.validate() {
        Err(e) => {
            return Err(e);
        },
        Ok(()) => {},
    }
    let n = config.population_size;
    let mut population: Vec<I> = Vec::new();
    while population.len() < n
        invariant
            population.len() <= n,
            all_wf(population@),
        decreases n - population.len(),
    {
        population.push(I::new());
    }
    let total = total_fitness(&population);
    let best = fittest(&population);
    let mut stats = AlgorithmStats {
        total_generational_fitness: vec![total],
        average_generational_fitness: vec![total / n as u128],
        best_generational_fitness: vec![population[best].fitness()],
        solution: population[best].duplicate(),
    };
    let ghost mut history: Seq<Seq<I>> = seq![population@];
    assert(history[0][best as int].score() == stats.best_generational_fitness@[0]);
    assert(stats.solution.copy_of(history[0][best as int]));
    let mut epoch: usize = 0;
    while epoch < config.epochs
        invariant
            epoch <= config.epochs,
            config.valid(),
            population.len() == n,
            n == config.population_size,
            all_wf(population@),
            history.len() == epoch + 1,
            history.last() == population@,
            records(stats, history, n),
            evolved(history, config.tournament_size as nat, config.mutation_rate, config.mutation_size),
            first_best(history, stats.solution, stats.best_generational_fitness@.last()),
        decreases config.epochs - epoch,
    {
        let ghost previous = population@;
        population = next_generation(&population, config.tournament_size, config.mutation_rate, config.mutation_size);
        let ghost before = stats;
        let ghost old_history = history;
        record_generation(&mut stats, &population, Ghost(epoch as nat));
        proof {
            history = history.push(population@);
            lemma_record_step(before, stats, old_history, history, n);
            let g = old_history.len() - 1;
            assert(generation_recorded(before, old_history, n, g));
            assert(before.best_generational_fitness@[g] == before.best_generational_fitness@.last());
            lemma_first_best_step(
                old_history,
                history,
                before.solution,
                stats.solution,
                before.best_generational_fitness@.last(),
                stats.best_generational_fitness@.last(),
            );
            assert forall|h: int| 0 <= h < history.len() - 1 implies #[trigger] generation_outcome(
                history[h],
                config.tournament_size as nat,
                config.mutation_rate,
                config.mutation_size,
                history[h + 1],
            ) by {
                if h < g {
                    assert(history[h] == old_history[h]);
                    assert(history[h + 1] == old_history[h + 1]);
                } else {
                    assert(history[h] == previous);
                    assert(history[h + 1] == population@);
                }
            }
        }
        epoch = epoch + 1;
    }
    Ok(stats)
}

} // verus!
