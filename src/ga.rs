use vstd::prelude::*;

use crate::genetics::{
    all_wf, bred_from, check_parameters, child_of, config_error_of, evolved, generation_outcome,
    next_generation, pool_outcome, total_fitness, total_score, ConfigError,
};
use crate::genetics::Individual as Genome;
use crate::random::random_in;

verus! {

/// The value of a gene at its upper bound: genes are fixed-point fractions in
/// thousandths, from 0 (nothing) to `GENE_SCALE` (one whole).
pub const GENE_SCALE: u32 = 1000;

/// The largest genome, so that a genome's fitness fits in a `u64`.
pub const MAX_GENOME_SIZE: usize = 0xFFFF_FFFF;

/// The number of genes of a genome that is sampled with no size given.
pub const DEFAULT_GENOME_SIZE: usize = 16;

/// The sum of the genes of `genes`.
pub open spec fn gene_sum(genes: Seq<u32>) -> int
    decreases genes.len(),
{
    if genes.len() == 0 {
        0
    } else {
        gene_sum(genes.drop_last()) + genes.last()
    }
}

/// `point` is a crossover point for parents of `a_len` and `b_len` genes:
/// below both lengths, or 0 when a parent is empty.
pub open spec fn valid_point(a_len: int, b_len: int, point: int) -> bool {
    if a_len == 0 || b_len == 0 {
        point == 0
    } else {
        0 <= point < a_len && point < b_len
    }
}

/// Every gene of `genes` lies in `[0, GENE_SCALE]`.
pub open spec fn genes_in_range(genes: Seq<u32>) -> bool {
    forall|i: int| 0 <= i < genes.len() ==> #[trigger] genes[i] <= GENE_SCALE
}

/// The child of single-point crossover at `point`: the genes of `a` before
/// `point`, then those of `b` from `point` on.
pub open spec fn spliced(a: Seq<u32>, b: Seq<u32>, point: int) -> Seq<u32> {
    a.subrange(0, point) + b.subrange(point, b.len() as int)
}

/// `gene` moved by `amount`, up when `raise` holds and down otherwise, and
/// clamped to `[0, GENE_SCALE]`.
pub open spec fn perturbed(gene: u32, amount: u64, raise: bool) -> u32 {
    if raise {
        if gene + amount > GENE_SCALE {
            GENE_SCALE
        } else {
            (gene + amount) as u32
        }
    } else {
        if gene - amount < 0 {
            0
        } else {
            (gene - amount) as u32
        }
    }
}

/// A gene after mutation at `rate` percent, for the draws `roll` (below 100),
/// `amount` and `raise`: perturbed when `roll < rate`, else kept.
pub open spec fn mutated_gene(gene: u32, rate: u32, roll: u32, amount: u64, raise: bool) -> u32 {
    if roll < rate {
        perturbed(gene, amount, raise)
    } else {
        gene
    }
}

/// `out` is what mutation at `rate` percent, by at most `step`, can make of
/// `gene`.
pub open spec fn mutation_outcome(gene: u32, rate: u32, step: u64, out: u32) -> bool {
    exists|roll: u32, amount: u64, raise: bool|
        roll < 100 && amount <= step && out == #[trigger] mutated_gene(gene, rate, roll, amount, raise)
}

/// `out` is what mutation at `rate` percent, by at most `step`, can make of
/// `genes`, gene by gene.
pub open spec fn mutation_outcomes(genes: Seq<u32>, rate: u32, step: u64, out: Seq<u32>) -> bool {
    &&& out.len() == genes.len()
    &&& forall|i: int| 0 <= i < genes.len() ==> mutation_outcome(#[trigger] genes[i], rate, step, out[i])
}

proof fn lemma_gene_sum_bound(genes: Seq<u32>)
    requires
        genes_in_range(genes),
    ensures
        0 <= gene_sum(genes) <= genes.len() * GENE_SCALE,
    decreases genes.len(),
{
    if genes.len() > 0 {
        assert(genes_in_range(genes.drop_last()));
        lemma_gene_sum_bound(genes.drop_last());
    }
}

/// The sum of the genes of `genes`.
pub fn sum_genes(genes: &Vec<u32>) -> (r: u64)
    requires
        genes.len() <= MAX_GENOME_SIZE,
        genes_in_range(genes@),
    ensures
        r == gene_sum(genes@),
{
    let mut total: u64 = 0;
    let mut i: usize = 0;
    while i < genes.len()
        invariant
            i <= genes.len() <= MAX_GENOME_SIZE,
            genes_in_range(genes@),
            total == gene_sum(genes@.subrange(0, i as int)),
        decreases genes.len() - i,
    {
        proof {
            let prefix = genes@.subrange(0, i as int);
            assert(genes@.subrange(0, i + 1).drop_last() =~= prefix);
            assert(genes_in_range(prefix));
            lemma_gene_sum_bound(prefix);
        }
        total = total + genes[i] as u64;
        i = i + 1;
    }
    assert(genes@.subrange(0, i as int) =~= genes@);
    total
}

/// Single-point crossover at `point`: the genes of `a` before `point`, then
/// those of `b` from `point` on.
pub fn crossover_at(a: &Vec<u32>, b: &Vec<u32>, point: usize) -> (r: Vec<u32>)
    requires
        point <= a.len(),
        point <= b.len(),
    ensures
        r@ == spliced(a@, b@, point as int),
{
    let mut genes: Vec<u32> = Vec::new();
    let mut i: usize = 0;
    while i < b.len()
        invariant
            point <= a.len(),
            point <= b.len(),
            i <= b.len(),
            genes@ == spliced(a@, b@, point as int).subrange(0, i as int),
        decreases b.len() - i,
    {
        if i < point {
            genes.push(a[i]);
        } else {
            genes.push(b[i]);
        }
        i = i + 1;
        assert(genes@ =~= spliced(a@, b@, point as int).subrange(0, i as int));
    }
    assert(spliced(a@, b@, point as int).subrange(0, i as int) =~= spliced(a@, b@, point as int));
    genes
}

/// One gene after mutation at `rate` percent, for the draws `roll`, `amount`
/// and `raise`.
pub fn mutate_gene(gene: u32, rate: u32, roll: u32, amount: u64, raise: bool) -> (r: u32)
    requires
        gene <= GENE_SCALE,
    ensures
        r == mutated_gene(gene, rate, roll, amount, raise),
        r <= GENE_SCALE,
{
    if roll >= rate {
        gene
    } else if raise {
        if amount >= (GENE_SCALE - gene) as u64 {
            GENE_SCALE
        } else {
            gene + amount as u32
        }
    } else {
        if amount >= gene as u64 {
            0
        } else {
            gene - amount as u32
        }
    }
}

/// Mutates every gene of `genes` on its own: with a chance of `rate`
/// percent it is moved up or down, as a coin decides, by an amount drawn
/// from `[0, step]`, and clamped to `[0, GENE_SCALE]`.
pub fn mutate_genes(genes: &Vec<u32>, rate: u32, step: u64) -> (r: Vec<u32>)
    requires
        genes_in_range(genes@),
    ensures
        genes_in_range(r@),
        mutation_outcomes(genes@, rate, step, r@),
{
    let mut out: Vec<u32> = Vec::new();
    let mut i: usize = 0;
    while i < genes.len()
        invariant
            i <= genes.len(),
            out.len() == i,
            genes_in_range(genes@),
            genes_in_range(out@),
            forall|j: int| 0 <= j < i ==> mutation_outcome(#[trigger] genes@[j], rate, step, out@[j]),
        decreases genes.len() - i,
    {
        let roll = random_in(0, 99) as u32;
        let amount = random_in(0, step);
        let raise = random_in(0, 1) == 1;
        let gene = mutate_gene(genes[i], rate, roll, amount, raise);
        assert(mutation_outcome(genes@[i as int], rate, step, gene));
        out.push(gene);
        i = i + 1;
    }
    out
}

/// `out` is `gene` moved up or down by at most `step`, and clamped.
pub open spec fn perturbation_of(gene: u32, step: u64, out: u32) -> bool {
    exists|amount: u64, raise: bool| amount <= step && out == #[trigger] perturbed(gene, amount, raise)
}

/// Mutation at a rate of nothing changes no gene; at a rate of a hundred
/// percent it perturbs every gene, each by at most `step`.
pub proof fn lemma_mutation_bounds(genes: Seq<u32>, step: u64, out: Seq<u32>)
    ensures
        mutation_outcomes(genes, 0, step, out) ==> out == genes,
        mutation_outcomes(genes, 100, step, out) ==> forall|i: int| 0 <= i < genes.len()
            ==> #[trigger] perturbation_of(genes[i], step, out[i]),
{
    if mutation_outcomes(genes, 0, step, out) {
        assert(out =~= genes);
    }
    if mutation_outcomes(genes, 100, step, out) {
        assert forall|i: int| 0 <= i < genes.len() implies #[trigger] perturbation_of(genes[i], step, out[i]) by {
            assert(mutation_outcome(genes[i], 100, step, out[i]));
            let (roll, amount, raise) = choose|roll: u32, amount: u64, raise: bool|
                roll < 100 && amount <= step && out[i] == #[trigger] mutated_gene(genes[i], 100, roll, amount, raise);
            assert(out[i] == perturbed(genes[i], amount, raise));
        }
    }
}

/// Single-point crossover at any point of the genome takes the genes before
/// the point from the first parent and the others from the second.
pub proof fn lemma_crossover_split(a: Seq<u32>, b: Seq<u32>, point: int)
    requires
        a.len() == b.len(),
        0 <= point < a.len(),
    ensures
        spliced(a, b, point).len() == a.len(),
        forall|i: int| 0 <= i < point ==> #[trigger] spliced(a, b, point)[i] == a[i],
        forall|i: int| point <= i < a.len() ==> #[trigger] spliced(a, b, point)[i] == b[i],
{
}

/// Crossing a genome with itself gives it back, whatever the point.
pub proof fn lemma_self_crossover(genes: Seq<u32>, point: int)
    requires
        0 <= point <= genes.len(),
    ensures
        spliced(genes, genes, point) == genes,
{
    assert(spliced(genes, genes, point) =~= genes);
}

/// A genome of fixed-point genes whose fitness is the sum of its genes.
#[derive(Clone, Debug)]
pub struct Individual {
    genes: Vec<u32>,
    genome_size: usize,
    fitness: u64,
}

impl Individual {
    /// The genome is well formed: its genes in range, its size and its
    /// cached fitness matching its genes.
    pub open spec fn well_formed(&self) -> bool {
        &&& self.size_matches()
        &&& self.genes_view().len() <= MAX_GENOME_SIZE
        &&& genes_in_range(self.genes_view())
        &&& self.fitness_view() == gene_sum(self.genes_view())
    }

    /// The recorded genome size is the number of genes.
    pub closed spec fn size_matches(&self) -> bool {
        self.genes.len() == self.genome_size
    }

    /// The genes, in order.
    pub closed spec fn genes_view(&self) -> Seq<u32> {
        self.genes@
    }

    /// The cached fitness.
    pub closed spec fn fitness_view(&self) -> u64 {
        self.fitness
    }

    /// A genome of `genome_size` genes drawn uniformly from `[0, GENE_SCALE]`.
    pub fn random(genome_size: usize) -> (r: Individual)
        requires
            genome_size <= MAX_GENOME_SIZE,
        ensures
            r.well_formed(),
            r.genes_view().len() == genome_size,
    {
        let mut genes: Vec<u32> = Vec::new();
        while genes.len() < genome_size
            invariant
                genes.len() <= genome_size,
                genes_in_range(genes@),
            decreases genome_size - genes.len(),
        {
            genes.push(random_in(0, GENE_SCALE as u64) as u32);
        }
        let fitness = sum_genes(&genes);
        Individual { genes, genome_size, fitness }
    }

    /// The genome with the genes `genes`, or `None` when a gene lies above
    /// `GENE_SCALE` or there are more than `MAX_GENOME_SIZE` genes.
    pub fn from_genes(genes: Vec<u32>) -> (r: Option<Individual>)
        ensures
            r.is_some() == (genes.len() <= MAX_GENOME_SIZE && genes_in_range(genes@)),
            r.is_some() ==> r->Some_0.well_formed() && r->Some_0.genes_view() == genes@,
    {
        if genes.len() > MAX_GENOME_SIZE {
            return None;
        }
        let mut i: usize = 0;
        while i < genes.len()
            invariant
                i <= genes.len(),
                forall|j: int| 0 <= j < i ==> #[trigger] genes@[j] <= GENE_SCALE,
            decreases genes.len() - i,
        {
            if genes[i] > GENE_SCALE {
                return None;
            }
            i = i + 1;
        }
        let fitness = sum_genes(&genes);
        let genome_size = genes.len();
        Some(Individual { genes, genome_size, fitness })
    }

    /// The genes, in order.
    pub fn genes(&self) -> (r: &Vec<u32>)
        ensures
            r@ == self.genes_view(),
    {
        &self.genes
    }

    /// The cached fitness: the sum of the genes.
    pub fn fitness(&self) -> (r: u64)
        requires
            self.well_formed(),
        ensures
            r == self.fitness_view(),
            r == gene_sum(self.genes_view()),
    {
        self.fitness
    }

    /// The child of single-point crossover of `self` and `partner` at
    /// `point`, with no mutation.
    pub fn splice_at(&self, partner: &Individual, point: usize) -> (r: Individual)
        requires
            self.well_formed(),
            partner.well_formed(),
            point <= self.genes_view().len(),
            point <= partner.genes_view().len(),
        ensures
            r.well_formed(),
            r.genes_view() == spliced(self.genes_view(), partner.genes_view(), point as int),
    {
        let genes = crossover_at(&self.genes, &partner.genes, point);
        assert(genes_in_range(genes@)) by {
            assert forall|i: int| 0 <= i < genes@.len() implies #[trigger] genes@[i] <= GENE_SCALE by {
                if i < point {
                    assert(genes@[i] == self.genes_view()[i]);
                } else {
                    assert(genes@[i] == partner.genes_view()[i]);
                }
            }
        }
        let fitness = sum_genes(&genes);
        Individual { genes, genome_size: partner.genome_size, fitness }
    }

    /// Single-point crossover at a point drawn uniformly below the shorter
    /// genome's length (at 0 when one of them is empty).
    pub fn splice(&self, partner: &Individual) -> (r: Individual)
        requires
            self.well_formed(),
            partner.well_formed(),
        ensures
            r.well_formed(),
            exists|point: int| valid_point(self.genes_view().len() as int, partner.genes_view().len() as int, point)
                && r.genes_view() == #[trigger] spliced(self.genes_view(), partner.genes_view(), point),
    {
        let shorter = if self.genes.len() < partner.genes.len() {
            self.genes.len()
        } else {
            partner.genes.len()
        };
        let point = if shorter == 0 {
            0
        } else {
            random_in(0, (shorter - 1) as u64) as usize
        };
        self.splice_at(partner, point)
    }

    /// A mutated copy: each gene perturbed with a chance of `rate` percent by
    /// at most `step`, and clamped to `[0, GENE_SCALE]`.
    pub fn mutated(&self, rate: u32, step: u64) -> (r: Individual)
        requires
            self.well_formed(),
        ensures
            r.well_formed(),
            mutation_outcomes(self.genes_view(), rate, step, r.genes_view()),
    {
        let genes = mutate_genes(&self.genes, rate, step);
        let fitness = sum_genes(&genes);
        Individual { genes, genome_size: self.genome_size, fitness }
    }

    /// A child of `self` and `partner`: single-point crossover, then
    /// mutation of each gene with a chance of `mutation_probability` percent
    /// by at most `mutation_step`.
    pub fn breed_with(&self, partner: &Individual, mutation_probability: u32, mutation_step: u64) -> (r: Individual)
        requires
            self.well_formed(),
            partner.well_formed(),
        ensures
            r.well_formed(),
            exists|point: int| valid_point(self.genes_view().len() as int, partner.genes_view().len() as int, point)
                && mutation_outcomes(
                #[trigger] spliced(self.genes_view(), partner.genes_view(), point),
                mutation_probability,
                mutation_step,
                r.genes_view(),
            ),
    {
        let child = self.splice(partner);
        child.mutated(mutation_probability, mutation_step)
    }
}

impl Genome for Individual {
    open spec fn wf(&self) -> bool {
        self.well_formed()
    }

    open spec fn score(&self) -> u64 {
        self.fitness_view()
    }

    open spec fn crossover_outcome(&self, partner: Individual, child: Individual) -> bool {
        exists|point: int| valid_point(self.genes_view().len() as int, partner.genes_view().len() as int, point)
            && child.genes_view() == #[trigger] spliced(self.genes_view(), partner.genes_view(), point)
    }

    open spec fn copy_of(&self, original: Individual) -> bool {
        self.genes_view() == original.genes_view() && self.fitness_view() == original.fitness_view()
    }

    open spec fn mutation_result(&self, rate: u32, size: u64, out: Individual) -> bool {
        mutation_outcomes(self.genes_view(), rate, size, out.genes_view())
    }

    fn new() -> (r: Individual) {
        Individual::random(DEFAULT_GENOME_SIZE)
    }

    fn crossover(&self, partner: &Individual) -> (r: Individual) {
        self.splice(partner)
    }

    fn mutate(&self, mutation_rate: u32, mutation_size: u64) -> (r: Individual) {
        self.mutated(mutation_rate, mutation_size)
    }

    fn fitness(&self) -> (r: u64) {
        self.fitness
    }

    fn calculate_fitness(&self) -> (r: u64) {
        sum_genes(&self.genes)
    }

    fn duplicate(&self) -> (r: Individual) {
        let mut genes: Vec<u32> = Vec::new();
        let mut i: usize = 0;
        while i < self.genes.len()
            invariant
                i <= self.genes.len(),
                genes@ == self.genes_view().subrange(0, i as int),
            decreases self.genes.len() - i,
        {
            genes.push(self.genes[i]);
            i = i + 1;
            assert(genes@ =~= self.genes_view().subrange(0, i as int));
        }
        assert(genes@ =~= self.genes_view());
        Individual { genes, genome_size: self.genome_size, fitness: self.fitness }
    }
}

/// Every genome of `s` has `len` genes.
pub open spec fn uniform_length(s: Seq<Individual>, len: nat) -> bool {
    forall|i: int| 0 <= i < s.len() ==> (#[trigger] s[i]).genes_view().len() == len
}

/// Breeding keeps the genome length: when every genome of a population has
/// `len` genes, so does every genome of a generation bred from it.
pub proof fn lemma_generation_keeps_length(
    s: Seq<Individual>,
    k: nat,
    rate: u32,
    step: u64,
    next: Seq<Individual>,
    len: nat,
)
    requires
        generation_outcome(s, k, rate, step, next),
        uniform_length(s, len),
    ensures
        uniform_length(next, len),
{
    let pool = choose|pool: Seq<usize>| #[trigger] pool_outcome(s, k, pool)
        && forall|i: int| 0 <= i < next.len() ==> #[trigger] bred_from(s, pool, rate, step, next[i]);
    assert forall|i: int| 0 <= i < next.len() implies (#[trigger] next[i]).genes_view().len() == len by {
        assert(bred_from(s, pool, rate, step, next[i]));
        let (x, y) = choose|x: usize, y: usize|
            pool.contains(x) && pool.contains(y) && x < s.len() && y < s.len()
                && #[trigger] child_of(s[x as int], s[y as int], rate, step, next[i]);
        let c = choose|c: Individual| s[x as int].crossover_outcome(s[y as int], c)
            && #[trigger] c.mutation_result(rate, step, next[i]);
        let point = choose|point: int| valid_point(s[x as int].genes_view().len() as int, s[y as int].genes_view().len() as int, point)
            && c.genes_view() == #[trigger] spliced(s[x as int].genes_view(), s[y as int].genes_view(), point);
        assert(s[x as int].genes_view().len() == len);
        assert(s[y as int].genes_view().len() == len);
    }
}

/// A population of fixed-point genomes that evolves one generation at a
/// time, with its total fitness kept up to date.
pub struct Population {
    pub population: Vec<Individual>,
    pub total_fitness: u128,
    pub current_generation: usize,
    pub population_size: usize,
    pub mutation_probability: u32,
    pub mutation_step: u64,
    pub tournament_size: usize,
}

impl Population {
    /// The population is well formed: of its configured size, its genomes
    /// well formed, its total fitness their sum, its parameters valid.
    pub open spec fn wf(&self) -> bool {
        &&& self.population.len() == self.population_size
        &&& all_wf(self.population@)
        &&& self.total_fitness == total_score(self.population@)
        &&& self.current_generation >= 1
        &&& config_error_of(self.population_size, self.tournament_size, self.mutation_probability).is_none()
    }

    /// The genomes of the current generation.
    pub open spec fn members(&self) -> Seq<Individual> {
        self.population@
    }

    /// The recorded total fitness.
    pub open spec fn total(&self) -> u128 {
        self.total_fitness
    }

    /// The number of the current generation, counting from 1.
    pub open spec fn generation(&self) -> usize {
        self.current_generation
    }

    /// The number of genomes, fixed at construction.
    pub open spec fn size(&self) -> usize {
        self.population_size
    }

    /// The tournament size, fixed at construction.
    pub open spec fn tournament(&self) -> usize {
        self.tournament_size
    }

    /// The mutation rate in percent, fixed at construction.
    pub open spec fn rate(&self) -> u32 {
        self.mutation_probability
    }

    /// The largest mutation step, fixed at construction.
    pub open spec fn step(&self) -> u64 {
        self.mutation_step
    }

    /// The parameters are unchanged from `other`.
    pub open spec fn same_parameters(&self, other: &Population) -> bool {
        &&& self.size() == other.size()
        &&& self.tournament() == other.tournament()
        &&& self.rate() == other.rate()
        &&& self.step() == other.step()
    }

    /// A population of `population_size` random genomes of `genome_size`
    /// genes, at generation 1; or the first rule that the parameters break.
    pub fn new(
        genome_size: usize,
        population_size: usize,
        mutation_probability: u32,
        mutation_step: u64,
        tournament_size: usize,
    ) -> (r: Result<Population, ConfigError>)
        requires
            genome_size <= MAX_GENOME_SIZE,
        ensures
            r.is_err() == config_error_of(population_size, tournament_size, mutation_probability).is_some(),
            r.is_err() ==> Some(r->Err_0) == config_error_of(population_size, tournament_size, mutation_probability),
            r.is_ok() ==> {
                let p = r->Ok_0;
                &&& p.wf()
                &&& p.generation() == 1
                &&& p.members().len() == population_size
                &&& forall|i: int| 0 <= i < population_size ==> (#[trigger] p.members()[i]).well_formed()
                &&& p.size() == population_size
                &&& p.tournament() == tournament_size
                &&& p.rate() == mutation_probability
                &&& p.step() == mutation_step
                &&& forall|i: int| 0 <= i < population_size ==> (#[trigger] p.members()[i]).genes_view().len() == genome_size
            },
    {
        match check_parameters(population_size, tournament_size, mutation_probability) {
            Some(e) => {
                return Err(e);
            },
            None => {},
        }
        let mut population: Vec<Individual> = Vec::new();
        while population.len() < population_size
            invariant
                population.len() <= population_size,
                genome_size <= MAX_GENOME_SIZE,
                all_wf(population@),
                forall|i: int| 0 <= i < population.len() ==> (#[trigger] population@[i]).genes_view().len() == genome_size,
            decreases population_size - population.len(),
        {
            population.push(Individual::random(genome_size));
        }
        let total_fitness = total_fitness(&population);
        Ok(Population {
            population,
            total_fitness,
            current_generation: 1,
            population_size,
            mutation_probability,
            mutation_step,
            tournament_size,
        })
    }

    /// One generational step: a breeding pool by tournaments, a new
    /// population of the same size bred from it, and the totals refreshed.
    pub fn advance_generation(&mut self)
        requires
            old(self).wf(),
            old(self).generation() < usize::MAX,
        ensures
            final(self).wf(),
            final(self).same_parameters(old(self)),
            final(self).members().len() == final(self).size(),
            final(self).total() == total_score(final(self).members()),
            final(self).generation() == old(self).generation() + 1,
            generation_outcome(old(self).members(), old(self).tournament() as nat, old(self).rate(), old(self).step(), final(self).members()),
            forall|len: nat| uniform_length(old(self).members(), len) ==> #[trigger] uniform_length(final(self).members(), len),
            final(self).members().len() == old(self).members().len(),
    {
        let next = next_generation(
            &self.population,
            self.tournament_size,
            self.mutation_probability,
            self.mutation_step,
        );
        proof {
            assert forall|len: nat| uniform_length(self.population@, len) implies #[trigger] uniform_length(next@, len) by {
                lemma_generation_keeps_length(
                    self.population@,
                    self.tournament_size as nat,
                    self.mutation_probability,
                    self.mutation_step,
                    next@,
                    len,
                );
            }
        }
        self.population = next;
        self.current_generation = self.current_generation + 1;
        self.update_fitness();
    }

    /// `generations` generational steps, one after the other.
    pub fn advance_generations(&mut self, generations: usize)
        requires
            old(self).wf(),
            old(self).generation() + generations <= usize::MAX,
        ensures
            final(self).wf(),
            final(self).same_parameters(old(self)),
            final(self).members().len() == final(self).size(),
            final(self).total() == total_score(final(self).members()),
            final(self).generation() == old(self).generation() + generations,
            forall|len: nat| uniform_length(old(self).members(), len) ==> #[trigger] uniform_length(final(self).members(), len),
            generations == 0 ==> final(self).members() == old(self).members() && final(self).total() == old(self).total(),
            final(self).members().len() == old(self).members().len(),
            exists|history: Seq<Seq<Individual>>| #[trigger] history.len() == generations + 1
                && history[0] == old(self).members() && history.last() == final(self).members()
                && evolved(history, old(self).tournament() as nat, old(self).rate(), old(self).step()),
    {
        let ghost mut history: Seq<Seq<Individual>> = seq![self.population@];
        let mut done: usize = 0;
        while done < generations
            invariant
                done <= generations,
                done == 0 ==> self.members() == old(self).members() && self.total() == old(self).total(),
                forall|len: nat| uniform_length(old(self).members(), len) ==> #[trigger] uniform_length(self.members(), len),
                self.wf(),
                self.same_parameters(old(self)),
                self.members().len() == self.size(),
                self.total() == total_score(self.members()),
                self.generation() == old(self).generation() + done,
                old(self).generation() + generations <= usize::MAX,
                self.population.len() == old(self).members().len(),
                history.len() == done + 1,
                history[0] == old(self).members(),
                history.last() == self.members(),
                evolved(history, old(self).tournament() as nat, old(self).rate(), old(self).step()),
            decreases generations - done,
        {
            let ghost previous = history;
            self.advance_generation();
            proof {
                history = history.push(self.population@);
                let k = old(self).tournament() as nat;
                assert forall|h: int| 0 <= h < history.len() - 1 implies #[trigger] generation_outcome(
                    history[h],
                    k,
                    old(self).rate(),
                    old(self).step(),
                    history[h + 1],
                ) by {
                    if h < previous.len() - 1 {
                        assert(history[h] == previous[h]);
                        assert(history[h + 1] == previous[h + 1]);
                    } else {
                        assert(history[h] == previous.last());
                    }
                }
            }
            done = done + 1;
        }
    }

    fn update_fitness(&mut self)
        requires
            all_wf(old(self).population@),
        ensures
            final(self).total_fitness == total_score(final(self).population@),
            final(self).population == old(self).population,
            final(self).current_generation == old(self).current_generation,
            final(self).population_size == old(self).population_size,
            final(self).tournament_size == old(self).tournament_size,
            final(self).mutation_probability == old(self).mutation_probability,
            final(self).mutation_step == old(self).mutation_step,
    {
        self.total_fitness = total_fitness(&self.population);
    }

    /// The average fitness of the genomes, rounded down.
    pub fn average_fitness(&self) -> (r: u128)
        requires
            self.wf(),
        ensures
            r == total_score(self.members()) / (self.members().len() as int),
    {
        total_fitness(&self.population) / self.population_size as u128
    }
}

} // verus!
