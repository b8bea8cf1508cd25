//! The breeding nursery: a square grid of scored genotypes, a human-chosen
//! set of champions, and the generational steps of interactive evolution.
use vstd::prelude::*;
use crate::genotype::{
    crossover_of, evaluate_genotype, fitness_of, mutation_of, slots_unique, GenotypeView, GrammarOperators,
    MaterialSlot, PlantGenotype,
};
use crate::random::{draw_below, seeded_rng};
use vstd::set_lib::{lemma_int_range, lemma_len_subset, set_int_range};

verus! {

/// Whether the nursery view is shown.
#[derive(Clone, Copy, PartialEq, Eq, Structural, Debug)]
pub enum NurseryMode {
    Disabled,
    Enabled,
}

impl Default for NurseryMode {
    fn default() -> (r: Self)
        ensures
            r == NurseryMode::Disabled,
    {
        NurseryMode::Disabled
    }
}

/// The editor's grammar and parameters that seed a population (angle, step
/// and width in thousandths).
#[derive(Clone, Debug)]
pub struct LSystemConfig {
    pub source_code: String,
    pub finalization_code: String,
    pub iterations: usize,
    pub default_angle: u32,
    pub step_size: u32,
    pub default_width: u32,
    pub seed: u64,
}

/// A genotype with its fitness.
#[derive(Clone, Debug)]
pub struct Phenotype {
    pub genotype: PlantGenotype,
    pub fitness: u128,
}

impl Phenotype {
    pub open spec fn wf(&self) -> bool {
        self.genotype.wf() && self.fitness == fitness_of(self.genotype@)
    }

    /// A genotype paired with its computed fitness.
    pub fn scored(genotype: PlantGenotype) -> (r: Self)
        requires
            genotype.wf(),
        ensures
            r.wf(),
            r.genotype@ == genotype@,
    {
        let fitness = evaluate_genotype(&genotype);
        Phenotype { genotype, fitness }
    }

    /// An exact copy.
    pub fn duplicate(&self) -> (r: Self)
        ensures
            r.genotype@ == self.genotype@,
            r.fitness == self.fitness,
    {
        Phenotype { genotype: self.genotype.duplicate(), fitness: self.fitness }
    }
}

/// `a + b` modulo 2^64.
pub open spec fn seed_sum(a: u64, b: u64) -> u64 {
    ((a as int + b as int) % 0x1_0000_0000_0000_0000) as u64
}

proof fn lemma_seed_sum_injective(x: u64, a: u64, b: u64)
    requires
        a != b,
    ensures
        seed_sum(x, a) != seed_sum(x, b),
{
    let m: int = 0x1_0000_0000_0000_0000;
    let sa = x as int + a as int;
    let sb = x as int + b as int;
    assert(sa % m == if sa < m { sa } else { sa - m });
    assert(sb % m == if sb < m { sb } else { sb - m });
}

pub fn seed_add(a: u64, b: u64) -> (r: u64)
    ensures
        r == seed_sum(a, b),
{
    if b <= u64::MAX - a {
        a + b
    } else {
        b - (u64::MAX - a) - 1
    }
}

pub open spec fn with_seed(g: GenotypeView, seed: u64) -> GenotypeView {
    GenotypeView { seed, ..g }
}


pub open spec fn no_duplicates(s: Seq<usize>) -> bool {
    forall|i: int, j: int| 0 <= i < j < s.len() ==> #[trigger] s[i] != #[trigger] s[j]
}

/// Distinct indices below `n` number at most `n`.
proof fn lemma_distinct_below(s: Seq<usize>, n: int)
    requires
        no_duplicates(s),
        0 <= n,
        forall|i: int| 0 <= i < s.len() ==> #[trigger] s[i] < n,
    ensures
        s.len() <= n,
{
    let t = s.map_values(|x: usize| x as int);
    assert(t.no_duplicates()) by {
        assert forall|i: int, j: int| 0 <= i < t.len() && 0 <= j < t.len() && i != j implies t[i] != t[j] by {
            if i < j {
                assert(s[i] != s[j]);
            } else {
                assert(s[j] != s[i]);
            }
        }
    }
    t.unique_seq_to_set();
    lemma_int_range(0, n);
    assert(t.to_set().subset_of(set_int_range(0, n))) by {
        assert forall|x: int| t.to_set().contains(x) implies set_int_range(0, n).contains(x) by {
            let i = choose|i: int| 0 <= i < t.len() && t[i] == x;
            assert(s[i] < n);
        }
    }
    lemma_len_subset(t.to_set(), set_int_range(0, n));
}

/// `c` was bred from parents `a` and `b`: crossed over, given `seed`, then
/// mutated at `rate`.
pub open spec fn bred_from(rate: int, a: GenotypeView, b: GenotypeView, seed: u64, c: GenotypeView) -> bool {
    exists|x: GenotypeView| crossover_of(a, b, x) && #[trigger] mutation_of(rate, with_seed(x, seed), c)
}

/// Every slot after the elites holds an individual bred from two champions,
/// with seed `base + slot`.
pub open spec fn offspring_bred(pop: Seq<Phenotype>, champions: Seq<usize>, rate: int, base: u64, next: Seq<Phenotype>) -> bool {
    forall|i: int| champions.len() <= i < pop.len() ==> bred_from_champions(
        pop,
        champions,
        rate,
        seed_sum(base, i as u64),
        #[trigger] next[i].genotype@,
    )
}

/// `g` was bred from two of the champions, given `seed`.
pub open spec fn bred_from_champions(pop: Seq<Phenotype>, champions: Seq<usize>, rate: int, seed: u64, g: GenotypeView) -> bool {
    exists|p: int, q: int|
        0 <= p < champions.len() && 0 <= q < champions.len() && #[trigger] bred_from(
            rate,
            pop[champions[p] as int].genotype@,
            pop[champions[q] as int].genotype@,
            seed,
            g,
        )
}

/// The genotype the editor's settings describe.
pub open spec fn base_genotype(config: &LSystemConfig, materials: Seq<MaterialSlot>) -> GenotypeView {
    GenotypeView {
        source_code: config.source_code@,
        finalization_code: config.finalization_code@,
        materials,
        iterations: config.iterations,
        angle: config.default_angle,
        step: config.step_size,
        width: config.default_width,
        seed: config.seed,
    }
}

/// The evolving population and its champions.
pub struct NurseryState {
    pub mode: NurseryMode,
    /// The individuals, in grid order.
    pub population: Vec<Phenotype>,
    /// Indices of the champions, in the order they were chosen.
    pub selected: Vec<usize>,
    /// Mutation rate, thousandths.
    pub mutation_rate: u32,
    /// Base seed of every generator the nursery makes.
    pub seed: u64,
    /// Generation counter; it advances by one (wrapping past `u64::MAX`).
    pub generation: u64,
    /// Set when the displayed population no longer matches.
    pub needs_3d_rebuild: bool,
    /// Side of the square grid; the population holds its square.
    pub grid_size: usize,
    /// Last derivation failure by population index, for display.
    pub errors: Vec<(usize, String)>,
}

impl Default for NurseryState {
    fn default() -> (r: Self)
        ensures
            r.wf(),
            r.population@.len() == 0,
            r.grid_size == 3,
            r.mutation_rate == 150,
            r.seed == 42,
            r.generation == 0,
    {
        NurseryState::new()
    }
}

impl NurseryState {
    /// The population is empty (not yet initialized) or fills the grid; the
    /// champions are distinct valid indices; every fitness is current; each
    /// index has at most one error.
    pub open spec fn wf(&self) -> bool {
        &&& self.grid_size * self.grid_size <= usize::MAX
        &&& (self.population@.len() == 0 || self.population@.len() == self.grid_size
            * self.grid_size)
        &&& no_duplicates(self.selected@)
        &&& forall|i: int| 0 <= i < self.selected@.len() ==> #[trigger] self.selected@[i] < self.population@.len()
        &&& forall|i: int| 0 <= i < self.population@.len() ==> (#[trigger] self.population@[i]).wf()
        &&& forall|i: int, j: int| 0 <= i < j < self.errors@.len() ==> #[trigger] self.errors@[i].0 != #[trigger] self.errors@[j].0
    }

    /// An empty nursery: 3 x 3 grid, rate 0.15, seed 42.
    pub fn new() -> (r: Self)
        ensures
            r.wf(),
            r.population@.len() == 0,
            r.grid_size == 3,
            r.mutation_rate == 150,
            r.seed == 42,
            r.generation == 0,
    {
        NurseryState {
            mode: NurseryMode::Disabled,
            population: Vec::new(),
            selected: Vec::new(),
            mutation_rate: 150,
            seed: 42,
            generation: 0,
            needs_3d_rebuild: false,
            grid_size: 3,
            errors: Vec::new(),
        }
    }

    /// The number of individuals the grid holds.
    pub fn population_size(&self) -> (r: usize)
        requires
            self.grid_size * self.grid_size <= usize::MAX,
        ensures
            r == self.grid_size * self.grid_size,
    {
        self.grid_size * self.grid_size
    }

    /// Fills the grid from the editor's settings: individual 0 is the base
    /// genotype itself, individual `i` a mutation of it with seed
    /// `seed + i`; generation 0, champion set `{0}`, no errors.
    pub fn initialize_from_editor<G: GrammarOperators>(
        &mut self,
        config: &LSystemConfig,
        materials: &Vec<MaterialSlot>,
        ops: &G,
    )
        requires
            old(self).wf(),
            slots_unique(materials@),
        ensures
            final(self).wf(),
            final(self).population@.len() == final(self).grid_size * final(self).grid_size,
            final(self).grid_size == old(self).grid_size,
            final(self).seed == old(self).seed,
            final(self).mutation_rate == old(self).mutation_rate,
            final(self).generation == 0,
            final(self).errors@.len() == 0,
            final(self).population@.len() > 0 ==> final(self).selected@ == seq![0usize],
            final(self).population@.len() == 0 ==> final(self).selected@.len() == 0,
            final(self).population@.len() > 0 ==> final(self).population@[0].genotype@
                == base_genotype(config, materials@),
            forall|i: int|
                1 <= i < final(self).population@.len() ==> mutation_of(
                old(self).mutation_rate as int,
                    with_seed(base_genotype(config, materials@), seed_sum(old(self).seed, i as u64)),
                    #[trigger] final(self).population@[i].genotype@,
                ),
    {
        let base = PlantGenotype::new(config.source_code.clone())
            .with_finalization(config.finalization_code.clone())
            .with_materials(materials)
            .with_params(config.iterations, config.default_angle, config.step_size, config.default_width)
            .with_seed(config.seed);
        let pop_size = self.population_size();
        let mut rng = seeded_rng(self.seed);
        let mut next: Vec<Phenotype> = Vec::new();
        let mut i: usize = 0;
        while i < pop_size
            invariant
                pop_size == self.grid_size * self.grid_size,
                self.grid_size * self.grid_size <= usize::MAX,
                i <= pop_size,
                next@.len() == i,
                base.wf(),
                base@ == base_genotype(config, materials@),
                forall|q: int| 0 <= q < i ==> (#[trigger] next@[q]).wf(),
                i > 0 ==> next@[0].genotype@ == base@,
                forall|q: int|
                    1 <= q < i ==> mutation_of(
                        self.mutation_rate as int,
                        with_seed(base@, seed_sum(self.seed, q as u64)),
                        #[trigger] next@[q].genotype@,
                    ),
            decreases pop_size - i,
        {
            let mut variant = base.duplicate();
            if i > 0 {
                variant.seed = seed_add(self.seed, i as u64);
                assert(variant@ == with_seed(base@, seed_sum(self.seed, i as u64)));
                variant.mutate(ops, &mut rng, self.mutation_rate);
            }
            next.push(Phenotype::scored(variant));
            i = i + 1;
        }
        self.population = next;
        self.generation = 0;
        self.selected = Vec::new();
        if pop_size > 0 {
            self.selected.push(0);
        }
        self.errors = Vec::new();
    }

    /// Whether `index` is a champion.
    pub fn is_selected(&self, index: usize) -> (r: bool)
        ensures
            r == self.selected@.contains(index),
    {
        let mut i: usize = 0;
        while i < self.selected.len()
            invariant
                i <= self.selected@.len(),
                forall|j: int| 0 <= j < i ==> self.selected@[j] != index,
            decreases self.selected@.len() - i,
        {
            if self.selected[i] == index {
                return true;
            }
            i = i + 1;
        }
        false
    }

    /// One generation of interactive evolution. Without champions every
    /// individual is mutated (seed `seed + generation + i`). With champions
    /// `C`, the first `|C|` slots are exact copies of the champions, in
    /// selection order, and the rest are offspring of two champions drawn
    /// with replacement, crossed over and mutated (seed
    /// `seed + generation + |C| + i`); the champions become `0..|C|`. The
    /// generation advances. An empty population is left as it is.
    pub fn breed<G: GrammarOperators>(&mut self, ops: &G)
        requires
            old(self).wf(),
        ensures
            final(self).wf(),
            old(self).population@.len() == 0 ==> *final(self) == *old(self),
            final(self).grid_size == old(self).grid_size,
            final(self).seed == old(self).seed,
            final(self).mutation_rate == old(self).mutation_rate,
            old(self).population@.len() == 0 ==> final(self).population@ == old(self).population@
                && final(self).selected@ == old(self).selected@ && final(self).generation
                == old(self).generation,
            old(self).population@.len() > 0 ==> final(self).population@.len() == old(self).population@.len(),
            old(self).population@.len() > 0 ==> final(self).generation == seed_sum(old(self).generation, 1),
            old(self).population@.len() > 0 ==> final(self).selected@.len() == old(self).selected@.len(),
            old(self).population@.len() > 0 ==> (forall|i: int| 0 <= i < old(self).selected@.len() ==> #[trigger] final(self).selected@[i] == i),
            old(self).population@.len() > 0 ==> (forall|i: int| 0 <= i < old(self).selected@.len() ==> {
                &&& (#[trigger] final(self).population@[i]).genotype@ == old(self).population@[old(self).selected@[i] as int].genotype@
                &&& final(self).population@[i].fitness == old(self).population@[old(self).selected@[i] as int].fitness
            }),
            old(self).population@.len() > 0 && old(self).selected@.len() > 0 ==> offspring_bred(
                old(self).population@,
                old(self).selected@,
                old(self).mutation_rate as int,
                seed_sum(old(self).seed, old(self).generation),
                final(self).population@,
            ),
            old(self).population@.len() > 0 && old(self).selected@.len() == 0 ==> (forall|i: int| 0 <= i < old(self).population@.len() ==> mutation_of(
                old(self).mutation_rate as int,
                with_seed(old(self).population@[i].genotype@, seed_sum(seed_sum(old(self).seed, old(self).generation), i as u64)),
                #[trigger] final(self).population@[i].genotype@,
            )),
    {
        if self.population.len() == 0 {
            return;
        }
        let pop_size = self.population.len();
        let base = seed_add(self.seed, self.generation);
        let mut rng = seeded_rng(base);
        let nc = self.selected.len();
        proof {
            lemma_distinct_below(self.selected@, pop_size as int);
        }
        let mut next: Vec<Phenotype> = Vec::new();
        if nc == 0 {
            let mut i: usize = 0;
            while i < pop_size
                invariant
                    self.wf(),
                    self == old(self),
                    pop_size == self.population@.len(),
                    i <= pop_size,
                    next@.len() == i,
                    forall|q: int| 0 <= q < i ==> (#[trigger] next@[q]).wf(),
                    forall|q: int| 0 <= q < i ==> mutation_of(
                        self.mutation_rate as int,
                        with_seed(self.population@[q].genotype@, seed_sum(base, q as u64)),
                        #[trigger] next@[q].genotype@,
                    ),
                decreases pop_size - i,
            {
                let mut offspring = self.population[i].genotype.duplicate();
                offspring.seed = seed_add(base, i as u64);
                assert(offspring@ == with_seed(self.population@[i as int].genotype@, seed_sum(base, i as u64)));
                offspring.mutate(ops, &mut rng, self.mutation_rate);
                next.push(Phenotype::scored(offspring));
                i = i + 1;
            }
        } else {
            let mut k: usize = 0;
            while k < nc
                invariant
                    self.wf(),
                    self == old(self),
                    nc == self.selected@.len(),
                    k <= nc,
                    next@.len() == k,
                    forall|q: int| 0 <= q < k ==> (#[trigger] next@[q]).wf(),
                    forall|q: int| 0 <= q < k ==> {
                        &&& (#[trigger] next@[q]).genotype@ == self.population@[self.selected@[q] as int].genotype@
                        &&& next@[q].fitness == self.population@[self.selected@[q] as int].fitness
                    },
                decreases nc - k,
            {
                let idx = self.selected[k];
                next.push(self.population[idx].duplicate());
                k = k + 1;
            }
            let remaining = pop_size - nc;
            let mut i: usize = 0;
            while i < remaining
                invariant
                    self.wf(),
                    self == old(self),
                    nc == self.selected@.len(),
                    nc > 0,
                    remaining == pop_size - nc,
                    pop_size == self.population@.len(),
                    i <= remaining,
                    next@.len() == nc + i,
                    forall|q: int| 0 <= q < nc + i ==> (#[trigger] next@[q]).wf(),
                    forall|q: int| 0 <= q < nc ==> {
                        &&& (#[trigger] next@[q]).genotype@ == self.population@[self.selected@[q] as int].genotype@
                        &&& next@[q].fitness == self.population@[self.selected@[q] as int].fitness
                    },
                    base == seed_sum(self.seed, self.generation),
                    forall|s: int| nc <= s < nc + i ==> bred_from_champions(
                        self.population@,
                        self.selected@,
                        self.mutation_rate as int,
                        seed_sum(base, s as u64),
                        #[trigger] next@[s].genotype@,
                    ),
                decreases remaining - i,
            {
                let pa = draw_below(&mut rng, nc as u64) as usize;
                let pb = draw_below(&mut rng, nc as u64) as usize;
                let a = self.selected[pa];
                let b = self.selected[pb];
                let mut offspring = self.population[a].genotype.crossover(&self.population[b].genotype, ops, &mut rng);
                let ghost x = offspring@;
                offspring.seed = seed_add(base, (nc + i) as u64);
                assert(offspring@ == with_seed(x, seed_sum(base, (nc + i) as u64)));
                offspring.mutate(ops, &mut rng, self.mutation_rate);
                let ghost ga = self.population@[a as int].genotype@;
                let ghost gb = self.population@[b as int].genotype@;
                assert(bred_from(self.mutation_rate as int, ga, gb, seed_sum(base, (nc + i) as u64), offspring@)) by {
                    assert(mutation_of(self.mutation_rate as int, with_seed(x, seed_sum(base, (nc + i) as u64)), offspring@));
                }
                let ghost before = next@;
                next.push(Phenotype::scored(offspring));
                assert forall|s: int| nc <= s < nc + i + 1 implies bred_from_champions(
                    self.population@,
                    self.selected@,
                    self.mutation_rate as int,
                    seed_sum(base, s as u64),
                    #[trigger] next@[s].genotype@,
                ) by {
                    if s == nc + i {
                        assert(next@[s].genotype@ == offspring@);
                        assert(bred_from(
                            self.mutation_rate as int,
                            self.population@[self.selected@[pa as int] as int].genotype@,
                            self.population@[self.selected@[pb as int] as int].genotype@,
                            seed_sum(base, s as u64),
                            next@[s].genotype@,
                        ));
                    } else {
                        assert(next@[s] == before[s]);
                    }
                }
                i = i + 1;
            }
            assert(offspring_bred(self.population@, self.selected@, self.mutation_rate as int, base, next@));
        }
        let mut chosen: Vec<usize> = Vec::new();
        let mut j: usize = 0;
        while j < nc
            invariant
                j <= nc,
                nc <= pop_size,
                chosen@.len() == j,
                forall|q: int| 0 <= q < j ==> #[trigger] chosen@[q] == q,
            decreases nc - j,
        {
            chosen.push(j);
            j = j + 1;
        }
        let ghost nv = next@;
        self.population = next;
        self.selected = chosen;
        self.generation = seed_add(self.generation, 1);
        assert(self.population@ == nv);
    }

    /// Advances the generation, then mutates every individual that is not a
    /// champion, in place; champions are untouched. An empty population is
    /// left as it is.
    pub fn mutate_all<G: GrammarOperators>(&mut self, ops: &G)
        requires
            old(self).wf(),
        ensures
            final(self).wf(),
            old(self).population@.len() == 0 ==> *final(self) == *old(self),
            final(self).grid_size == old(self).grid_size,
            final(self).seed == old(self).seed,
            final(self).mutation_rate == old(self).mutation_rate,
            final(self).selected@ == old(self).selected@,
            final(self).population@.len() == old(self).population@.len(),
            old(self).population@.len() > 0 ==> final(self).generation == seed_sum(old(self).generation, 1),
            forall|i: int| 0 <= i < old(self).population@.len() && old(self).selected@.contains(i as usize)
                ==> #[trigger] final(self).population@[i] == old(self).population@[i],
            forall|i: int| 0 <= i < old(self).population@.len() && !old(self).selected@.contains(i as usize)
                ==> mutation_of(
                old(self).mutation_rate as int,
                old(self).population@[i].genotype@,
                #[trigger] final(self).population@[i].genotype@,
            ),
    {
        if self.population.len() == 0 {
            return;
        }
        self.generation = seed_add(self.generation, 1);
        let mut rng = seeded_rng(seed_add(self.seed, self.generation));
        let n = self.population.len();
        let mut i: usize = 0;
        while i < n
            invariant
                n == self.population@.len(),
                n == old(self).population@.len(),
                i <= n,
                self.grid_size == old(self).grid_size,
                self.seed == old(self).seed,
                self.mutation_rate == old(self).mutation_rate,
                self.selected@ == old(self).selected@,
                self.generation == seed_sum(old(self).generation, 1),
                self.errors@ == old(self).errors@,
                self.grid_size * self.grid_size <= usize::MAX,
                no_duplicates(self.selected@),
                forall|q: int| 0 <= q < self.selected@.len() ==> #[trigger] self.selected@[q] < n,
                forall|q: int| 0 <= q < n ==> (#[trigger] self.population@[q]).wf(),
                forall|q: int| i <= q < n ==> #[trigger] self.population@[q] == old(self).population@[q],
                forall|q: int| 0 <= q < n && old(self).selected@.contains(q as usize)
                    ==> #[trigger] self.population@[q] == old(self).population@[q],
                forall|q: int| 0 <= q < i && !old(self).selected@.contains(q as usize) ==> mutation_of(
                    self.mutation_rate as int,
                    old(self).population@[q].genotype@,
                    #[trigger] self.population@[q].genotype@,
                ),
            decreases n - i,
        {
            if !self.is_selected(i) {
                let mut g = self.population[i].genotype.duplicate();
                g.mutate(ops, &mut rng, self.mutation_rate);
                self.population.set(i, Phenotype::scored(g));
            }
            i = i + 1;
        }
    }

    /// Changes the grid side. Growing fills each new slot `i` with a
    /// mutation of individual `i % old size` given seed `seed + i`;
    /// shrinking truncates and drops champions that no longer exist. An
    /// unchanged side, or an empty population, leaves everything as it is.
    pub fn resize_population<G: GrammarOperators>(&mut self, new_size: usize, ops: &G)
        requires
            old(self).wf(),
            new_size * new_size <= usize::MAX,
        ensures
            final(self).wf(),
            old(self).population@.len() == 0 || new_size == old(self).grid_size ==> *final(self) == *old(self),
            old(self).population@.len() > 0 ==> final(self).grid_size == new_size,
            final(self).seed == old(self).seed,
            final(self).generation == old(self).generation,
            final(self).mutation_rate == old(self).mutation_rate,
            old(self).population@.len() > 0 ==> final(self).population@.len() == new_size * new_size,
            forall|i: int| 0 <= i < old(self).population@.len() && i < final(self).population@.len()
                ==> #[trigger] final(self).population@[i] == old(self).population@[i],
            forall|i: int| old(self).population@.len() <= i < final(self).population@.len() ==> mutation_of(
                old(self).mutation_rate as int,
                with_seed(
                    old(self).population@[i % old(self).population@.len() as int].genotype@,
                    seed_sum(old(self).seed, i as u64),
                ),
                #[trigger] final(self).population@[i].genotype@,
            ),
            forall|x: usize| final(self).selected@.contains(x) <==> (old(self).selected@.contains(x)
                && (x as int) < final(self).population@.len()),
    {
        let old_len = self.population.len();
        if new_size == self.grid_size || old_len == 0 {
            return;
        }
        self.grid_size = new_size;
        let new_len = new_size * new_size;
        if new_len > old_len {
            let mut rng = seeded_rng(seed_add(self.seed, self.generation));
            let mut i: usize = old_len;
            while i < new_len
                invariant
                    old_len == old(self).population@.len(),
                    old_len > 0,
                    old_len <= i <= new_len,
                    new_len == new_size * new_size,
                    self.grid_size == new_size,
                    self.grid_size * self.grid_size <= usize::MAX,
                    self.seed == old(self).seed,
                    self.generation == old(self).generation,
                    self.mutation_rate == old(self).mutation_rate,
                    self.errors@ == old(self).errors@,
                    self.selected@ == old(self).selected@,
                    self.population@.len() == i,
                    no_duplicates(self.selected@),
                    forall|q: int| 0 <= q < self.selected@.len() ==> #[trigger] self.selected@[q] < old_len,
                    forall|q: int| 0 <= q < i ==> (#[trigger] self.population@[q]).wf(),
                    forall|q: int| 0 <= q < old_len ==> #[trigger] self.population@[q] == old(self).population@[q],
                    forall|q: int| old_len <= q < i ==> mutation_of(
                        self.mutation_rate as int,
                        with_seed(old(self).population@[q % old_len as int].genotype@, seed_sum(self.seed, q as u64)),
                        #[trigger] self.population@[q].genotype@,
                    ),
                decreases new_len - i,
            {
                let src = i % old_len;
                let mut variant = self.population[src].genotype.duplicate();
                variant.seed = seed_add(self.seed, i as u64);
                variant.mutate(ops, &mut rng, self.mutation_rate);
                self.population.push(Phenotype::scored(variant));
                i = i + 1;
            }
        } else {
            self.population.truncate(new_len);
            let mut kept: Vec<usize> = Vec::new();
            let mut j: usize = 0;
            while j < self.selected.len()
                invariant
                    j <= self.selected@.len(),
                    self.selected@ == old(self).selected@,
                    self.errors@ == old(self).errors@,
                    no_duplicates(self.selected@),
                    forall|q: int| 0 <= q < kept@.len() ==> #[trigger] kept@[q] < new_len,
                    no_duplicates(kept@),
                    forall|x: usize| kept@.contains(x) <==> (self.selected@.take(j as int).contains(x) && x < new_len),
                decreases self.selected@.len() - j,
            {
                let x = self.selected[j];
                let ghost tj = self.selected@.take(j as int);
                let ghost tj1 = self.selected@.take(j + 1);
                let ghost before = kept@;
                assert(forall|y: usize| #[trigger] before.contains(y) <==> (tj.contains(y) && y < new_len));
                assert(tj1 =~= tj.push(x));
                if x < new_len {
                    assert(!before.contains(x)) by {
                        if before.contains(x) {
                            let q = choose|q: int| 0 <= q < j && tj[q] == x;
                            assert(self.selected@[q] != self.selected@[j as int]);
                        }
                    }
                    kept.push(x);
                    assert forall|a: int, b: int| 0 <= a < b < kept@.len() implies #[trigger] kept@[a] != #[trigger] kept@[b] by {
                        if b == kept@.len() - 1 {
                            assert(before[a] != x);
                        } else {
                            assert(before[a] != before[b]);
                        }
                    }
                    assert forall|y: usize| kept@.contains(y) <==> (tj1.contains(y) && y < new_len) by {
                        if kept@.contains(y) {
                            if y == x {
                                assert(tj1[j as int] == x);
                            } else {
                                let q = choose|q: int| 0 <= q < kept@.len() && kept@[q] == y;
                                assert(before[q] == y);
                                assert(before.contains(y));
                                let r = choose|r: int| 0 <= r < tj.len() && tj[r] == y;
                                assert(tj1[r] == y);
                            }
                        }
                        if tj1.contains(y) && y < new_len {
                            let q = choose|q: int| 0 <= q < tj1.len() && tj1[q] == y;
                            if q < j {
                                assert(tj[q] == y);
                                assert(tj.contains(y));
                                assert(before.contains(y));
                                let r = choose|r: int| 0 <= r < before.len() && before[r] == y;
                                assert(kept@[r] == y);
                            } else {
                                assert(kept@[kept@.len() - 1] == x);
                            }
                        }
                    }
                } else {
                    assert forall|y: usize| kept@.contains(y) <==> (tj1.contains(y) && y < new_len) by {
                        if tj1.contains(y) && y < new_len {
                            let q = choose|q: int| 0 <= q < j + 1 && tj1[q] == y;
                            assert(tj[q] == y);
                        }
                        if tj.contains(y) {
                            let q = choose|q: int| 0 <= q < j && tj[q] == y;
                            assert(tj1[q] == y);
                        }
                    }
                }
                j = j + 1;
            }
            assert(self.selected@.take(self.selected@.len() as int) =~= self.selected@);
            self.selected = kept;
        }
    }

    /// Installs a copy of `genotype` at every champion index; champion `idx`
    /// gets seed `seed + generation + idx`, so that no two copies share a
    /// seed. Nothing happens without champions.
    pub fn replace_selected(&mut self, genotype: PlantGenotype)
        requires
            old(self).wf(),
            genotype.wf(),
        ensures
            final(self).wf(),
            final(self).grid_size == old(self).grid_size,
            final(self).selected@ == old(self).selected@,
            final(self).seed == old(self).seed,
            final(self).generation == old(self).generation,
            final(self).mutation_rate == old(self).mutation_rate,
            final(self).population@.len() == old(self).population@.len(),
            final(self).needs_3d_rebuild == (old(self).needs_3d_rebuild || old(self).selected@.len() > 0),
            forall|k: int| 0 <= k < old(self).selected@.len() ==> #[trigger] final(self).population@[old(self).selected@[k] as int].genotype@
                == with_seed(genotype@, seed_sum(seed_sum(old(self).seed, old(self).generation), old(self).selected@[k] as u64)),
            forall|k1: int, k2: int| 0 <= k1 < k2 < old(self).selected@.len() ==>
                #[trigger] final(self).population@[old(self).selected@[k1] as int].genotype.seed
                != #[trigger] final(self).population@[old(self).selected@[k2] as int].genotype.seed,
            forall|i: int| 0 <= i < old(self).population@.len() && !old(self).selected@.contains(i as usize)
                ==> #[trigger] final(self).population@[i] == old(self).population@[i],
    {
        if self.selected.len() == 0 {
            return;
        }
        let base = seed_add(self.seed, self.generation);
        let mut k: usize = 0;
        while k < self.selected.len()
            invariant
                k <= self.selected@.len(),
                self.selected@ == old(self).selected@,
                self.seed == old(self).seed,
                self.generation == old(self).generation,
                self.grid_size == old(self).grid_size,
                self.needs_3d_rebuild == old(self).needs_3d_rebuild,
                self.errors@ == old(self).errors@,
                base == seed_sum(self.seed, self.generation),
                genotype.wf(),
                self.population@.len() == old(self).population@.len(),
                self.grid_size * self.grid_size <= usize::MAX,
                self.population@.len() == 0 || self.population@.len() == self.grid_size * self.grid_size,
                no_duplicates(self.selected@),
                forall|q: int| 0 <= q < self.selected@.len() ==> #[trigger] self.selected@[q] < self.population@.len(),
                forall|q: int| 0 <= q < self.population@.len() ==> (#[trigger] self.population@[q]).wf(),
                self.mutation_rate == old(self).mutation_rate,
                forall|q: int| 0 <= q < k ==> #[trigger] self.population@[self.selected@[q] as int].genotype@
                    == with_seed(genotype@, seed_sum(base, self.selected@[q] as u64)),
                forall|i: int| 0 <= i < self.population@.len() && !self.selected@.take(k as int).contains(i as usize)
                    ==> #[trigger] self.population@[i] == old(self).population@[i],
            decreases self.selected@.len() - k,
        {
            let idx = self.selected[k];
            let ghost tk = self.selected@.take(k as int);
            let ghost tk1 = self.selected@.take(k + 1);
            let mut variant = genotype.duplicate();
            variant.seed = seed_add(base, idx as u64);
            self.population.set(idx, Phenotype::scored(variant));
            assert forall|q: int| 0 <= q < k implies self.selected@[q] != idx by {
                assert(self.selected@[q] != self.selected@[k as int]);
            }
            assert forall|i: int| 0 <= i < self.population@.len() && !tk1.contains(i as usize)
                implies #[trigger] self.population@[i] == old(self).population@[i] by {
                assert(tk1[k as int] == idx);
                if tk.contains(i as usize) {
                    let q = choose|q: int| 0 <= q < k && tk[q] == i as usize;
                    assert(tk1[q] == i as usize);
                }
            }
            k = k + 1;
        }
        assert(self.selected@.take(self.selected@.len() as int) =~= self.selected@);
        self.needs_3d_rebuild = true;
        assert forall|k1: int, k2: int| 0 <= k1 < k2 < self.selected@.len() implies
            #[trigger] self.population@[self.selected@[k1] as int].genotype.seed
            != #[trigger] self.population@[self.selected@[k2] as int].genotype.seed by {
            assert(self.selected@[k1] != self.selected@[k2]);
            lemma_seed_sum_injective(base, self.selected@[k1] as u64, self.selected@[k2] as u64);
        }
    }

    /// Adds `index` to the champions, or removes it if it is one; an index
    /// outside the population is ignored.
    pub fn toggle_selection(&mut self, index: usize)
        requires
            old(self).wf(),
        ensures
            final(self).wf(),
            final(self).population@ == old(self).population@,
            final(self).grid_size == old(self).grid_size,
            forall|x: usize| final(self).selected@.contains(x) <==> if x == index && (index as int) < old(self).population@.len() {
                !old(self).selected@.contains(x)
            } else {
                old(self).selected@.contains(x)
            },
    {
        if index >= self.population.len() {
            return;
        }
        let mut i: usize = 0;
        while i < self.selected.len()
            invariant
                i <= self.selected@.len(),
                self.wf(),
                self.population@ == old(self).population@,
                self.grid_size == old(self).grid_size,
                self.selected@ == old(self).selected@,
                (index as int) < self.population@.len(),
                forall|j: int| 0 <= j < i ==> self.selected@[j] != index,
            decreases self.selected@.len() - i,
        {
            if self.selected[i] == index {
                let ghost before = self.selected@;
                self.selected.remove(i);
                assert(self.selected@ =~= before.remove(i as int));
                assert forall|x: usize| self.selected@.contains(x) <==> (x != index && before.contains(x)) by {
                    if before.contains(x) && x != index {
                        let q = choose|q: int| 0 <= q < before.len() && before[q] == x;
                        if q < i {
                            assert(self.selected@[q] == x);
                        } else {
                            assert(self.selected@[q - 1] == x);
                        }
                    }
                    if self.selected@.contains(x) {
                        let q = choose|q: int| 0 <= q < self.selected@.len() && self.selected@[q] == x;
                        if q < i {
                            assert(before[q] == x);
                        } else {
                            assert(before[q + 1] == x);
                            assert(before[q + 1] != before[i as int]);
                        }
                    }
                }
                assert forall|a: int, b: int| 0 <= a < b < self.selected@.len() implies #[trigger] self.selected@[a] != #[trigger] self.selected@[b] by {
                    let a2 = if a < i { a } else { a + 1 };
                    let b2 = if b < i { b } else { b + 1 };
                    assert(before[a2] != before[b2]);
                }
                return;
            }
            i = i + 1;
        }
        let ghost before = self.selected@;
        self.selected.push(index);
        assert forall|a: int, b: int| 0 <= a < b < self.selected@.len() implies #[trigger] self.selected@[a] != #[trigger] self.selected@[b] by {
            if b < before.len() {
                assert(before[a] != before[b]);
            }
        }
        assert forall|x: usize| self.selected@.contains(x) <==> (x == index || before.contains(x)) by {
            if self.selected@.contains(x) && x != index {
                let q = choose|q: int| 0 <= q < self.selected@.len() && self.selected@[q] == x;
                assert(before[q] == x);
            }
            if before.contains(x) {
                let q = choose|q: int| 0 <= q < before.len() && before[q] == x;
                assert(self.selected@[q] == x);
            }
            if x == index {
                assert(self.selected@[before.len() as int] == x);
            }
        }
    }

    /// Every selected index names an individual, and a non-empty population
    /// fills the grid.
    pub proof fn lemma_population_fills_grid(&self)
        requires
            self.wf(),
        ensures
            self.population@.len() > 0 ==> self.population@.len() == self.grid_size * self.grid_size,
            forall|i: int| 0 <= i < self.selected@.len() ==> #[trigger] self.selected@[i] < self.population@.len(),
            self.selected@.len() <= self.population@.len(),
    {
        lemma_distinct_below(self.selected@, self.population@.len() as int);
    }

    /// A copy of the genotype at `index`, if there is one.
    pub fn get_genotype(&self, index: usize) -> (r: Option<PlantGenotype>)
        ensures
            (index as int) < self.population@.len() ==> (r matches Some(g) && g@ == self.population@[index as int].genotype@),
            (index as int) >= self.population@.len() ==> r is None,
    {
        if index < self.population.len() {
            Some(self.population[index].genotype.duplicate())
        } else {
            None
        }
    }
}

} // verus!
