use vstd::prelude::*;

pub mod annealing;
pub mod candidate;
pub mod genetic;
pub mod geometry;
pub mod operators;
pub mod rng;
pub mod selection;
pub mod tour;

pub use candidate::{Candidate, TspCandidate};
pub use genetic::{ConfigError, GeneticAlgorithm};
use genetic::{bred_children, elite_count_of, keeps_elites};
pub use geometry::City;
pub use selection::SelectionMethod;

verus! {

use crate::rng::{Rng, PROB_SCALE};
use crate::tour::{box_fits, tours_bounded, tours_fit};

pub const DEFAULT_CROSSOVER_RATE: u64 = 700_000;

pub const DEFAULT_SELECTION_TARGET: u64 = 800_000;

pub const DEFAULT_MUTATION_RATE: u64 = 10_000;

/// A snapshot of a candidate: its tour as cities, and its fitness.
pub struct CandidateWASM {
    pub chromosome: Vec<City>,
    pub fitness: u64,
}

/// `c` shows a fittest member of the population of `ga`, the first on ties.
pub open spec fn is_best_snapshot(c: CandidateWASM, ga: GeneticAlgorithm<TspCandidate>) -> bool {
    exists|b: int|
        #![trigger ga.population@[b]]
        0 <= b < ga.population@.len() && c.fitness == ga.population@[b].fitness
            && c.chromosome@.len() == ga.population@[b].order@.len() && (forall|i: int|
            0 <= i < c.chromosome@.len() ==> c.chromosome@[i] == ga.problem@[ga.population@[b].order@[i] as int])
            && (forall|j: int| 0 <= j < ga.population@.len() ==> ga.population@[j].fitness <= c.fitness)
            && (forall|j: int| 0 <= j < b ==> ga.population@[j].fitness < c.fitness)
}

/// A genetic algorithm on a fixed set of cities, driven one generation at a
/// time with roulette-wheel selection.
pub struct GaWasm {
    pub ga: GeneticAlgorithm<TspCandidate>,
}

impl GaWasm {
    /// The engine is well formed and every tour of its cities is short enough
    /// for fitness to be strictly decreasing in length.
    pub open spec fn wf(&self) -> bool {
        self.ga.wf() && tours_bounded(self.ga.problem@)
    }

    /// A population of `population_size` random tours of `cities`, with the
    /// default rates. Refuses an empty population, and cities whose count
    /// times the width plus height of their bounding box exceeds
    /// `STRICT_LEN_LIMIT`.
    pub fn new(population_size: usize, cities: Vec<City>, seed: u64) -> (r: Result<GaWasm, ConfigError>)
        ensures
            population_size == 0 ==> r == Err::<GaWasm, ConfigError>(ConfigError::EmptyPopulation),
            population_size > 0 && !box_fits(cities@) ==> r == Err::<GaWasm, ConfigError>(
                ConfigError::CitiesTooSpread,
            ),
            r is Ok <==> population_size > 0 && box_fits(cities@),
            r matches Ok(g) ==> {
                &&& g.wf()
                &&& g.ga.population@.len() == population_size
                &&& g.ga.problem@ == cities@
                &&& g.ga.crossover_rate == DEFAULT_CROSSOVER_RATE
                &&& g.ga.selection_target == DEFAULT_SELECTION_TARGET
                &&& g.ga.mutation_rate == DEFAULT_MUTATION_RATE
                &&& g.ga.elitism == 0
            },
    {
        if population_size == 0 {
            return Err(ConfigError::EmptyPopulation);
        }
        if !tours_fit(&cities) {
            return Err(ConfigError::CitiesTooSpread);
        }
        let mut rng = Rng::new(seed);
        let mut initial_population: Vec<TspCandidate> = Vec::with_capacity(population_size);
        let mut i: usize = 0;
        while i < population_size
            invariant
                i <= population_size,
                initial_population@.len() == i,
                forall|j: int|
                    0 <= j < i ==> (#[trigger] initial_population@[j]).valid(&cities),
            decreases population_size - i,
        {
            initial_population.push(TspCandidate::random(&cities, &mut rng));
            i = i + 1;
        }
        let next_seed = rng.next_u64();
        match GeneticAlgorithm::new(
            cities,
            initial_population,
            DEFAULT_CROSSOVER_RATE,
            DEFAULT_SELECTION_TARGET,
            DEFAULT_MUTATION_RATE,
            next_seed,
        ) {
            Ok(ga) => Ok(GaWasm { ga }),
            Err(e) => Err(e),
        }
    }

    /// Sets the three rates, runs one generation and returns the fittest
    /// member. A rate above `PROB_SCALE` is refused before anything changes.
    pub fn step(&mut self, mutation_rate: u64, selection_target: u64, elitism: u64) -> (r: Result<
        CandidateWASM,
        ConfigError,
    >)
        requires
            old(self).wf(),
        ensures
            final(self).wf(),
            r is Err <==> (mutation_rate > PROB_SCALE || selection_target > PROB_SCALE || elitism
                > PROB_SCALE),
            r is Err ==> r == Err::<CandidateWASM, ConfigError>(ConfigError::RateOutOfRange)
                && *final(self) == *old(self),
            r is Ok ==> {
                &&& final(self).ga.mutation_rate == mutation_rate
                &&& final(self).ga.selection_target == selection_target
                &&& final(self).ga.elitism == elitism
                &&& final(self).ga.population@.len() == old(self).ga.population@.len()
                &&& final(self).ga.problem@ == old(self).ga.problem@
                &&& keeps_elites(
                    old(self).ga.population@,
                    final(self).ga.population@,
                    elite_count_of(elitism as nat, old(self).ga.population@.len()),
                )
                &&& bred_children(
                    old(self).ga.population@,
                    final(self).ga.population@,
                    elite_count_of(elitism as nat, old(self).ga.population@.len()),
                    old(self).ga.crossover_rate,
                    mutation_rate,
                    old(self).ga.rng.state,
                )
            },
            r matches Ok(c) ==> is_best_snapshot(c, final(self).ga),
    {
        if mutation_rate > PROB_SCALE || selection_target > PROB_SCALE || elitism > PROB_SCALE {
            return Err(ConfigError::RateOutOfRange);
        }
        let _ = self.ga.set_mutation_rate(mutation_rate);
        let _ = self.ga.set_elitism_target(elitism);
        let _ = self.ga.set_selection_target(selection_target);
        self.ga.step(SelectionMethod::RouletteWheel);
        let b = self.ga.best_index();
        let best = &self.ga.population[b];
        let chromosome = best.get_chromosome(&self.ga.problem);
        Ok(CandidateWASM { chromosome, fitness: best.fitness })
    }
}

} // verus!
