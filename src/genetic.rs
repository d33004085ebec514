use vstd::prelude::*;
use crate::candidate::Candidate;
use crate::rng::{Rng, PROB_SCALE};
use crate::selection::{is_top_ranking, roulette_outcome, roulette_select, top_ranking, SelectionMethod};

verus! {

/// A rejected configuration.
#[derive(Clone, Copy, PartialEq, Eq, Structural, Debug)]
pub enum ConfigError {
    /// A rate or fraction above `PROB_SCALE`, that is above 1.
    RateOutOfRange,
    /// A population of no candidates.
    EmptyPopulation,
    /// Cities so far apart that some tour could be too long for its fitness
    /// to tell it from a slightly longer one.
    CitiesTooSpread,
}

/// The fitness of each member, in population order.
pub open spec fn fitnesses<C: Candidate>(pop: Seq<C>) -> Seq<u64> {
    pop.map_values(|c: C| c.score())
}

/// Number of elites: `fraction * n` rounded to the nearest integer, halves up.
pub open spec fn elite_count_of(fraction: nat, n: nat) -> nat {
    (fraction * n + PROB_SCALE as nat / 2) / PROB_SCALE as nat
}

/// `next` starts with copies of the `k` best members of `prev`, best first.
pub open spec fn keeps_elites<C: Candidate>(prev: Seq<C>, next: Seq<C>, k: nat) -> bool {
    exists|r: Seq<usize>|
        #![trigger is_top_ranking(fitnesses(prev), r, k)]
        is_top_ranking(fitnesses(prev), r, k) && forall|i: int|
            0 <= i < k ==> (#[trigger] next[i]).genes() == prev[r[i] as int].genes() && next[i].score()
                == prev[r[i] as int].score()
}

/// One child bred from `pop` with the generator in state `s`: two parents
/// drawn by the roulette wheel, their crossover, then its mutation. Gives the
/// child's chromosome and the state left.
pub open spec fn breed<C: Candidate>(pop: Seq<C>, crossover_rate: u64, mutation_rate: u64, s: u64) -> (Seq<
    C::Gene,
>, u64) {
    let f = fitnesses(pop);
    let first = roulette_outcome(f, s);
    let second = roulette_outcome(f, first.1);
    let child = C::crossover_outcome(
        pop[first.0].genes(),
        pop[second.0].genes(),
        crossover_rate,
        second.1,
    );
    C::mutate_outcome(child.0, mutation_rate, child.1)
}

/// The generator state after breeding `m` children from state `s`.
pub open spec fn state_after_children<C: Candidate>(
    pop: Seq<C>,
    crossover_rate: u64,
    mutation_rate: u64,
    s: u64,
    m: nat,
) -> u64
    decreases m,
{
    if m == 0 {
        s
    } else {
        breed(
            pop,
            crossover_rate,
            mutation_rate,
            state_after_children(pop, crossover_rate, mutation_rate, s, (m - 1) as nat),
        ).1
    }
}

/// Places `k..` of `next` hold the children bred one after another from `prev`
/// with the generator starting in state `s`.
pub open spec fn bred_children<C: Candidate>(
    prev: Seq<C>,
    next: Seq<C>,
    k: nat,
    crossover_rate: u64,
    mutation_rate: u64,
    s: u64,
) -> bool {
    forall|i: int|
        k <= i < next.len() ==> (#[trigger] next[i]).genes() == breed(
            prev,
            crossover_rate,
            mutation_rate,
            state_after_children(prev, crossover_rate, mutation_rate, s, (i - k) as nat),
        ).0
}

/// The number of elites kept from a population of `n`.
pub fn elite_count(fraction: u64, n: usize) -> (r: usize)
    requires
        fraction <= PROB_SCALE,
    ensures
        r as nat == elite_count_of(fraction as nat, n as nat),
        r <= n,
{
    assert(fraction * n < 0x1_0000_0000_0000_0000_0000_0000) by (nonlinear_arith)
        requires fraction <= PROB_SCALE, n <= usize::MAX;
    let prod: u128 = fraction as u128 * n as u128;
    assert(prod <= PROB_SCALE * n) by (nonlinear_arith)
        requires prod == fraction * n, fraction <= PROB_SCALE;
    let k = (prod + (PROB_SCALE / 2) as u128) / PROB_SCALE as u128;
    assert(k <= n) by (nonlinear_arith)
        requires k == (prod + 500_000) / 1_000_000, prod <= 1_000_000 * n;
    k as usize
}

/// A generational genetic algorithm over candidates of one problem.
pub struct GeneticAlgorithm<C: Candidate> {
    pub problem: C::Problem,
    pub population: Vec<C>,
    pub crossover_rate: u64,
    pub mutation_rate: u64,
    pub elitism: u64,
    pub selection_target: u64,
    pub rng: Rng,
}

impl<C: Candidate> GeneticAlgorithm<C> {
    /// Every member is valid for the problem, the population is not empty,
    /// and every rate lies in `0..=PROB_SCALE`.
    pub open spec fn wf(&self) -> bool {
        &&& self.population@.len() > 0
        &&& forall|i: int|
            0 <= i < self.population@.len() ==> (#[trigger] self.population@[i]).valid(&self.problem)
        &&& self.crossover_rate <= PROB_SCALE
        &&& self.mutation_rate <= PROB_SCALE
        &&& self.elitism <= PROB_SCALE
        &&& self.selection_target <= PROB_SCALE
    }

    /// An engine over `initial_population`, with no elitism until it is set.
    pub fn new(
        problem: C::Problem,
        initial_population: Vec<C>,
        crossover_rate: u64,
        selection_target: u64,
        mutation_rate: u64,
        seed: u64,
    ) -> (r: Result<GeneticAlgorithm<C>, ConfigError>)
        requires
            forall|i: int|
                0 <= i < initial_population@.len() ==> (#[trigger] initial_population@[i]).valid(&problem),
        ensures
            initial_population@.len() == 0 ==> r == Err::<GeneticAlgorithm<C>, ConfigError>(
                ConfigError::EmptyPopulation,
            ),
            initial_population@.len() > 0 && (crossover_rate > PROB_SCALE || selection_target
                > PROB_SCALE || mutation_rate > PROB_SCALE) ==> r == Err::<
                GeneticAlgorithm<C>,
                ConfigError,
            >(ConfigError::RateOutOfRange),
            r is Ok <==> (initial_population@.len() > 0 && crossover_rate <= PROB_SCALE
                && selection_target <= PROB_SCALE && mutation_rate <= PROB_SCALE),
            r matches Ok(ga) ==> {
                &&& ga.wf()
                &&& ga.problem == problem
                &&& ga.population@ == initial_population@
                &&& ga.crossover_rate == crossover_rate
                &&& ga.selection_target == selection_target
                &&& ga.mutation_rate == mutation_rate
                &&& ga.elitism == 0
                &&& ga.rng.state == seed
            },
    {
        if initial_population.len() == 0 {
            return Err(ConfigError::EmptyPopulation);
        }
        if crossover_rate > PROB_SCALE || selection_target > PROB_SCALE || mutation_rate
            > PROB_SCALE {
            return Err(ConfigError::RateOutOfRange);
        }
        Ok(
            GeneticAlgorithm {
                problem,
                population: initial_population,
                crossover_rate,
                mutation_rate,
                elitism: 0,
                selection_target,
                rng: Rng::new(seed),
            },
        )
    }

    pub fn set_mutation_rate(&mut self, rate: u64) -> (r: Result<(), ConfigError>)
        requires
            old(self).wf(),
        ensures
            final(self).wf(),
            rate <= PROB_SCALE ==> r is Ok && *final(self) == (GeneticAlgorithm {
                mutation_rate: rate,
                ..*old(self)
            }),
            rate > PROB_SCALE ==> r == Err::<(), ConfigError>(ConfigError::RateOutOfRange)
                && *final(self) == *old(self),
    {
        if rate > PROB_SCALE {
            return Err(ConfigError::RateOutOfRange);
        }
        self.mutation_rate = rate;
        Ok(())
    }

    pub fn set_elitism_target(&mut self, fraction: u64) -> (r: Result<(), ConfigError>)
        requires
            old(self).wf(),
        ensures
            final(self).wf(),
            fraction <= PROB_SCALE ==> r is Ok && *final(self) == (GeneticAlgorithm {
                elitism: fraction,
                ..*old(self)
            }),
            fraction > PROB_SCALE ==> r == Err::<(), ConfigError>(ConfigError::RateOutOfRange)
                && *final(self) == *old(self),
    {
        if fraction > PROB_SCALE {
            return Err(ConfigError::RateOutOfRange);
        }
        self.elitism = fraction;
        Ok(())
    }

    /// Reserved for pressure-tunable strategies; roulette-wheel selection does
    /// not read it.
    pub fn set_selection_target(&mut self, target: u64) -> (r: Result<(), ConfigError>)
        requires
            old(self).wf(),
        ensures
            final(self).wf(),
            target <= PROB_SCALE ==> r is Ok && *final(self) == (GeneticAlgorithm {
                selection_target: target,
                ..*old(self)
            }),
            target > PROB_SCALE ==> r == Err::<(), ConfigError>(ConfigError::RateOutOfRange)
                && *final(self) == *old(self),
    {
        if target > PROB_SCALE {
            return Err(ConfigError::RateOutOfRange);
        }
        self.selection_target = target;
        Ok(())
    }

    /// The fitness of each member.
    fn scores(&self) -> (r: Vec<u64>)
        ensures
            r@ == fitnesses(self.population@),
    {
        let mut r: Vec<u64> = Vec::with_capacity(self.population.len());
        let mut i: usize = 0;
        while i < self.population.len()
            invariant
                i <= self.population@.len(),
                r@ == fitnesses(self.population@).subrange(0, i as int),
            decreases self.population@.len() - i,
        {
            r.push(self.population[i].fitness());
            assert(r@ =~= fitnesses(self.population@).subrange(0, i + 1));
            i = i + 1;
        }
        assert(r@ =~= fitnesses(self.population@));
        r
    }

    /// One generation: the elites are copied over, and the remaining places
    /// are filled by selected, recombined and mutated children.
    pub fn step(&mut self, method: SelectionMethod)
        requires
            old(self).wf(),
        ensures
            final(self).wf(),
            final(self).population@.len() == old(self).population@.len(),
            final(self).problem == old(self).problem,
            final(self).crossover_rate == old(self).crossover_rate,
            final(self).mutation_rate == old(self).mutation_rate,
            final(self).elitism == old(self).elitism,
            final(self).selection_target == old(self).selection_target,
            keeps_elites(
                old(self).population@,
                final(self).population@,
                elite_count_of(old(self).elitism as nat, old(self).population@.len()),
            ),
            bred_children(
                old(self).population@,
                final(self).population@,
                elite_count_of(old(self).elitism as nat, old(self).population@.len()),
                old(self).crossover_rate,
                old(self).mutation_rate,
                old(self).rng.state,
            ),
            final(self).rng.state == state_after_children(
                old(self).population@,
                old(self).crossover_rate,
                old(self).mutation_rate,
                old(self).rng.state,
                (old(self).population@.len() - elite_count_of(
                    old(self).elitism as nat,
                    old(self).population@.len(),
                )) as nat,
            ),
    {
        let n = self.population.len();
        let scores = self.scores();
        let k = elite_count(self.elitism, n);
        let ranking = top_ranking(&scores, k);
        let ghost prev = self.population@;
        let ghost g = *self;
        let mut next: Vec<C> = Vec::with_capacity(n);
        let mut i: usize = 0;
        while i < k
            invariant
                self.wf(),
                self.population@ == prev,
                self.problem == g.problem,
                self.crossover_rate == g.crossover_rate,
                self.mutation_rate == g.mutation_rate,
                self.elitism == g.elitism,
                self.selection_target == g.selection_target,
                is_top_ranking(scores@, ranking@, k as nat),
                n == prev.len(),
                scores@ == fitnesses(prev),
                k <= n,
                i <= k,
                self.rng == g.rng,
                next@.len() == i,
                forall|j: int| 0 <= j < i ==> (#[trigger] next@[j]).valid(&self.problem),
                forall|j: int|
                    0 <= j < i ==> (#[trigger] next@[j]).genes() == prev[ranking@[j] as int].genes()
                        && next@[j].score() == prev[ranking@[j] as int].score(),
            decreases k - i,
        {
            let e = self.population[ranking[i]].duplicate(&self.problem);
            next.push(e);
            i = i + 1;
        }
        while i < n
            invariant
                self.wf(),
                self.population@ == prev,
                self.problem == g.problem,
                self.crossover_rate == g.crossover_rate,
                self.mutation_rate == g.mutation_rate,
                self.elitism == g.elitism,
                self.selection_target == g.selection_target,
                is_top_ranking(scores@, ranking@, k as nat),
                n == prev.len(),
                scores@ == fitnesses(prev),
                k <= i <= n,
                next@.len() == i,
                self.rng.state == state_after_children(
                    prev,
                    g.crossover_rate,
                    g.mutation_rate,
                    g.rng.state,
                    (i - k) as nat,
                ),
                forall|j: int|
                    k <= j < i ==> (#[trigger] next@[j]).genes() == breed(
                        prev,
                        g.crossover_rate,
                        g.mutation_rate,
                        state_after_children(
                            prev,
                            g.crossover_rate,
                            g.mutation_rate,
                            g.rng.state,
                            (j - k) as nat,
                        ),
                    ).0,
                forall|j: int| 0 <= j < i ==> (#[trigger] next@[j]).valid(&self.problem),
                forall|j: int|
                    0 <= j < k ==> (#[trigger] next@[j]).genes() == prev[ranking@[j] as int].genes()
                        && next@[j].score() == prev[ranking@[j] as int].score(),
            decreases n - i,
        {
            let (p1, p2) = match method {
                SelectionMethod::RouletteWheel => {
                    let a = roulette_select(&scores, &mut self.rng);
                    let b = roulette_select(&scores, &mut self.rng);
                    (a, b)
                },
            };
            let mut child = self.population[p1].crossover(
                &self.population[p2],
                &self.problem,
                self.crossover_rate,
                &mut self.rng,
            );
            child.mutate(&self.problem, self.mutation_rate, &mut self.rng);
            next.push(child);
            i = i + 1;
        }
        self.population = next;
        assert(is_top_ranking(fitnesses(prev), ranking@, k as nat));
    }

    /// Index of the fittest member; the first one on ties.
    pub fn best_index(&self) -> (r: usize)
        requires
            self.wf(),
        ensures
            r < self.population@.len(),
            forall|j: int|
                0 <= j < self.population@.len() ==> self.population@[j].score()
                    <= self.population@[r as int].score(),
            forall|j: int|
                0 <= j < r ==> self.population@[j].score() < self.population@[r as int].score(),
    {
        let mut b: usize = 0;
        let mut i: usize = 1;
        while i < self.population.len()
            invariant
                self.wf(),
                b < i <= self.population@.len(),
                forall|j: int|
                    0 <= j < i ==> self.population@[j].score() <= self.population@[b as int].score(),
                forall|j: int|
                    0 <= j < b ==> self.population@[j].score() < self.population@[b as int].score(),
            decreases self.population@.len() - i,
        {
            if self.population[i].fitness() > self.population[b].fitness() {
                b = i;
            }
            i = i + 1;
        }
        b
    }

    /// A copy of the fittest member; the first one on ties.
    pub fn best(&self) -> (r: C)
        requires
            self.wf(),
        ensures
            r.valid(&self.problem),
            exists|b: int|
                #![trigger self.population@[b]]
                0 <= b < self.population@.len() && r.genes() == self.population@[b].genes()
                    && r.score() == self.population@[b].score() && (forall|j: int|
                    0 <= j < self.population@.len() ==> self.population@[j].score() <= r.score())
                    && (forall|j: int| 0 <= j < b ==> self.population@[j].score() < r.score()),
    {
        let b = self.best_index();
        let r = self.population[b].duplicate(&self.problem);
        assert(self.population@[b as int].valid(&self.problem));
        r
    }
}

} // verus!
