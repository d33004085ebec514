use vstd::prelude::*;
use crate::geometry::City;
use crate::operators::{identity_seq, mutated_from, order_crossover, ox_child, random_order, shuffled_from, swap_mutate};
use crate::rng::{Rng, PROB_SCALE, mix, next_state};
use crate::tour::{fitness_of, is_perm, tour_fitness, tour_len};

verus! {

/// What the genetic algorithm needs of a solution representation: a fitness
/// (higher is better), recombination, mutation and random creation, each
/// keeping the representation valid for its problem.
pub trait Candidate: Sized {
    /// What a candidate solves (for tours: the cities).
    type Problem;

    /// One position of a chromosome.
    type Gene;

    /// The representation invariant, and a fitness that matches the chromosome.
    spec fn valid(&self, problem: &Self::Problem) -> bool;

    spec fn genes(&self) -> Seq<Self::Gene>;

    spec fn score(&self) -> u64;

    /// The child's chromosome that `crossover` makes of parents with
    /// chromosomes `a` and `b` from generator state `s`, and the state it
    /// leaves.
    spec fn crossover_outcome(a: Seq<Self::Gene>, b: Seq<Self::Gene>, rate: u64, s: u64) -> (Seq<
        Self::Gene,
    >, u64);

    /// The chromosome that `mutate` makes of `g` from generator state `s`, and
    /// the state it leaves.
    spec fn mutate_outcome(g: Seq<Self::Gene>, rate: u64, s: u64) -> (Seq<Self::Gene>, u64);

    /// The chromosome that `random` draws from generator state `s`, and the
    /// state it leaves.
    spec fn random_outcome(problem: &Self::Problem, s: u64) -> (Seq<Self::Gene>, u64);

    fn fitness(&self) -> (r: u64)
        ensures
            r == self.score(),
    ;

    /// With probability `rate / PROB_SCALE` a child combining both parents,
    /// otherwise a copy of `self`.
    fn crossover(&self, other: &Self, problem: &Self::Problem, rate: u64, rng: &mut Rng) -> (r: Self)
        requires
            self.valid(problem),
            other.valid(problem),
        ensures
            r.valid(problem),
            (r.genes(), final(rng).state) == Self::crossover_outcome(
                self.genes(),
                other.genes(),
                rate,
                old(rng).state,
            ),
    ;

    /// Perturbs the chromosome, each position with probability
    /// `rate / PROB_SCALE`.
    fn mutate(&mut self, problem: &Self::Problem, rate: u64, rng: &mut Rng)
        requires
            old(self).valid(problem),
        ensures
            final(self).valid(problem),
            (final(self).genes(), final(rng).state) == Self::mutate_outcome(
                old(self).genes(),
                rate,
                old(rng).state,
            ),
    ;

    fn random(problem: &Self::Problem, rng: &mut Rng) -> (r: Self)
        ensures
            r.valid(problem),
            (r.genes(), final(rng).state) == Self::random_outcome(problem, old(rng).state),
    ;

    /// An independent copy, never an alias.
    fn duplicate(&self, problem: &Self::Problem) -> (r: Self)
        requires
            self.valid(problem),
        ensures
            r.valid(problem),
            r.genes() == self.genes(),
            r.score() == self.score(),
    ;
}

/// Order crossover of tours `a` and `b` from generator state `s`: with
/// probability `rate / PROB_SCALE` the child over the slice between two drawn
/// positions, otherwise `a`; and the state it leaves.
pub open spec fn ox_outcome(a: Seq<usize>, b: Seq<usize>, rate: u64, s: u64) -> (Seq<usize>, u64) {
    let n = a.len();
    if n == 0 {
        (a, s)
    } else {
        let s1 = next_state(s);
        if !(mix(s1) % PROB_SCALE < rate) {
            (a, s1)
        } else {
            let s2 = next_state(s1);
            let s3 = next_state(s2);
            let i = mix(s2) as nat % n;
            let j = mix(s3) as nat % n;
            if i <= j {
                (ox_child(a, b, i as int, (j + 1) as int), s3)
            } else {
                (ox_child(a, b, j as int, (i + 1) as int), s3)
            }
        }
    }
}

/// A candidate tour: an order in which to visit the cities, with its fitness.
pub struct TspCandidate {
    pub order: Vec<usize>,
    pub fitness: u64,
}

/// Copies a tour.
pub fn copy_order(v: &Vec<usize>) -> (r: Vec<usize>)
    ensures
        r@ == v@,
{
    let mut r: Vec<usize> = Vec::with_capacity(v.len());
    let mut i: usize = 0;
    while i < v.len()
        invariant
            i <= v@.len(),
            r@ == v@.subrange(0, i as int),
        decreases v@.len() - i,
    {
        r.push(v[i]);
        assert(r@ =~= v@.subrange(0, i + 1));
        i = i + 1;
    }
    assert(v@.subrange(0, v@.len() as int) =~= v@);
    r
}

impl TspCandidate {
    /// The order is a permutation of the cities and the fitness is that of the
    /// tour it describes.
    pub open spec fn is_tour_of(&self, cities: Seq<City>) -> bool {
        &&& is_perm(self.order@, cities.len())
        &&& self.fitness == fitness_of(tour_len(cities, self.order@))
    }

    /// A candidate for the given tour, scored against `cities`.
    pub fn from_order(cities: &Vec<City>, order: Vec<usize>) -> (r: TspCandidate)
        requires
            is_perm(order@, cities@.len()),
        ensures
            r.order@ == order@,
            r.is_tour_of(cities@),
    {
        let fitness = tour_fitness(cities, &order);
        TspCandidate { order, fitness }
    }

    /// The tour as a sequence of cities.
    pub fn get_chromosome(&self, cities: &Vec<City>) -> (r: Vec<City>)
        requires
            self.is_tour_of(cities@),
        ensures
            r@.len() == self.order@.len(),
            forall|i: int| 0 <= i < r@.len() ==> r@[i] == cities@[self.order@[i] as int],
    {
        let mut r: Vec<City> = Vec::with_capacity(self.order.len());
        let mut i: usize = 0;
        while i < self.order.len()
            invariant
                i <= self.order@.len(),
                self.is_tour_of(cities@),
                r@.len() == i,
                forall|k: int| 0 <= k < i ==> r@[k] == cities@[self.order@[k] as int],
            decreases self.order@.len() - i,
        {
            r.push(cities[self.order[i]]);
            i = i + 1;
        }
        r
    }

    /// With probability `rate / PROB_SCALE`, the order crossover of `self` and
    /// `other` over a random slice; otherwise a copy of `self`.
    pub fn ox_crossover(&self, other: &TspCandidate, cities: &Vec<City>, rate: u64, rng: &mut Rng) -> (r:
        TspCandidate)
        requires
            self.is_tour_of(cities@),
            other.is_tour_of(cities@),
        ensures
            r.is_tour_of(cities@),
            (r.order@, final(rng).state) == ox_outcome(self.order@, other.order@, rate, old(rng).state),
    {
        let n = self.order.len();
        if n == 0 || !rng.chance(rate) {
            return TspCandidate { order: copy_order(&self.order), fitness: self.fitness };
        }
        let i = rng.below(n as u64) as usize;
        let j = rng.below(n as u64) as usize;
        let (s, e) = if i <= j { (i, j + 1) } else { (j, i + 1) };
        let order = order_crossover(&self.order, &other.order, s, e);
        TspCandidate::from_order(cities, order)
    }

    /// Swap mutation, after which the fitness is recomputed.
    pub fn swap_mutation(&mut self, cities: &Vec<City>, rate: u64, rng: &mut Rng)
        requires
            old(self).is_tour_of(cities@),
        ensures
            final(self).is_tour_of(cities@),
            (final(self).order@, final(rng).state) == mutated_from(old(self).order@, rate, old(rng).state, 0),
    {
        swap_mutate(&mut self.order, rate, rng);
        self.fitness = tour_fitness(cities, &self.order);
    }
}

impl Candidate for TspCandidate {
    type Problem = Vec<City>;

    type Gene = usize;

    open spec fn valid(&self, cities: &Vec<City>) -> bool {
        self.is_tour_of(cities@)
    }

    open spec fn genes(&self) -> Seq<usize> {
        self.order@
    }

    open spec fn score(&self) -> u64 {
        self.fitness
    }

    open spec fn crossover_outcome(a: Seq<usize>, b: Seq<usize>, rate: u64, s: u64) -> (Seq<usize>, u64) {
        ox_outcome(a, b, rate, s)
    }

    open spec fn mutate_outcome(g: Seq<usize>, rate: u64, s: u64) -> (Seq<usize>, u64) {
        mutated_from(g, rate, s, 0)
    }

    open spec fn random_outcome(cities: &Vec<City>, s: u64) -> (Seq<usize>, u64) {
        shuffled_from(identity_seq(cities@.len()), s, cities@.len())
    }

    fn fitness(&self) -> (r: u64) {
        self.fitness
    }

    fn crossover(&self, other: &TspCandidate, cities: &Vec<City>, rate: u64, rng: &mut Rng) -> (r:
        TspCandidate) {
        self.ox_crossover(other, cities, rate, rng)
    }

    fn mutate(&mut self, cities: &Vec<City>, rate: u64, rng: &mut Rng) {
        self.swap_mutation(cities, rate, rng);
    }

    fn random(cities: &Vec<City>, rng: &mut Rng) -> (r: TspCandidate) {
        let order = random_order(cities.len(), rng);
        TspCandidate::from_order(cities, order)
    }

    fn duplicate(&self, cities: &Vec<City>) -> (r: TspCandidate) {
        TspCandidate { order: copy_order(&self.order), fitness: self.fitness }
    }
}

} // verus!
