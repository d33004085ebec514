use vstd::prelude::*;
use crate::candidate::Candidate;
use crate::genetic::ConfigError;
use crate::rng::{Rng, PROB_SCALE, mix, next_state};

verus! {

/// `e^-1` in parts per million, rounded down.
pub const INV_E_PPM: u64 = 367_879;

/// Past this many factors of `e` the acceptance probability is below one in a
/// million.
pub const MAX_E_FOLDS: u64 = 14;

/// `x` multiplied `q` times by `e^-1`, rounding down each time.
pub open spec fn decayed(x: nat, q: nat) -> nat
    decreases q,
{
    if q == 0 {
        x
    } else {
        decayed(x, (q - 1) as nat) * INV_E_PPM as nat / PROB_SCALE as nat
    }
}

/// Probability, in parts per million, of accepting a move that loses `loss`
/// fitness at temperature `t`: `exp(-loss / t)`, taken at whole multiples of
/// `t` and linearly between them, and zero at zero temperature.
pub open spec fn acceptance_ppm(loss: nat, t: nat) -> nat {
    if loss == 0 {
        PROB_SCALE as nat
    } else if t == 0 || loss / t >= MAX_E_FOLDS {
        0
    } else {
        let base = decayed(PROB_SCALE as nat, loss / t);
        let next = base * INV_E_PPM as nat / PROB_SCALE as nat;
        (base - (base - next) * (loss % t) / (t as int)) as nat
    }
}

/// The Metropolis rule: a move that keeps or improves fitness is taken; a
/// worse one is taken when `draw`, uniform in `0..PROB_SCALE`, falls below the
/// acceptance probability.
pub open spec fn accepts_move(current: u64, neighbour: u64, t: u64, draw: u64) -> bool {
    neighbour >= current || (draw as nat) < acceptance_ppm((current - neighbour) as nat, t as nat)
}

proof fn lemma_decayed_le(x: nat, q: nat)
    ensures
        decayed(x, q) <= x,
    decreases q,
{
    if q > 0 {
        lemma_decayed_le(x, (q - 1) as nat);
        let d = decayed(x, (q - 1) as nat);
        assert(d * INV_E_PPM as nat / PROB_SCALE as nat <= d) by (nonlinear_arith);
    }
}

pub fn acceptance(loss: u64, t: u64) -> (r: u64)
    ensures
        r as nat == acceptance_ppm(loss as nat, t as nat),
        r <= PROB_SCALE,
{
    if loss == 0 {
        return PROB_SCALE;
    }
    if t == 0 || loss / t >= MAX_E_FOLDS {
        return 0;
    }
    let q = loss / t;
    let mut base: u64 = PROB_SCALE;
    let mut i: u64 = 0;
    while i < q
        invariant
            i <= q,
            base as nat == decayed(PROB_SCALE as nat, i as nat),
            base <= PROB_SCALE,
        decreases q - i,
    {
        assert(base as int * INV_E_PPM as int / PROB_SCALE as int <= base as int) by (nonlinear_arith)
            requires base <= PROB_SCALE;
        base = base * INV_E_PPM / PROB_SCALE;
        i = i + 1;
    }
    let next = base * INV_E_PPM / PROB_SCALE;
    assert(next <= base) by (nonlinear_arith)
        requires next as int == base as int * INV_E_PPM as int / PROB_SCALE as int;
    let rem = loss % t;
    let gap = base - next;
    assert(gap * rem < 0x1_0000_0000_0000_0000_0000_0000_0000_0000) by (nonlinear_arith)
        requires gap <= PROB_SCALE, rem < 0x1_0000_0000_0000_0000;
    let cut: u128 = (gap as u128 * rem as u128) / (t as u128);
    assert(cut <= gap) by (nonlinear_arith)
        requires cut as int == (gap as int * rem as int) / (t as int), rem < t, t > 0;
    base - cut as u64
}

/// Whether the annealer moves from a tour of fitness `current` to one of
/// fitness `neighbour` at temperature `t`, given a `draw` in `0..PROB_SCALE`.
pub fn accepts(current: u64, neighbour: u64, t: u64, draw: u64) -> (r: bool)
    ensures
        r == accepts_move(current, neighbour, t, draw),
{
    if neighbour >= current {
        return true;
    }
    draw < acceptance(current - neighbour, t)
}

/// A better or equal neighbour is always taken, whatever the temperature; a
/// worse one never is at zero temperature, nor once the temperature is at most
/// `1 / MAX_E_FOLDS` of the loss.
pub proof fn lemma_acceptance_bound(current: u64, neighbour: u64, t: u64, draw: u64)
    ensures
        neighbour >= current ==> accepts_move(current, neighbour, t, draw),
        neighbour < current && (t == 0 || (current - neighbour) >= MAX_E_FOLDS * t)
            ==> !accepts_move(current, neighbour, t, draw),
{
    if neighbour < current && t > 0 && (current - neighbour) >= MAX_E_FOLDS * t {
        let loss = (current - neighbour) as nat;
        assert(loss / (t as nat) >= MAX_E_FOLDS) by (nonlinear_arith)
            requires loss >= MAX_E_FOLDS * t, t > 0;
    }
}

/// Next temperature under geometric cooling.
pub open spec fn cooled(t: u64, cooling: u64) -> u64 {
    (t as nat * cooling as nat / PROB_SCALE as nat) as u64
}

/// What one iteration does from `old` to `new`, given the neighbour `nb`: it
/// is the mutated current candidate, the acceptance draw follows it, the
/// current candidate becomes `nb` exactly when the Metropolis rule accepts it,
/// and the best becomes `nb` exactly when `nb` beats it.
pub open spec fn iteration_holds<C: Candidate>(old: Annealer<C>, new: Annealer<C>, nb: C) -> bool {
    let mutated = C::mutate_outcome(old.current.genes(), old.neighbour_rate, old.rng.state);
    let draw = mix(next_state(mutated.1)) % PROB_SCALE;
    &&& nb.valid(&old.problem)
    &&& nb.genes() == mutated.0
    &&& new.rng.state == next_state(mutated.1)
    &&& if accepts_move(old.current.score(), nb.score(), old.temperature, draw) {
        new.current.genes() == nb.genes() && new.current.score() == nb.score()
    } else {
        new.current.genes() == old.current.genes() && new.current.score() == old.current.score()
    }
    &&& if nb.score() > old.best.score() {
        new.best.genes() == nb.genes() && new.best.score() == nb.score()
    } else {
        new.best.genes() == old.best.genes() && new.best.score() == old.best.score()
    }
}

/// Simulated annealing over candidates of one problem.
pub struct Annealer<C: Candidate> {
    pub problem: C::Problem,
    pub current: C,
    pub best: C,
    pub temperature: u64,
    /// Cooling factor in parts per million.
    pub cooling: u64,
    /// Mutation rate that makes a neighbour out of the current candidate.
    pub neighbour_rate: u64,
    pub rng: Rng,
}

impl<C: Candidate> Annealer<C> {
    pub open spec fn wf(&self) -> bool {
        &&& self.current.valid(&self.problem)
        &&& self.best.valid(&self.problem)
        &&& self.current.score() <= self.best.score()
        &&& self.cooling <= PROB_SCALE
        &&& self.neighbour_rate <= PROB_SCALE
    }

    pub fn new(
        problem: C::Problem,
        start: C,
        temperature: u64,
        cooling: u64,
        neighbour_rate: u64,
        seed: u64,
    ) -> (r: Result<Annealer<C>, ConfigError>)
        requires
            start.valid(&problem),
        ensures
            r is Err <==> (cooling > PROB_SCALE || neighbour_rate > PROB_SCALE),
            r is Err ==> r == Err::<Annealer<C>, ConfigError>(ConfigError::RateOutOfRange),
            r matches Ok(a) ==> {
                &&& a.wf()
                &&& a.problem == problem
                &&& a.current.genes() == start.genes()
                &&& a.best.genes() == start.genes()
                &&& a.temperature == temperature
                &&& a.cooling == cooling
                &&& a.neighbour_rate == neighbour_rate
                &&& a.rng.state == seed
            },
    {
        if cooling > PROB_SCALE || neighbour_rate > PROB_SCALE {
            return Err(ConfigError::RateOutOfRange);
        }
        let best = start.duplicate(&problem);
        Ok(
            Annealer {
                problem,
                current: start,
                best,
                temperature,
                cooling,
                neighbour_rate,
                rng: Rng::new(seed),
            },
        )
    }

    /// One iteration: mutate a copy of the current candidate, accept or
    /// reject it by the Metropolis rule, track the best, cool down.
    pub fn iterate(&mut self)
        requires
            old(self).wf(),
        ensures
            final(self).wf(),
            final(self).problem == old(self).problem,
            final(self).cooling == old(self).cooling,
            final(self).neighbour_rate == old(self).neighbour_rate,
            final(self).temperature == cooled(old(self).temperature, old(self).cooling),
            final(self).best.score() >= old(self).best.score(),
            exists|nb: C| iteration_holds(*old(self), *final(self), nb),
            final(self).current.score() < old(self).current.score() ==> old(self).temperature > 0
                && old(self).current.score() - final(self).current.score() < MAX_E_FOLDS
                * old(self).temperature,
    {
        let mut neighbour = self.current.duplicate(&self.problem);
        neighbour.mutate(&self.problem, self.neighbour_rate, &mut self.rng);
        let draw = self.rng.below(PROB_SCALE);
        let current_fitness = self.current.fitness();
        let neighbour_fitness = neighbour.fitness();
        let take = accepts(current_fitness, neighbour_fitness, self.temperature, draw);
        proof {
            lemma_acceptance_bound(current_fitness, neighbour_fitness, self.temperature, draw);
        }
        if neighbour_fitness > self.best.fitness() {
            self.best = neighbour.duplicate(&self.problem);
        }
        let ghost nb = neighbour;
        if take {
            self.current = neighbour;
        }
        assert(self.temperature as nat * self.cooling as nat / PROB_SCALE as nat <= self.temperature)
            by (nonlinear_arith)
            requires self.cooling <= PROB_SCALE;
        self.temperature = (self.temperature as u128 * self.cooling as u128 / PROB_SCALE as u128) as u64;
        assert(iteration_holds(*old(self), *self, nb));
    }
}

} // verus!
