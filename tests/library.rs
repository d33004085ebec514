use tsp_evolve::annealing::{acceptance, accepts, Annealer};
use tsp_evolve::candidate::{Candidate, TspCandidate};
use tsp_evolve::genetic::elite_count;
use tsp_evolve::geometry::distance;
use tsp_evolve::operators::{identity_order, order_crossover, random_order, swap_mutate};
use tsp_evolve::rng::{Rng, PROB_SCALE};
use tsp_evolve::selection::{roulette_select, top_ranking, total_weight, wheel_pick};
use tsp_evolve::tour::{fitness_from_len, tour_fitness, tour_length, tours_fit};
use tsp_evolve::{City, ConfigError, GaWasm, GeneticAlgorithm, SelectionMethod};

fn unit_square(scale: i32) -> Vec<City> {
    vec![
        City::new(0, 0),
        City::new(0, scale),
        City::new(scale, scale),
        City::new(scale, 0),
    ]
}

fn is_permutation(order: &[usize], n: usize) -> bool {
    let mut seen = vec![false; n];
    if order.len() != n {
        return false;
    }
    for &c in order {
        if c >= n || seen[c] {
            return false;
        }
        seen[c] = true;
    }
    true
}

#[test]
fn city_new_keeps_coordinates() {
    let c = City::new(-3, 7);
    assert_eq!(c.x, -3);
    assert_eq!(c.y, 7);
}

#[test]
fn distance_is_rounded_down_euclidean() {
    assert_eq!(distance(&City::new(0, 0), &City::new(3, 4)), 5);
    assert_eq!(distance(&City::new(0, 0), &City::new(1000, 1000)), 1414);
    assert_eq!(distance(&City::new(2, 2), &City::new(2, 2)), 0);
    let far = distance(&City::new(i32::MIN, i32::MIN), &City::new(i32::MAX, i32::MAX));
    assert_eq!(far, 6_074_000_998);
}

#[test]
fn tour_length_closes_the_cycle() {
    let cities = unit_square(1000);
    assert_eq!(tour_length(&cities, &vec![0, 1, 2, 3]), 4000);
    assert_eq!(tour_length(&cities, &vec![0, 2, 1, 3]), 2000 + 2 * 1414);
    assert_eq!(tour_length(&cities, &vec![]), 0);
    assert_eq!(tour_length(&cities, &vec![2]), 0);
}

#[test]
fn fitness_formula_values() {
    assert_eq!(fitness_from_len(0), u64::MAX);
    assert_eq!(fitness_from_len(1), u64::MAX / 2);
    assert_eq!(fitness_from_len(u64::MAX as u128), 0);
    let cities = unit_square(1000);
    assert_eq!(tour_fitness(&cities, &vec![0, 1, 2, 3]), u64::MAX / 4001);
}

#[test]
fn shorter_tour_is_fitter() {
    let cities = unit_square(1000);
    let short = tour_fitness(&cities, &vec![0, 1, 2, 3]);
    let long = tour_fitness(&cities, &vec![0, 2, 1, 3]);
    assert!(short > long);
    assert!(fitness_from_len(4_000_000_000) > fitness_from_len(4_000_000_001));
}

#[test]
fn generator_is_splitmix64() {
    let mut rng = Rng::new(0);
    assert_eq!(rng.next_u64(), 0xE220_A839_7B1D_CDAF);
    let mut a = Rng::new(42);
    let mut b = Rng::new(42);
    for _ in 0..10 {
        let x = a.below(7);
        assert!(x < 7);
        assert_eq!(x, b.below(7));
    }
    assert!(!a.chance(0));
    assert!(a.chance(PROB_SCALE));
}

#[test]
fn order_crossover_keeps_slice_and_fills_in_order() {
    let a = vec![0, 1, 2, 3, 4];
    let b = vec![4, 3, 2, 1, 0];
    assert_eq!(order_crossover(&a, &b, 1, 3), vec![4, 1, 2, 3, 0]);
    assert_eq!(order_crossover(&a, &b, 0, 5), a);
    assert_eq!(order_crossover(&a, &b, 2, 2), b);
}

#[test]
fn random_order_and_mutation_keep_permutation() {
    let mut rng = Rng::new(7);
    for n in 0..12 {
        let mut order = random_order(n, &mut rng);
        assert!(is_permutation(&order, n));
        swap_mutate(&mut order, PROB_SCALE, &mut rng);
        assert!(is_permutation(&order, n));
        let before = order.clone();
        swap_mutate(&mut order, 0, &mut rng);
        assert_eq!(order, before);
    }
    assert_eq!(identity_order(4), vec![0, 1, 2, 3]);
}

#[test]
fn candidate_crossover_and_mutation_keep_permutation() {
    let cities: Vec<City> = (0..9).map(|i| City::new(i * 10, (i * i) % 7)).collect();
    let mut rng = Rng::new(3);
    let a = TspCandidate::random(&cities, &mut rng);
    let b = TspCandidate::random(&cities, &mut rng);
    for _ in 0..50 {
        let mut c = a.crossover(&b, &cities, PROB_SCALE, &mut rng);
        assert!(is_permutation(&c.order, 9));
        c.mutate(&cities, 200_000, &mut rng);
        assert!(is_permutation(&c.order, 9));
        assert_eq!(c.fitness, tour_fitness(&cities, &c.order));
    }
    let copy = a.crossover(&b, &cities, 0, &mut rng);
    assert_eq!(copy.order, a.order);
    let m = a.duplicate(&cities);
    assert_eq!(m.order, a.order);
    assert_eq!(m.fitness, a.fitness);
}

#[test]
fn wheel_pick_slots() {
    let w = vec![3, 0, 1];
    assert_eq!(total_weight(&w), 4);
    assert_eq!(wheel_pick(&w, 0), 0);
    assert_eq!(wheel_pick(&w, 2), 0);
    assert_eq!(wheel_pick(&w, 3), 2);
    assert_eq!(total_weight(&vec![u64::MAX, u64::MAX]), 2 * (u64::MAX as u128));
}

#[test]
fn roulette_three_to_one() {
    let w = vec![3_000, 1_000];
    let mut rng = Rng::new(2024);
    let trials = 100_000;
    let mut first = 0;
    for _ in 0..trials {
        if roulette_select(&w, &mut rng) == 0 {
            first += 1;
        }
    }
    let share = first as f64 / trials as f64;
    assert!((share - 0.75).abs() < 0.01, "share {}", share);
}

#[test]
fn roulette_all_zero_is_uniform() {
    let w = vec![0, 0, 0, 0];
    let mut rng = Rng::new(9);
    let mut counts = [0usize; 4];
    for _ in 0..40_000 {
        counts[roulette_select(&w, &mut rng)] += 1;
    }
    for c in counts {
        assert!(c > 9_000 && c < 11_000);
    }
}

#[test]
fn top_ranking_breaks_ties_by_index() {
    let f = vec![5, 9, 9, 1];
    assert_eq!(top_ranking(&f, 3), vec![1, 2, 0]);
    assert_eq!(top_ranking(&f, 0), Vec::<usize>::new());
    assert_eq!(top_ranking(&f, 4), vec![1, 2, 0, 3]);
}

#[test]
fn elite_count_rounds() {
    assert_eq!(elite_count(100_000, 20), 2);
    assert_eq!(elite_count(150_000, 5), 1);
    assert_eq!(elite_count(500_000, 3), 2);
    assert_eq!(elite_count(PROB_SCALE, 7), 7);
    assert_eq!(elite_count(0, 7), 0);
}

#[test]
fn spread_out_cities_are_refused() {
    assert!(tours_fit(&unit_square(1000)));
    assert!(tours_fit(&Vec::new()));
    let far = vec![City::new(i32::MIN, 0), City::new(i32::MAX, 0)];
    assert!(!tours_fit(&far));
    assert!(matches!(GaWasm::new(4, far, 1), Err(ConfigError::CitiesTooSpread)));
    assert!(matches!(GaWasm::new(0, vec![City::new(i32::MIN, 0), City::new(i32::MAX, 0)], 1), Err(ConfigError::EmptyPopulation)));
}

#[test]
fn roulette_advances_generator_by_its_draws() {
    let mut a = Rng::new(77);
    let mut b = Rng::new(77);
    roulette_select(&vec![1, 2, 3], &mut a);
    b.next_u64();
    b.next_u64();
    assert_eq!(a.state, b.state);
    roulette_select(&vec![0, 0], &mut a);
    b.next_u64();
    assert_eq!(a.state, b.state);
}

#[test]
fn crossover_with_full_rate_uses_drawn_slice() {
    let cities: Vec<City> = (0..6).map(|i| City::new(i, 2 * i)).collect();
    let a = TspCandidate::from_order(&cities, vec![0, 1, 2, 3, 4, 5]);
    let b = TspCandidate::from_order(&cities, vec![5, 4, 3, 2, 1, 0]);
    let mut rng = Rng::new(31);
    let mut probe = Rng::new(31);
    let child = a.ox_crossover(&b, &cities, PROB_SCALE, &mut rng);
    probe.next_u64();
    let i = probe.below(6) as usize;
    let j = probe.below(6) as usize;
    let (s, e) = if i <= j { (i, j + 1) } else { (j, i + 1) };
    assert_eq!(child.order, order_crossover(&a.order, &b.order, s, e));
    assert_eq!(rng.state, probe.state);
}

#[test]
fn engine_rejects_bad_configuration() {
    assert!(matches!(GaWasm::new(0, unit_square(1), 1), Err(ConfigError::EmptyPopulation)));
    let mut g = GaWasm::new(5, unit_square(1), 1).ok().unwrap();
    assert!(matches!(g.step(PROB_SCALE + 1, 0, 0), Err(ConfigError::RateOutOfRange)));
    assert!(matches!(g.step(0, PROB_SCALE + 1, 0), Err(ConfigError::RateOutOfRange)));
    assert!(matches!(g.step(0, 0, PROB_SCALE + 1), Err(ConfigError::RateOutOfRange)));
    assert_eq!(g.ga.mutation_rate, 10_000);
    assert!(g.ga.set_mutation_rate(PROB_SCALE + 1).is_err());
    assert!(g.ga.set_elitism_target(PROB_SCALE).is_ok());
    let empty = GeneticAlgorithm::<TspCandidate>::new(unit_square(1), Vec::new(), 0, 0, 0, 0);
    assert!(matches!(empty, Err(ConfigError::EmptyPopulation)));
    let cities = unit_square(1);
    let mut rng = Rng::new(1);
    let pop = vec![TspCandidate::random(&cities, &mut rng)];
    assert!(matches!(
        GeneticAlgorithm::new(cities, pop, PROB_SCALE + 1, 0, 0, 0),
        Err(ConfigError::RateOutOfRange)
    ));
}

#[test]
fn step_keeps_size_and_elites() {
    let cities: Vec<City> = (0..8).map(|i| City::new((i * 37) % 11 * 100, (i * 53) % 13 * 100)).collect();
    let mut g = GaWasm::new(20, cities, 11).ok().unwrap();
    for _ in 0..30 {
        let mut ranked: Vec<(u64, Vec<usize>)> =
            g.ga.population.iter().map(|c| (c.fitness, c.order.clone())).collect();
        ranked.sort_by(|a, b| b.0.cmp(&a.0));
        let best = g.step(10_000, 800_000, 100_000).ok().unwrap();
        assert_eq!(g.ga.population.len(), 20);
        for i in 0..2 {
            assert_eq!(g.ga.population[i].fitness, ranked[i].0);
            assert_eq!(g.ga.population[i].order, ranked[i].1);
        }
        assert!(best.fitness >= ranked[0].0);
        for c in &g.ga.population {
            assert!(is_permutation(&c.order, 8));
        }
    }
    g.ga.step(SelectionMethod::RouletteWheel);
    assert_eq!(g.ga.population.len(), 20);
}

#[test]
fn unit_square_reaches_perimeter() {
    let mut g = GaWasm::new(20, unit_square(1000), 5).ok().unwrap();
    let mut best = g.step(10_000, 800_000, 100_000).ok().unwrap();
    for _ in 0..50 {
        best = g.step(10_000, 800_000, 100_000).ok().unwrap();
    }
    assert!(best.fitness >= fitness_from_len(4500));
    assert_eq!(best.chromosome.len(), 4);
}

#[test]
fn acceptance_values() {
    assert_eq!(acceptance(0, 0), PROB_SCALE);
    assert_eq!(acceptance(10, 10), 367_879);
    assert_eq!(acceptance(15, 10), 251_607);
    assert_eq!(acceptance(5, 10), 683_940);
    assert_eq!(acceptance(139, 10), 1);
    assert_eq!(acceptance(140, 10), 0);
    assert_eq!(acceptance(200, 10), 0);
    assert_eq!(acceptance(1, 0), 0);
}

#[test]
fn better_always_worse_never_when_cold() {
    for t in [0u64, 1, 1000, u64::MAX] {
        assert!(accepts(10, 11, t, PROB_SCALE - 1));
        assert!(accepts(10, 10, t, PROB_SCALE - 1));
    }
    assert!(!accepts(100, 99, 0, 0));
    assert!(!accepts(1000, 900, 5, 0));
    assert!(accepts(1000, 900, 1000, 0));
}

#[test]
fn annealer_cools_and_keeps_best() {
    let cities: Vec<City> = (0..6).map(|i| City::new(i * 10, (i % 2) * 10)).collect();
    let mut rng = Rng::new(4);
    let start = TspCandidate::random(&cities, &mut rng);
    assert!(matches!(
        Annealer::new(cities.clone(), start.duplicate(&cities), 10, PROB_SCALE + 1, 0, 0),
        Err(ConfigError::RateOutOfRange)
    ));
    assert!(matches!(
        Annealer::new(cities.clone(), start.duplicate(&cities), 10, 0, PROB_SCALE + 1, 0),
        Err(ConfigError::RateOutOfRange)
    ));
    let mut a = Annealer::new(cities, start, 1_000, 900_000, 200_000, 8).ok().unwrap();
    let mut last_best = a.best.fitness;
    a.iterate();
    assert_eq!(a.temperature, 900);
    for _ in 0..200 {
        a.iterate();
        assert!(a.best.fitness >= last_best);
        assert!(a.best.fitness >= a.current.fitness);
        last_best = a.best.fitness;
    }
    assert!(is_permutation(&a.current.order, 6));
}
