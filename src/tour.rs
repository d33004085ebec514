use vstd::prelude::*;
use crate::geometry::{City, dist, distance, lemma_dist_le_extents};

verus! {

/// Largest value a fitness can take; fitness is this divided by one more than
/// the tour length.
pub const FITNESS_NUMERATOR: u64 = 0xFFFF_FFFF_FFFF_FFFF;

/// Length of the edge from position `i` to position `j` of a tour.
pub open spec fn leg(cities: Seq<City>, order: Seq<usize>, i: int, j: int) -> nat {
    dist(cities[order[i] as int], cities[order[j] as int])
}

/// Length of the open path through the first `i + 1` positions of a tour.
pub open spec fn path_len(cities: Seq<City>, order: Seq<usize>, i: nat) -> nat
    decreases i,
{
    if i == 0 {
        0
    } else {
        path_len(cities, order, (i - 1) as nat) + leg(cities, order, i - 1, i as int)
    }
}

/// Length of the closed tour that visits the cities in `order` and returns to
/// the first one.
pub open spec fn tour_len(cities: Seq<City>, order: Seq<usize>) -> nat {
    if order.len() == 0 {
        0
    } else {
        path_len(cities, order, (order.len() - 1) as nat) + leg(
            cities,
            order,
            order.len() - 1,
            0,
        )
    }
}

/// Fitness of a tour of length `len`: strictly decreasing in the length while
/// `len` stays within `STRICT_LEN_LIMIT`, never increasing, and never zero for
/// a tour shorter than the numerator.
pub open spec fn fitness_of(len: nat) -> u64 {
    (FITNESS_NUMERATOR as nat / (1 + len)) as u64
}

/// Up to this length the fitness of a tour is strictly decreasing in its
/// length; beyond it, two lengths may share a fitness.
pub const STRICT_LEN_LIMIT: u64 = 0xFFFF_FFFE;

/// A shorter tour never has a lower fitness, and has a strictly higher one
/// when its length is at most `STRICT_LEN_LIMIT`.
pub proof fn lemma_shorter_is_fitter(cities: Seq<City>, a: Seq<usize>, b: Seq<usize>)
    requires
        is_perm(a, cities.len()),
        is_perm(b, cities.len()),
        tour_len(cities, a) < tour_len(cities, b),
    ensures
        fitness_of(tour_len(cities, a)) >= fitness_of(tour_len(cities, b)),
        tour_len(cities, a) <= STRICT_LEN_LIMIT ==> fitness_of(tour_len(cities, a)) > fitness_of(
            tour_len(cities, b),
        ),
{
    lemma_fitness_decreasing(tour_len(cities, a), tour_len(cities, b));
}

pub proof fn lemma_fitness_decreasing(la: nat, lb: nat)
    requires
        la < lb,
    ensures
        fitness_of(la) >= fitness_of(lb),
        la <= STRICT_LEN_LIMIT ==> fitness_of(la) > fitness_of(lb),
{
    let num = FITNESS_NUMERATOR as nat;
    let a = 1 + la;
    let b = 1 + lb;
    vstd::arithmetic::div_mod::lemma_div_is_ordered_by_denominator(num as int, a as int, b as int);
    vstd::arithmetic::div_mod::lemma_div_is_ordered_by_denominator(num as int, a as int, (a + 1) as int);
    vstd::arithmetic::div_mod::lemma_div_is_ordered_by_denominator(num as int, (a + 1) as int, b as int);
    lemma_fitness_fits(la);
    lemma_fitness_fits(lb);
    if la <= STRICT_LEN_LIMIT {
        let q = num / (a + 1);
        vstd::arithmetic::div_mod::lemma_fundamental_div_mod(num as int, (a + 1) as int);
        assert(a * (a + 1) <= num) by (nonlinear_arith)
            requires a <= STRICT_LEN_LIMIT + 1, num == FITNESS_NUMERATOR;
        assert(q >= a) by (nonlinear_arith)
            requires q == num / (a + 1), a * (a + 1) <= num, a > 0;
        assert((q + 1) * a <= num) by (nonlinear_arith)
            requires q * (a + 1) <= num, q >= a;
        assert(num / a >= q + 1) by (nonlinear_arith)
            requires (q + 1) * a <= num, a > 0;
    }
}

proof fn lemma_fitness_fits(len: nat)
    ensures
        fitness_of(len) as nat == FITNESS_NUMERATOR as nat / (1 + len),
{
    vstd::arithmetic::div_mod::lemma_div_is_ordered_by_denominator(FITNESS_NUMERATOR as int, 1, (1 + len) as int);
}

/// Every entry of `order` names a city.
pub open spec fn in_bounds(order: Seq<usize>, n: nat) -> bool {
    forall|i: int| 0 <= i < order.len() ==> (#[trigger] order[i]) < n
}

/// `order` visits each of the `n` cities exactly once.
pub open spec fn is_perm(order: Seq<usize>, n: nat) -> bool {
    &&& order.len() == n
    &&& in_bounds(order, n)
    &&& order.no_duplicates()
}

/// Total length of the closed tour.
pub fn tour_length(cities: &Vec<City>, order: &Vec<usize>) -> (r: u128)
    requires
        in_bounds(order@, cities@.len()),
    ensures
        r as nat == tour_len(cities@, order@),
{
    let n = order.len();
    if n == 0 {
        return 0;
    }
    let mut total: u128 = 0;
    let mut i: usize = 0;
    while i + 1 < n
        invariant
            n == order@.len(),
            n > 0,
            in_bounds(order@, cities@.len()),
            i < n,
            total as nat == path_len(cities@, order@, i as nat),
            total <= i * 0x2_0000_0000,
        decreases n - i,
    {
        let d = distance(&cities[order[i]], &cities[order[i + 1]]);
        assert(total + d <= (i + 1) * 0x2_0000_0000) by (nonlinear_arith)
            requires total <= i * 0x2_0000_0000, d < 0x2_0000_0000;
        total = total + d as u128;
        i = i + 1;
    }
    let d = distance(&cities[order[n - 1]], &cities[order[0]]);
    total + d as u128
}

pub fn fitness_from_len(len: u128) -> (r: u64)
    ensures
        r == fitness_of(len as nat),
{
    if len >= FITNESS_NUMERATOR as u128 {
        assert(FITNESS_NUMERATOR as nat / (1 + len as nat) == 0) by (nonlinear_arith)
            requires len >= FITNESS_NUMERATOR;
        0
    } else {
        (FITNESS_NUMERATOR as u128 / (1 + len)) as u64
    }
}

/// Fitness of a tour: the higher, the shorter the tour.
pub fn tour_fitness(cities: &Vec<City>, order: &Vec<usize>) -> (r: u64)
    requires
        in_bounds(order@, cities@.len()),
    ensures
        r == fitness_of(tour_len(cities@, order@)),
{
    let len = tour_length(cities, order);
    fitness_from_len(len)
}

/// Every tour of `cities` is at most `STRICT_LEN_LIMIT` long, so that fitness
/// is strictly decreasing in length over all of them.
pub open spec fn tours_bounded(cities: Seq<City>) -> bool {
    forall|order: Seq<usize>| #[trigger] is_perm(order, cities.len()) ==> tour_len(cities, order)
        <= STRICT_LEN_LIMIT
}

/// All cities lie in the box `lx..=hx` by `ly..=hy`.
pub open spec fn in_box(cities: Seq<City>, lx: int, hx: int, ly: int, hy: int) -> bool {
    forall|i: int|
        0 <= i < cities.len() ==> lx <= (#[trigger] cities[i]).x <= hx && ly <= cities[i].y <= hy
}

proof fn lemma_path_in_box(cities: Seq<City>, order: Seq<usize>, lx: int, hx: int, ly: int, hy: int, i: nat)
    requires
        in_box(cities, lx, hx, ly, hy),
        in_bounds(order, cities.len()),
        i < order.len(),
        lx <= hx,
        ly <= hy,
    ensures
        path_len(cities, order, i) <= i * ((hx - lx) + (hy - ly)),
    decreases i,
{
    if i > 0 {
        lemma_path_in_box(cities, order, lx, hx, ly, hy, (i - 1) as nat);
        lemma_leg_in_box(cities, order, lx, hx, ly, hy, i - 1, i as int);
        let span = (hx - lx) + (hy - ly);
        assert((i - 1) * span + span == i * span) by (nonlinear_arith);
        assert(path_len(cities, order, i) == path_len(cities, order, (i - 1) as nat) + leg(
            cities,
            order,
            i - 1,
            i as int,
        ));
    }
}

proof fn lemma_leg_in_box(cities: Seq<City>, order: Seq<usize>, lx: int, hx: int, ly: int, hy: int, i: int, j: int)
    requires
        in_box(cities, lx, hx, ly, hy),
        in_bounds(order, cities.len()),
        0 <= i < order.len(),
        0 <= j < order.len(),
    ensures
        leg(cities, order, i, j) <= (hx - lx) + (hy - ly),
{
    let a = cities[order[i] as int];
    let b = cities[order[j] as int];
    lemma_dist_le_extents(a, b);
}

/// Smallest and largest coordinates of a non-empty city list.
pub open spec fn min_x(c: Seq<City>) -> int
    decreases c.len(),
{
    if c.len() <= 1 {
        c[0].x as int
    } else if c.last().x < min_x(c.drop_last()) {
        c.last().x as int
    } else {
        min_x(c.drop_last())
    }
}

pub open spec fn max_x(c: Seq<City>) -> int
    decreases c.len(),
{
    if c.len() <= 1 {
        c[0].x as int
    } else if c.last().x > max_x(c.drop_last()) {
        c.last().x as int
    } else {
        max_x(c.drop_last())
    }
}

pub open spec fn min_y(c: Seq<City>) -> int
    decreases c.len(),
{
    if c.len() <= 1 {
        c[0].y as int
    } else if c.last().y < min_y(c.drop_last()) {
        c.last().y as int
    } else {
        min_y(c.drop_last())
    }
}

pub open spec fn max_y(c: Seq<City>) -> int
    decreases c.len(),
{
    if c.len() <= 1 {
        c[0].y as int
    } else if c.last().y > max_y(c.drop_last()) {
        c.last().y as int
    } else {
        max_y(c.drop_last())
    }
}

/// The city count times the width plus height of the bounding box is at most
/// `STRICT_LEN_LIMIT`.
pub open spec fn box_fits(c: Seq<City>) -> bool {
    c.len() == 0 || c.len() * ((max_x(c) - min_x(c)) + (max_y(c) - min_y(c))) <= STRICT_LEN_LIMIT
}

/// Whether every tour of `cities` is at most `STRICT_LEN_LIMIT` long, judged
/// from the bounding box: no edge is longer than its width plus its height.
/// A `false` means only that the box does not rule out longer tours.
pub fn tours_fit(cities: &Vec<City>) -> (r: bool)
    ensures
        r == box_fits(cities@),
        r ==> tours_bounded(cities@),
{
    let n = cities.len();
    if n == 0 {
        assert forall|order: Seq<usize>| #[trigger] is_perm(order, cities@.len()) implies tour_len(
            cities@,
            order,
        ) <= STRICT_LEN_LIMIT by {}
        return true;
    }
    let mut lx: i32 = cities[0].x;
    let mut hx: i32 = cities[0].x;
    let mut ly: i32 = cities[0].y;
    let mut hy: i32 = cities[0].y;
    let mut i: usize = 1;
    assert(cities@.subrange(0, 1)[0] == cities@[0]);
    while i < n
        invariant
            n == cities@.len(),
            1 <= i <= n,
            lx <= hx,
            ly <= hy,
            in_box(cities@.subrange(0, i as int), lx as int, hx as int, ly as int, hy as int),
            lx == min_x(cities@.subrange(0, i as int)),
            hx == max_x(cities@.subrange(0, i as int)),
            ly == min_y(cities@.subrange(0, i as int)),
            hy == max_y(cities@.subrange(0, i as int)),
        decreases n - i,
    {
        let c = cities[i];
        assert(cities@.subrange(0, i + 1).drop_last() =~= cities@.subrange(0, i as int));
        if c.x < lx {
            lx = c.x;
        }
        if c.x > hx {
            hx = c.x;
        }
        if c.y < ly {
            ly = c.y;
        }
        if c.y > hy {
            hy = c.y;
        }
        assert forall|k: int| 0 <= k < i + 1 implies lx <= (#[trigger] cities@.subrange(0, i + 1)[k]).x <= hx
            && ly <= cities@.subrange(0, i + 1)[k].y <= hy by {
            if k < i {
                assert(cities@.subrange(0, i + 1)[k] == cities@.subrange(0, i as int)[k]);
            }
        }
        i = i + 1;
    }
    assert(cities@.subrange(0, n as int) =~= cities@);
    let span: u128 = (hx as i64 - lx as i64) as u128 + (hy as i64 - ly as i64) as u128;
    assert(n * span < 0x1_0000_0000_0000_0000_0000_0000_0000_0000) by (nonlinear_arith)
        requires n <= usize::MAX, span < 0x2_0000_0000;
    let fits = (n as u128) * span <= STRICT_LEN_LIMIT as u128;
    if fits {
        assert forall|order: Seq<usize>| #[trigger] is_perm(order, cities@.len()) implies tour_len(
            cities@,
            order,
        ) <= STRICT_LEN_LIMIT by {
            lemma_path_in_box(cities@, order, lx as int, hx as int, ly as int, hy as int, (n - 1) as nat);
            lemma_leg_in_box(cities@, order, lx as int, hx as int, ly as int, hy as int, n - 1, 0);
            assert((n - 1) * span + span == n * span) by (nonlinear_arith);
        }
    }
    fits
}

/// Over a city set whose tours are all within `STRICT_LEN_LIMIT`, a strictly
/// shorter tour has a strictly higher fitness.
pub proof fn lemma_fitness_strict_on_bounded(cities: Seq<City>, a: Seq<usize>, b: Seq<usize>)
    requires
        tours_bounded(cities),
        is_perm(a, cities.len()),
        is_perm(b, cities.len()),
        tour_len(cities, a) < tour_len(cities, b),
    ensures
        fitness_of(tour_len(cities, a)) > fitness_of(tour_len(cities, b)),
{
    lemma_shorter_is_fitter(cities, a, b);
}

} // verus!
