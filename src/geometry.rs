use vstd::prelude::*;

verus! {

/// A city on an integer grid. The embedding layer scales real coordinates to
/// this grid before handing them to the library.
#[derive(Clone, Copy, PartialEq, Eq, Structural, Debug)]
pub struct City {
    pub x: i32,
    pub y: i32,
}

impl City {
    pub fn new(x: i32, y: i32) -> (r: City)
        ensures
            r.x == x,
            r.y == y,
    {
        City { x, y }
    }
}

/// Squared Euclidean distance between two cities.
pub open spec fn sq_dist(a: City, b: City) -> nat {
    let dx = a.x - b.x;
    let dy = a.y - b.y;
    (dx * dx + dy * dy) as nat
}

/// `r` is the integer square root of `n`, rounded down.
pub open spec fn is_floor_sqrt(n: nat, r: nat) -> bool {
    r * r <= n && n < (r + 1) * (r + 1)
}

pub open spec fn floor_sqrt(n: nat) -> nat {
    choose|r: nat| is_floor_sqrt(n, r)
}

/// Length of the edge between two cities: the Euclidean distance, rounded down
/// to the grid unit.
pub open spec fn dist(a: City, b: City) -> nat {
    floor_sqrt(sq_dist(a, b))
}

pub proof fn lemma_floor_sqrt_unique(n: nat, r: nat)
    requires
        is_floor_sqrt(n, r),
    ensures
        floor_sqrt(n) == r,
{
    let s = floor_sqrt(n);
    assert(is_floor_sqrt(n, s));
    if s < r {
        assert((s + 1) * (s + 1) <= r * r) by (nonlinear_arith)
            requires s + 1 <= r;
    } else if r < s {
        assert((r + 1) * (r + 1) <= s * s) by (nonlinear_arith)
            requires r + 1 <= s;
    }
}

pub proof fn lemma_floor_sqrt_exists(n: nat)
    ensures
        is_floor_sqrt(n, floor_sqrt(n)),
    decreases n,
{
    if n == 0 {
        let w: nat = 0;
        assert(w * w <= n && n < (w + 1) * (w + 1)) by (nonlinear_arith)
            requires n == 0, w == 0;
        assert(is_floor_sqrt(n, w));
    } else {
        lemma_floor_sqrt_exists((n - 1) as nat);
        let r = floor_sqrt((n - 1) as nat);
        if (r + 1) * (r + 1) <= n {
            assert(n < (r + 2) * (r + 2)) by (nonlinear_arith)
                requires n - 1 < (r + 1) * (r + 1), (r + 1) * (r + 1) <= n;
            assert(is_floor_sqrt(n, r + 1));
        } else {
            assert(is_floor_sqrt(n, r));
        }
    }
}

/// An edge is never longer than the sum of its horizontal and vertical
/// extents.
pub proof fn lemma_dist_le_extents(a: City, b: City)
    ensures
        dist(a, b) <= (if a.x >= b.x { a.x - b.x } else { b.x - a.x }) + (if a.y >= b.y { a.y - b.y } else { b.y - a.y }),
{
    let dx: int = if a.x >= b.x { a.x - b.x } else { b.x - a.x };
    let dy: int = if a.y >= b.y { a.y - b.y } else { b.y - a.y };
    assert(sq_dist(a, b) == dx * dx + dy * dy) by (nonlinear_arith)
        requires
            dx == if a.x >= b.x { a.x - b.x } else { b.x - a.x },
            dy == if a.y >= b.y { a.y - b.y } else { b.y - a.y };
    lemma_floor_sqrt_exists(sq_dist(a, b));
    let r = dist(a, b);
    assert(r <= dx + dy) by (nonlinear_arith)
        requires r * r <= dx * dx + dy * dy, dx >= 0, dy >= 0, r >= 0;
}

/// Integer square root by bisection.
fn isqrt(n: u128) -> (r: u64)
    requires
        n < 0x4_0000_0000_0000_0000,
    ensures
        is_floor_sqrt(n as nat, r as nat),
        r < 0x2_0000_0000,
{
    let mut lo: u128 = 0;
    let mut hi: u128 = 0x2_0000_0000;
    assert(hi * hi == 0x4_0000_0000_0000_0000);
    while hi - lo > 1
        invariant
            lo < hi <= 0x2_0000_0000,
            lo * lo <= n,
            n < hi * hi,
        decreases hi - lo,
    {
        let mid: u128 = lo + (hi - lo) / 2;
        assert(mid * mid <= 0x4_0000_0000_0000_0000) by (nonlinear_arith)
            requires mid <= 0x2_0000_0000;
        if mid * mid <= n {
            lo = mid;
        } else {
            hi = mid;
        }
    }
    assert(hi == lo + 1);
    lo as u64
}

fn abs_diff(a: i32, b: i32) -> (r: u128)
    ensures
        r as int == if a >= b { a - b } else { b - a },
        r < 0x1_0000_0000,
{
    let d: i64 = a as i64 - b as i64;
    if d < 0 {
        (-d) as u128
    } else {
        d as u128
    }
}

/// Distance between two cities, rounded down to the grid unit.
pub fn distance(a: &City, b: &City) -> (r: u64)
    ensures
        r as nat == dist(*a, *b),
        r < 0x2_0000_0000,
{
    let dx = abs_diff(a.x, b.x);
    let dy = abs_diff(a.y, b.y);
    assert(dx * dx < 0x1_0000_0000_0000_0000) by (nonlinear_arith)
        requires dx < 0x1_0000_0000;
    assert(dy * dy < 0x1_0000_0000_0000_0000) by (nonlinear_arith)
        requires dy < 0x1_0000_0000;
    let s = dx * dx + dy * dy;
    assert(s as nat == sq_dist(*a, *b)) by (nonlinear_arith)
        requires
            dx as int == if a.x >= b.x { a.x - b.x } else { b.x - a.x },
            dy as int == if a.y >= b.y { a.y - b.y } else { b.y - a.y },
            s == dx * dx + dy * dy;
    let r = isqrt(s);
    proof {
        lemma_floor_sqrt_unique(s as nat, r as nat);
    }
    r
}

} // verus!
