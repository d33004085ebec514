use vstd::prelude::*;
use crate::rng::{Rng, mix, next_state, wrap_add, GOLDEN_GAMMA};
use crate::operators::city_set;

verus! {

/// How parents are chosen. New strategies are added as variants.
#[derive(Clone, Copy, PartialEq, Eq, Structural, Debug)]
pub enum SelectionMethod {
    /// Probability proportional to fitness.
    RouletteWheel,
}

/// Sum of the first `i` weights.
pub open spec fn prefix_sum(w: Seq<u64>, i: int) -> nat
    decreases i,
{
    if i <= 0 {
        0
    } else {
        prefix_sum(w, i - 1) + w[i - 1] as nat
    }
}

pub open spec fn total(w: Seq<u64>) -> nat {
    prefix_sum(w, w.len() as int)
}

/// Index `i` owns the slots `prefix_sum(w, i) .. prefix_sum(w, i + 1)` of the
/// wheel, as many as its weight.
pub open spec fn owns_slot(w: Seq<u64>, i: int, d: nat) -> bool {
    prefix_sum(w, i) <= d < prefix_sum(w, i + 1)
}

/// The first index from `i` on whose slot range ends past `d`.
pub open spec fn wheel_from(w: Seq<u64>, d: nat, i: int) -> int
    decreases w.len() - i,
{
    if i < 0 || i >= w.len() {
        w.len() as int
    } else if d < prefix_sum(w, i + 1) {
        i
    } else {
        wheel_from(w, d, i + 1)
    }
}

/// The index that roulette-wheel selection draws from a generator in state
/// `s`, and the state it leaves.
pub open spec fn roulette_outcome(w: Seq<u64>, s: u64) -> (int, u64) {
    if total(w) == 0 {
        ((mix(next_state(s)) as nat % w.len()) as int, next_state(s))
    } else {
        (wheel_from(w, wide_draw(s) % total(w), 0), next_state(next_state(s)))
    }
}

proof fn lemma_prefix_monotone(w: Seq<u64>, i: int, j: int)
    requires
        0 <= i <= j <= w.len(),
    ensures
        prefix_sum(w, i) <= prefix_sum(w, j),
    decreases j - i,
{
    if i < j {
        lemma_prefix_monotone(w, i, j - 1);
    }
}

proof fn lemma_prefix_bound(w: Seq<u64>, i: int)
    requires
        0 <= i <= w.len(),
    ensures
        prefix_sum(w, i) <= i * 0xFFFF_FFFF_FFFF_FFFF,
    decreases i,
{
    if i > 0 {
        lemma_prefix_bound(w, i - 1);
    }
}

/// Sum of all weights.
pub fn total_weight(w: &Vec<u64>) -> (r: u128)
    ensures
        r as nat == total(w@),
{
    let mut s: u128 = 0;
    let mut i: usize = 0;
    while i < w.len()
        invariant
            i <= w@.len(),
            s as nat == prefix_sum(w@, i as int),
            s <= i * 0xFFFF_FFFF_FFFF_FFFF,
        decreases w@.len() - i,
    {
        assert(s + w@[i as int] <= (i + 1) * 0xFFFF_FFFF_FFFF_FFFF) by (nonlinear_arith)
            requires s <= i * 0xFFFF_FFFF_FFFF_FFFF, w@[i as int] <= 0xFFFF_FFFF_FFFF_FFFF;
        s = s + w[i] as u128;
        i = i + 1;
    }
    s
}

/// The index whose slot of the wheel holds `d`.
pub fn wheel_pick(w: &Vec<u64>, d: u128) -> (r: usize)
    requires
        (d as nat) < total(w@),
    ensures
        r < w@.len(),
        owns_slot(w@, r as int, d as nat),
        w@[r as int] > 0,
        r as int == wheel_from(w@, d as nat, 0),
{
    let mut s: u128 = 0;
    let mut i: usize = 0;
    proof {
        lemma_prefix_monotone(w@, 0, w@.len() as int);
    }
    while i < w.len()
        invariant
            i <= w@.len(),
            s as nat == prefix_sum(w@, i as int),
            s <= d,
            (d as nat) < total(w@),
            wheel_from(w@, d as nat, i as int) == wheel_from(w@, d as nat, 0),
        decreases w@.len() - i,
    {
        proof {
            lemma_prefix_monotone(w@, i + 1, w@.len() as int);
            lemma_prefix_bound(w@, i + 1);
            assert((i + 1) * 0xFFFF_FFFF_FFFF_FFFF < 0x1_0000_0000_0000_0000_0000_0000_0000_0000) by (nonlinear_arith)
                requires i + 1 <= 0x1_0000_0000_0000_0000;
        }
        let next: u128 = s + w[i] as u128;
        if d < next {
            return i;
        }
        s = next;
        i = i + 1;
    }
    i
}

/// The value of a two-word draw from a generator in state `s`.
pub open spec fn wide_draw(s: u64) -> nat {
    let s1 = wrap_add(s, GOLDEN_GAMMA);
    let s2 = wrap_add(s1, GOLDEN_GAMMA);
    mix(s1) as nat * 0x1_0000_0000_0000_0000 + mix(s2) as nat
}

/// Roulette-wheel selection: index `i` is drawn with probability
/// `w[i] / total(w)`; when every weight is zero, uniformly.
pub fn roulette_select(w: &Vec<u64>, rng: &mut Rng) -> (r: usize)
    requires
        w@.len() > 0,
    ensures
        r < w@.len(),
        total(w@) == 0 ==> r as nat == mix(wrap_add(old(rng).state, GOLDEN_GAMMA)) as nat % w@.len(),
        total(w@) > 0 ==> owns_slot(w@, r as int, wide_draw(old(rng).state) % total(w@)),
        (r as int, final(rng).state) == roulette_outcome(w@, old(rng).state),
{
    let t = total_weight(w);
    if t == 0 {
        return rng.below(w.len() as u64) as usize;
    }
    let hi = rng.next_u64() as u128;
    let lo = rng.next_u64() as u128;
    let d = ((hi << 64u128) | lo) % t;
    assert((hi << 64u128) | lo == hi * 0x1_0000_0000_0000_0000 + lo) by (bit_vector)
        requires hi < 0x1_0000_0000_0000_0000, lo < 0x1_0000_0000_0000_0000;
    wheel_pick(w, d)
}

/// `f[p]` ranks before `f[q]`: higher fitness first, then lower index.
pub open spec fn ranks_before(f: Seq<u64>, p: int, q: int) -> bool {
    f[p] > f[q] || (f[p] == f[q] && p < q)
}

/// `r` lists the `k` best indices of `f`, best first, ties broken by index.
pub open spec fn is_top_ranking(f: Seq<u64>, r: Seq<usize>, k: nat) -> bool {
    &&& r.len() == k
    &&& r.no_duplicates()
    &&& forall|i: int| 0 <= i < k ==> (#[trigger] r[i]) < f.len()
    &&& forall|i: int, j: int|
        0 <= i < j < k ==> ranks_before(f, #[trigger] r[i] as int, #[trigger] r[j] as int)
    &&& forall|i: int, m: int|
        0 <= i < k && 0 <= m < f.len() && !r.contains(m as usize) ==> #[trigger] ranks_before(
            f,
            r[i] as int,
            m,
        )
}

/// The `k` best indices of `f`, best first, ties broken by index.
pub fn top_ranking(f: &Vec<u64>, k: usize) -> (r: Vec<usize>)
    requires
        k <= f@.len(),
    ensures
        is_top_ranking(f@, r@, k as nat),
{
    let n = f.len();
    let mut taken: Vec<bool> = Vec::with_capacity(n);
    let mut i: usize = 0;
    while i < n
        invariant
            i <= n,
            taken@.len() == i,
            forall|v: int| 0 <= v < i ==> !taken@[v],
        decreases n - i,
    {
        taken.push(false);
        i = i + 1;
    }
    let mut r: Vec<usize> = Vec::with_capacity(k);
    while r.len() < k
        invariant
            n == f@.len(),
            k <= n,
            r@.len() <= k,
            taken@.len() == n,
            forall|v: int| 0 <= v < n ==> taken@[v] == r@.contains(v as usize),
            is_top_ranking(f@, r@, r@.len() as nat),
        decreases k - r@.len(),
    {
        proof {
            if forall|v: int| 0 <= v < n ==> taken@[v] {
                assert forall|v: usize| city_set(n as nat).contains(v) implies r@.to_set().contains(v) by {
                    assert(taken@[v as int]);
                }
                r@.unique_seq_to_set();
                crate::operators::lemma_city_set_len(n as nat);
                vstd::set_lib::lemma_len_subset(city_set(n as nat), r@.to_set());
            }
        }
        let mut best: usize = n;
        let mut j: usize = 0;
        while j < n
            invariant
                n == f@.len(),
                taken@.len() == n,
                j <= n,
                best == n || (best < j && !taken@[best as int]),
                best == n ==> forall|m: int| 0 <= m < j ==> taken@[m],
                best < n ==> forall|m: int|
                    0 <= m < j && !taken@[m] && m != best ==> ranks_before(f@, best as int, m),
            decreases n - j,
        {
            if !taken[j] && (best == n || f[j] > f[best]) {
                best = j;
            }
            j = j + 1;
        }
        proof {
            let old_r = r@;
            let new_r = old_r.push(best);
            assert(!old_r.contains(best));
            assert forall|v: usize| new_r.contains(v) <==> (old_r.contains(v) || v == best) by {
                if new_r.contains(v) && v != best {
                    let q = choose|q: int| 0 <= q < new_r.len() && new_r[q] == v;
                    assert(old_r[q] == v);
                }
                if old_r.contains(v) {
                    let q = choose|q: int| 0 <= q < old_r.len() && old_r[q] == v;
                    assert(new_r[q] == v);
                }
                if v == best {
                    assert(new_r[old_r.len() as int] == best);
                }
            }
            assert forall|a: int, b: int| 0 <= a < new_r.len() && 0 <= b < new_r.len() && a != b
                implies new_r[a] != new_r[b] by {
                if a < old_r.len() {
                    assert(old_r.contains(old_r[a]));
                }
                if b < old_r.len() {
                    assert(old_r.contains(old_r[b]));
                }
            }
            assert forall|a: int, b: int| 0 <= a < b < new_r.len() implies ranks_before(
                f@,
                #[trigger] new_r[a] as int,
                #[trigger] new_r[b] as int,
            ) by {
                if b == old_r.len() {
                    assert(new_r[a] == old_r[a]);
                }
            }
            assert forall|a: int, m: int|
                0 <= a < new_r.len() && 0 <= m < n && !new_r.contains(m as usize) implies #[trigger] ranks_before(
                f@,
                new_r[a] as int,
                m,
            ) by {
                assert(!old_r.contains(m as usize));
                if a < old_r.len() {
                    assert(new_r[a] == old_r[a]);
                } else {
                    assert(!taken@[m]);
                }
            }
        }
        r.push(best);
        taken.set(best, true);
    }
    r
}

} // verus!
