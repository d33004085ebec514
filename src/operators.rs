use vstd::prelude::*;
use crate::rng::{Rng, PROB_SCALE, mix, next_state};
use crate::tour::{in_bounds, is_perm};
use vstd::set_lib::{lemma_subset_equality, lemma_set_difference_len};

verus! {

/// `s` with the entries at `i` and `j` exchanged.
pub open spec fn swapped(s: Seq<usize>, i: int, j: int) -> Seq<usize> {
    s.update(i, s[j]).update(j, s[i])
}

pub proof fn lemma_swap_keeps_perm(s: Seq<usize>, n: nat, i: int, j: int)
    requires
        is_perm(s, n),
        0 <= i < n,
        0 <= j < n,
    ensures
        is_perm(swapped(s, i, j), n),
{
    let t = swapped(s, i, j);
    assert forall|p: int, q: int| 0 <= p < t.len() && 0 <= q < t.len() && p != q implies t[p]
        != t[q] by {
        let sp = if p == j { i } else if p == i { j } else { p };
        let sq = if q == j { i } else if q == i { j } else { q };
        assert(t[p] == s[sp]);
        assert(t[q] == s[sq]);
    }
}

fn swap_entries(v: &mut Vec<usize>, i: usize, j: usize)
    requires
        i < old(v)@.len(),
        j < old(v)@.len(),
    ensures
        final(v)@ == swapped(old(v)@, i as int, j as int),
{
    let a = v[i];
    let b = v[j];
    v.set(i, b);
    v.set(j, a);
}

/// The tour `0, 1, ..., n - 1`.
pub open spec fn identity_seq(n: nat) -> Seq<usize> {
    Seq::new(n, |i: int| i as usize)
}

/// Fisher-Yates from position `i` down: the tour and the generator state it
/// leaves.
pub open spec fn shuffled_from(v: Seq<usize>, s: u64, i: nat) -> (Seq<usize>, u64)
    decreases i,
{
    if i <= 1 {
        (v, s)
    } else {
        let s1 = next_state(s);
        let j = mix(s1) as nat % i;
        shuffled_from(swapped(v, i - 1, j as int), s1, (i - 1) as nat)
    }
}

/// Swap mutation from position `i` on: the tour and the generator state it
/// leaves.
pub open spec fn mutated_from(order: Seq<usize>, rate: u64, s: u64, i: nat) -> (Seq<usize>, u64)
    decreases order.len() - i,
{
    if i >= order.len() {
        (order, s)
    } else {
        let s1 = next_state(s);
        if mix(s1) % PROB_SCALE < rate {
            let s2 = next_state(s1);
            let j = mix(s2) as nat % order.len();
            mutated_from(swapped(order, i as int, j as int), rate, s2, i + 1)
        } else {
            mutated_from(order, rate, s1, i + 1)
        }
    }
}

pub fn identity_order(n: usize) -> (r: Vec<usize>)
    ensures
        r@ == identity_seq(n as nat),
        is_perm(r@, n as nat),
{
    let mut v: Vec<usize> = Vec::with_capacity(n);
    let mut i: usize = 0;
    while i < n
        invariant
            i <= n,
            v@.len() == i,
            forall|k: int| 0 <= k < i ==> v@[k] == k,
        decreases n - i,
    {
        v.push(i);
        i = i + 1;
    }
    assert(v@ =~= identity_seq(n as nat));
    v
}

/// A uniformly shuffled tour of `n` cities (Fisher-Yates).
pub fn random_order(n: usize, rng: &mut Rng) -> (r: Vec<usize>)
    ensures
        is_perm(r@, n as nat),
        (r@, final(rng).state) == shuffled_from(identity_seq(n as nat), old(rng).state, n as nat),
{
    let mut v = identity_order(n);
    let mut i: usize = n;
    while i > 1
        invariant
            i <= n,
            is_perm(v@, n as nat),
            shuffled_from(v@, rng.state, i as nat) == shuffled_from(
                identity_seq(n as nat),
                old(rng).state,
                n as nat,
            ),
        decreases i,
    {
        let j = rng.below(i as u64) as usize;
        proof {
            lemma_swap_keeps_perm(v@, n as nat, (i - 1) as int, j as int);
        }
        swap_entries(&mut v, i - 1, j);
        i = i - 1;
    }
    v
}

/// Swap mutation: each position, with probability `rate / PROB_SCALE`, trades
/// its city with a position drawn at random.
pub fn swap_mutate(order: &mut Vec<usize>, rate: u64, rng: &mut Rng)
    requires
        is_perm(old(order)@, old(order)@.len()),
    ensures
        final(order)@.len() == old(order)@.len(),
        is_perm(final(order)@, old(order)@.len()),
        (final(order)@, final(rng).state) == mutated_from(old(order)@, rate, old(rng).state, 0),
        rate == 0 ==> final(order)@ == old(order)@,
{
    let n = order.len();
    let mut i: usize = 0;
    while i < n
        invariant
            n == order@.len(),
            i <= n,
            is_perm(order@, n as nat),
            rate == 0 ==> order@ == old(order)@,
            mutated_from(order@, rate, rng.state, i as nat) == mutated_from(
                old(order)@,
                rate,
                old(rng).state,
                0,
            ),
        decreases n - i,
    {
        if rng.chance(rate) {
            let j = rng.below(n as u64) as usize;
            proof {
                lemma_swap_keeps_perm(order@, n as nat, i as int, j as int);
            }
            swap_entries(order, i, j);
        }
        i = i + 1;
    }
}

/// The entries of `b` that do not occur in `cut`, in the order of `b`.
pub open spec fn leftovers(b: Seq<usize>, cut: Seq<usize>) -> Seq<usize>
    decreases b.len(),
{
    if b.len() == 0 {
        b
    } else {
        let r = leftovers(b.drop_last(), cut);
        if cut.contains(b.last()) {
            r
        } else {
            r.push(b.last())
        }
    }
}

/// Order crossover: positions `start..end` come from `a` unchanged; the other
/// positions, left to right, take the cities of `b` missing from that slice, in
/// the order in which `b` visits them.
pub open spec fn ox_child(a: Seq<usize>, b: Seq<usize>, start: int, end: int) -> Seq<usize> {
    let cut = a.subrange(start, end);
    let rest = leftovers(b, cut);
    rest.subrange(0, start) + cut + rest.subrange(start, rest.len() as int)
}

/// The cities `0..n`.
pub open spec fn city_set(n: nat) -> Set<usize> {
    Set::new(|v: usize| v < n)
}

pub(crate) proof fn lemma_city_set_len(n: nat)
    requires
        n <= usize::MAX + 1,
    ensures
        city_set(n).finite(),
        city_set(n).len() == n,
    decreases n,
{
    if n == 0 {
        assert(city_set(n) =~= Set::empty());
    } else {
        lemma_city_set_len((n - 1) as nat);
        assert(city_set((n - 1) as nat).insert((n - 1) as usize) =~= city_set(n));
    }
}

/// A permutation holds every city.
pub proof fn lemma_perm_covers(s: Seq<usize>, n: nat)
    requires
        is_perm(s, n),
        n <= usize::MAX + 1,
    ensures
        s.to_set() == city_set(n),
{
    lemma_city_set_len(n);
    s.unique_seq_to_set();
    assert(s.to_set().subset_of(city_set(n)));
    lemma_subset_equality(s.to_set(), city_set(n));
}

proof fn lemma_leftovers_members(b: Seq<usize>, cut: Seq<usize>)
    requires
        b.no_duplicates(),
    ensures
        leftovers(b, cut).no_duplicates(),
        forall|x: usize| #[trigger]
            leftovers(b, cut).contains(x) <==> (b.contains(x) && !cut.contains(x)),
    decreases b.len(),
{
    if b.len() > 0 {
        let p = b.drop_last();
        assert(p.no_duplicates());
        lemma_leftovers_members(p, cut);
        assert forall|x: usize| b.contains(x) <==> (p.contains(x) || x == b.last()) by {
            if b.contains(x) && x != b.last() {
                let k = choose|k: int| 0 <= k < b.len() && b[k] == x;
                assert(p[k] == x);
            }
            if p.contains(x) {
                let k = choose|k: int| 0 <= k < p.len() && p[k] == x;
                assert(b[k] == x);
            }
        }
        let l = b.last();
        let r = leftovers(p, cut);
        if !cut.contains(l) {
            assert(!p.contains(l)) by {
                if p.contains(l) {
                    let k = choose|k: int| 0 <= k < p.len() && p[k] == l;
                    assert(b[k] == b[b.len() - 1]);
                }
            }
            assert forall|x: usize| r.push(l).contains(x) <==> (r.contains(x) || x == l) by {
                if r.push(l).contains(x) && x != l {
                    let k = choose|k: int| 0 <= k < r.len() + 1 && r.push(l)[k] == x;
                    assert(r[k] == x);
                }
                if r.contains(x) {
                    let k = choose|k: int| 0 <= k < r.len() && r[k] == x;
                    assert(r.push(l)[k] == x);
                }
                if x == l {
                    assert(r.push(l)[r.len() as int] == l);
                }
            }
            assert(r.push(l).no_duplicates()) by {
                assert forall|i: int, j: int| 0 <= i < r.len() + 1 && 0 <= j < r.len() + 1 && i != j
                    implies r.push(l)[i] != r.push(l)[j] by {
                    if i < r.len() {
                        assert(r.contains(r[i]));
                    }
                    if j < r.len() {
                        assert(r.contains(r[j]));
                    }
                }
            }
        }
        assert(leftovers(b, cut) == if cut.contains(l) { r } else { r.push(l) });
        assert forall|x: usize| #[trigger]
            leftovers(b, cut).contains(x) <==> (b.contains(x) && !cut.contains(x)) by {
            assert(r.contains(x) <==> (p.contains(x) && !cut.contains(x)));
        }
    }
}

pub proof fn lemma_subrange_no_dup(s: Seq<usize>, i: int, j: int)
    requires
        s.no_duplicates(),
        0 <= i <= j <= s.len(),
    ensures
        s.subrange(i, j).no_duplicates(),
{
    let t = s.subrange(i, j);
    assert forall|p: int, q: int| 0 <= p < t.len() && 0 <= q < t.len() && p != q implies t[p]
        != t[q] by {
        assert(t[p] == s[p + i]);
        assert(t[q] == s[q + i]);
    }
}

/// The leftovers number exactly the cities outside the slice, and the child of
/// two permutations is a permutation.
pub proof fn lemma_ox_child_perm(a: Seq<usize>, b: Seq<usize>, n: nat, start: int, end: int)
    requires
        is_perm(a, n),
        is_perm(b, n),
        0 <= start <= end <= n,
        n <= usize::MAX + 1,
    ensures
        leftovers(b, a.subrange(start, end)).len() == n - (end - start),
        is_perm(ox_child(a, b, start, end), n),
{
    let cut = a.subrange(start, end);
    let rest = leftovers(b, cut);
    lemma_leftovers_members(b, cut);
    lemma_subrange_no_dup(a, start, end);
    lemma_perm_covers(b, n);
    lemma_city_set_len(n);
    let all = city_set(n);
    assert(cut.to_set().subset_of(all));
    vstd::set_lib::lemma_len_subset(cut.to_set(), all);
    assert(rest.to_set() =~= all.difference(cut.to_set())) by {
        assert forall|x: usize| rest.to_set().contains(x) <==> all.difference(cut.to_set()).contains(x) by {
            assert(b.to_set().contains(x) <==> b.contains(x));
        }
    }
    lemma_set_difference_len(all, cut.to_set());
    assert(all.intersect(cut.to_set()) =~= cut.to_set());
    rest.unique_seq_to_set();
    cut.unique_seq_to_set();
    let child = ox_child(a, b, start, end);
    let x = rest.subrange(0, start);
    let z = rest.subrange(start, rest.len() as int);
    assert(child.len() == n);
    assert forall|i: int| 0 <= i < child.len() implies #[trigger] child[i] < n by {
        if start <= i < end {
            assert(child[i] == a[i]);
        } else {
            let k = if i < start { i } else { i - (end - start) };
            assert(child[i] == rest[k]);
            assert(rest.contains(rest[k]));
            assert(b.contains(rest[k]));
        }
    }
    assert forall|p: int, q: int| 0 <= p < child.len() && 0 <= q < child.len() && p != q implies child[p]
        != child[q] by {
        let in_p = start <= p < end;
        let in_q = start <= q < end;
        let kp = if p < start { p } else { p - (end - start) };
        let kq = if q < start { q } else { q - (end - start) };
        if in_p && in_q {
            assert(child[p] == a[p] && child[q] == a[q]);
        } else if in_p {
            assert(child[q] == rest[kq]);
            assert(rest.contains(rest[kq]));
            assert(child[p] == cut[p - start]);
        } else if in_q {
            assert(child[p] == rest[kp]);
            assert(rest.contains(rest[kp]));
            assert(child[q] == cut[q - start]);
        } else {
            assert(child[p] == rest[kp] && child[q] == rest[kq]);
        }
    }
}

/// The order crossover child of `a` and `b` over the slice `start..end` of `a`.
pub fn order_crossover(a: &Vec<usize>, b: &Vec<usize>, start: usize, end: usize) -> (r: Vec<usize>)
    requires
        is_perm(a@, a@.len()),
        is_perm(b@, a@.len()),
        start <= end <= a@.len(),
    ensures
        r@ == ox_child(a@, b@, start as int, end as int),
        is_perm(r@, a@.len()),
{
    let n = a.len();
    let ghost cut = a@.subrange(start as int, end as int);
    let mut used: Vec<bool> = Vec::with_capacity(n);
    let mut k: usize = 0;
    while k < n
        invariant
            k <= n,
            used@.len() == k,
            forall|v: int| 0 <= v < k ==> !used@[v],
        decreases n - k,
    {
        used.push(false);
        k = k + 1;
    }
    k = start;
    while k < end
        invariant
            n == a@.len(),
            start <= k <= end <= n,
            used@.len() == n,
            in_bounds(a@, n as nat),
            forall|v: usize| v < n ==> used@[v as int] == a@.subrange(start as int, k as int).contains(v),
        decreases end - k,
    {
        let c = a[k];
        used.set(c, true);
        proof {
            let s0 = a@.subrange(start as int, k as int);
            let s1 = a@.subrange(start as int, k + 1);
            assert(s1 =~= s0.push(c));
            assert forall|v: usize| s1.contains(v) <==> (s0.contains(v) || v == c) by {
                if s1.contains(v) && v != c {
                    let i = choose|i: int| 0 <= i < s1.len() && s1[i] == v;
                    assert(s0[i] == v);
                }
                if s0.contains(v) {
                    let i = choose|i: int| 0 <= i < s0.len() && s0[i] == v;
                    assert(s1[i] == v);
                }
                if v == c {
                    assert(s1[s1.len() - 1] == c);
                }
            }
        }
        k = k + 1;
    }
    let mut rest: Vec<usize> = Vec::with_capacity(n);
    k = 0;
    while k < n
        invariant
            n == a@.len(),
            n == b@.len(),
            k <= n,
            used@.len() == n,
            in_bounds(b@, n as nat),
            forall|v: usize| v < n ==> used@[v as int] == cut.contains(v),
            rest@ == leftovers(b@.subrange(0, k as int), cut),
        decreases n - k,
    {
        let c = b[k];
        assert(b@.subrange(0, k + 1).drop_last() =~= b@.subrange(0, k as int));
        if !used[c] {
            rest.push(c);
        }
        k = k + 1;
    }
    assert(b@.subrange(0, n as int) =~= b@);
    proof {
        lemma_ox_child_perm(a@, b@, n as nat, start as int, end as int);
    }
    let mut child: Vec<usize> = Vec::with_capacity(n);
    k = 0;
    while k < n
        invariant
            n == a@.len(),
            k <= n,
            rest@.len() == n - (end - start),
            start <= end <= n,
            is_perm(ox_child(a@, b@, start as int, end as int), n as nat),
            child@ =~= ox_child(a@, b@, start as int, end as int).subrange(0, k as int),
            rest@ == leftovers(b@, cut),
            cut == a@.subrange(start as int, end as int),
        decreases n - k,
    {
        if k < start {
            child.push(rest[k]);
        } else if k < end {
            child.push(a[k]);
        } else {
            child.push(rest[k - (end - start)]);
        }
        k = k + 1;
    }
    child
}

} // verus!
