//! Deterministic topological ordering (Kahn's algorithm with a smallest-key tie-break).
//!
//! Items are `0..n`; item `j` depends on the items listed in `deps[j]`. Among the items whose
//! dependencies are all placed, the one with the smallest `(keys[j], j)` is placed next.
use vstd::prelude::*;

verus! {

/// Item `a` comes before item `b` in the tie-break order `(keys[_], index)`.
pub open spec fn key_lt(keys: Seq<u32>, a: int, b: int) -> bool {
    keys[a] < keys[b] || (keys[a] == keys[b] && a < b)
}

/// Item `j` can be placed after the first `k` items of `o`: it is not placed yet and all of its
/// dependencies are.
pub open spec fn ready_after(deps: Seq<Seq<u32>>, o: Seq<u32>, k: int, j: int) -> bool {
    &&& 0 <= j < deps.len()
    &&& !o.take(k).contains(j as u32)
    &&& forall|t: int| 0 <= t < deps[j].len() ==> o.take(k).contains(#[trigger] deps[j][t])
}

/// `o` is the run of the greedy process: every item placed was ready, and no ready item has a
/// smaller key.
pub open spec fn greedy_run(keys: Seq<u32>, deps: Seq<Seq<u32>>, o: Seq<u32>) -> bool {
    forall|k: int| 0 <= k < o.len() ==> {
        &&& ready_after(deps, o, k, #[trigger] o[k] as int)
        &&& forall|j: int| ready_after(deps, o, k, j) ==> j == o[k] || key_lt(keys, o[k] as int, j)
    }
}

/// No item is ready after all of `o`.
pub open spec fn stalled(deps: Seq<Seq<u32>>, o: Seq<u32>) -> bool {
    forall|j: int| 0 <= j < deps.len() ==> !ready_after(deps, o, o.len() as int, j)
}

/// Number of entries of `s` equal to `x`.
pub open spec fn count_of(s: Seq<u32>, x: u32) -> nat
    decreases s.len(),
{
    if s.len() == 0 { 0 } else { count_of(s.drop_last(), x) + if s.last() == x { 1nat } else { 0nat } }
}

/// Number of entries of `s` not in `o`.
pub open spec fn pending_of(s: Seq<u32>, o: Seq<u32>) -> nat
    decreases s.len(),
{
    if s.len() == 0 { 0 } else { pending_of(s.drop_last(), o) + if o.contains(s.last()) { 0nat } else { 1nat } }
}

/// `c` copies of `x`.
pub open spec fn repeat_u32(c: nat, x: u32) -> Seq<u32> {
    Seq::new(c, |_i: int| x)
}

/// Items among the first `m` that depend on `d`, once per dependency entry.
pub open spec fn outs_prefix(deps: Seq<Seq<u32>>, m: int, d: u32) -> Seq<u32>
    decreases m,
{
    if m <= 0 || m > deps.len() {
        Seq::empty()
    } else {
        outs_prefix(deps, m - 1, d) + repeat_u32(count_of(deps[m - 1], d), (m - 1) as u32)
    }
}

proof fn lemma_count_concat(a: Seq<u32>, b: Seq<u32>, x: u32)
    ensures
        count_of(a + b, x) == count_of(a, x) + count_of(b, x),
    decreases b.len(),
{
    if b.len() == 0 {
        assert(a + b =~= a);
    } else {
        assert((a + b).drop_last() =~= a + b.drop_last());
        lemma_count_concat(a, b.drop_last(), x);
    }
}

proof fn lemma_count_repeat(c: nat, y: u32, x: u32)
    ensures
        count_of(repeat_u32(c, y), x) == if x == y { c } else { 0 },
    decreases c,
{
    if c > 0 {
        assert(repeat_u32(c, y).drop_last() =~= repeat_u32((c - 1) as nat, y));
        lemma_count_repeat((c - 1) as nat, y, x);
    }
}

proof fn lemma_outs_count(deps: Seq<Seq<u32>>, m: int, d: u32, j: u32)
    requires
        0 <= m <= deps.len(),
        deps.len() <= u32::MAX + 1,
    ensures
        count_of(outs_prefix(deps, m, d), j) == if (j as int) < m { count_of(deps[j as int], d) } else { 0 },
    decreases m,
{
    if m > 0 {
        lemma_outs_count(deps, m - 1, d, j);
        lemma_count_concat(outs_prefix(deps, m - 1, d), repeat_u32(count_of(deps[m - 1], d), (m - 1) as u32), j);
        lemma_count_repeat(count_of(deps[m - 1], d), (m - 1) as u32, j);
    }
}

proof fn lemma_pending_push(s: Seq<u32>, o: Seq<u32>, i: u32)
    requires
        !o.contains(i),
    ensures
        pending_of(s, o.push(i)) + count_of(s, i) == pending_of(s, o),
    decreases s.len(),
{
    if s.len() > 0 {
        lemma_pending_push(s.drop_last(), o, i);
        let x = s.last();
        if o.contains(x) {
            let k = choose|k: int| 0 <= k < o.len() && o[k] == x;
            assert(o.push(i)[k] == x);
        }
        if o.push(i).contains(x) && x != i {
            let k = choose|k: int| 0 <= k < o.push(i).len() && o.push(i)[k] == x;
            assert(o[k] == x);
        }
        assert(o.push(i)[o.len() as int] == i);
    }
}

proof fn lemma_pending_zero(s: Seq<u32>, o: Seq<u32>)
    ensures
        pending_of(s, o) == 0 <==> forall|t: int| 0 <= t < s.len() ==> o.contains(#[trigger] s[t]),
    decreases s.len(),
{
    if s.len() > 0 {
        lemma_pending_zero(s.drop_last(), o);
        if pending_of(s, o) == 0 {
            assert forall|t: int| 0 <= t < s.len() implies o.contains(#[trigger] s[t]) by {
                if t < s.len() - 1 {
                    assert(s.drop_last()[t] == s[t]);
                }
            }
        }
        if forall|t: int| 0 <= t < s.len() ==> o.contains(#[trigger] s[t]) {
            assert forall|t: int| 0 <= t < s.drop_last().len() implies o.contains(#[trigger] s.drop_last()[t]) by {
                assert(s.drop_last()[t] == s[t]);
            }
            assert(o.contains(s[s.len() - 1]));
        }
    }
}

/// Kahn state is consistent with the run `o`.
spec fn kahn_inv(deps: Seq<Seq<u32>>, o: Seq<u32>, indeg: Seq<usize>, ready: Seq<u32>) -> bool {
    let n = deps.len();
    &&& indeg.len() == n
    &&& forall|j: int| 0 <= j < n && !o.contains(j as u32) ==> #[trigger] indeg[j] == pending_of(deps[j], o)
    &&& ready_ok(n as int, o, indeg, ready)
    &&& ready.no_duplicates()
}

/// `ready` holds exactly the unplaced items below `n` with no pending dependency.
spec fn ready_ok(n: int, placed: Seq<u32>, indeg: Seq<usize>, ready: Seq<u32>) -> bool {
    forall|x: u32| #[trigger] ready.contains(x) <==> ((x as int) < n && !placed.contains(x) && indeg[x as int] == 0)
}

proof fn lemma_ready_ok_at(n: int, placed: Seq<u32>, indeg: Seq<usize>, ready: Seq<u32>, x: u32)
    requires
        ready_ok(n, placed, indeg, ready),
    ensures
        ready.contains(x) <==> ((x as int) < n && !placed.contains(x) && indeg[x as int] == 0),
{
}

/// Run the greedy process: the placed items, in order. All `n` items are placed exactly when
/// the dependency graph allows a complete order; otherwise the run stops where no item is ready.
pub fn topo_order(keys: &Vec<u32>, deps: &Vec<Vec<u32>>) -> (o: Vec<u32>)
    requires
        keys@.len() == deps@.len(),
        deps@.len() <= u32::MAX,
        forall|j: int, t: int| 0 <= j < deps@.len() && 0 <= t < deps@[j]@.len() ==> (#[trigger] deps@[j]@[t]) < deps@.len(),
    ensures
        greedy_run(keys@, Seq::new(deps@.len(), |j: int| deps@[j]@), o@),
        o@.len() == deps@.len() || stalled(Seq::new(deps@.len(), |j: int| deps@[j]@), o@),
        o@.len() <= deps@.len(),
        o@.no_duplicates(),
        forall|k: int| 0 <= k < o@.len() ==> o@[k] < deps@.len(),
{
    let ghost dv = Seq::new(deps@.len(), |j: int| deps@[j]@);
    let n = deps.len();
    let outs = build_outs(deps);
    let mut indeg: Vec<usize> = Vec::new();
    let mut i: usize = 0;
    while i < n
        invariant
            n == deps@.len(),
            i <= n,
            indeg@.len() == i,
            forall|d: int| 0 <= d < i ==> #[trigger] indeg@[d] == dv[d].len(),
            dv == Seq::new(deps@.len(), |j: int| deps@[j]@),
        decreases n - i,
    {
        indeg.push(deps[i].len());
        i = i + 1;
    }
    // Initially nothing is placed: each count is the full dependency count.
    let mut o: Vec<u32> = Vec::new();
    let mut ready: Vec<u32> = Vec::new();
    let mut j: usize = 0;
    proof {
        assert forall|x: int| 0 <= x < n implies #[trigger] indeg@[x] == pending_of(dv[x], o@) by {
            lemma_pending_empty(dv[x]);
        }
    }
    while j < n
        invariant
            n == deps@.len(),
            n <= u32::MAX,
            j <= n,
            indeg@.len() == n,
            o@ == Seq::<u32>::empty(),
            forall|x: int| 0 <= x < n ==> #[trigger] indeg@[x] == pending_of(dv[x], o@),
            forall|x: u32| ready@.contains(x) <==> ((x as int) < j && indeg@[x as int] == 0),
            ready@.no_duplicates(),
        decreases n - j,
    {
        let ghost r0 = ready@;
        if indeg[j] == 0 {
            ready.push(j as u32);
            proof {
                assert(ready@ == r0.push(j as u32));
                assert forall|x: u32| ready@.contains(x) <==> ((x as int) < j + 1 && indeg@[x as int] == 0) by {
                    lemma_push_contains(r0, j as u32, x);
                }
                assert(!r0.contains(j as u32));
                lemma_nodup_push(r0, j as u32);
            }
        }
        j = j + 1;
    }
    proof {
        assert forall|x: u32| #[trigger] ready@.contains(x) <==> ((x as int) < n && !o@.contains(x) && indeg@[x as int] == 0) by {
        }
        assert(kahn_inv(dv, o@, indeg@, ready@));
    }
    while ready.len() > 0
        invariant
            n == deps@.len(),
            n <= u32::MAX,
            keys@.len() == n,
            dv == Seq::new(deps@.len(), |j: int| deps@[j]@),
            outs@.len() == n,
            forall|d: int| 0 <= d < n ==> (#[trigger] outs@[d])@ == outs_prefix(dv, n as int, d as u32),
            kahn_inv(dv, o@, indeg@, ready@),
            greedy_run(keys@, dv, o@),
            o@.no_duplicates(),
            o@.len() <= n,
            forall|k: int| 0 <= k < o@.len() ==> o@[k] < n,
        decreases n - o@.len(),
    {
        let best = min_ready(keys, &ready, Ghost(dv), Ghost(o@), Ghost(indeg@));
        let ghost rr = ready@;
        let i = ready.remove(best);
        let ghost o0 = o@;
        proof {
            lemma_place_min(keys@, dv, o0, indeg@, rr, best as int);
        }
        o.push(i);
        proof {
            lemma_nodup_push(o0, i);
            lemma_nodup_len(o@, n as int);
            assert forall|k: int| 0 <= k < o@.len() implies o@[k] < n by {
                if k < o0.len() { assert(o@[k] == o0[k]); }
            }
        }
        proof {
            lemma_remove_contains(rr, best as int);
            assert forall|x: u32| #[trigger] ready@.contains(x) <==> ((x as int) < n && !o@.contains(x) && indeg@[x as int] == 0) by {
                lemma_ready_ok_at(n as int, o0, indeg@, rr, x);
                lemma_push_contains(o0, i, x);
            }
        }
        release(&outs, i, &mut indeg, &mut ready, Ghost(keys@), Ghost(dv), Ghost(o0));
    }
    proof {
        assert forall|x: int| 0 <= x < dv.len() implies !ready_after(dv, o@, o@.len() as int, x) by {
            assert(o@.take(o@.len() as int) =~= o@);
            if ready_after(dv, o@, o@.len() as int, x) {
                lemma_pending_zero(dv[x], o@);
                lemma_ready_ok_at(n as int, o@, indeg@, ready@, x as u32);
                assert(ready@.contains(x as u32));
            }
        }
    }
    o
}

proof fn lemma_count_take_step(s: Seq<u32>, t: int)
    requires
        0 <= t < s.len(),
    ensures
        forall|x: u32| count_of(#[trigger] s.take(t + 1), x) == count_of(s.take(t), x) + if s[t] == x { 1nat } else { 0nat },
{
    assert(s.take(t + 1).drop_last() =~= s.take(t));
}

proof fn lemma_count_take_le(s: Seq<u32>, t: int, x: u32)
    requires
        0 <= t <= s.len(),
    ensures
        count_of(s.take(t), x) <= count_of(s, x),
    decreases s.len() - t,
{
    if t < s.len() {
        lemma_count_take_le(s, t + 1, x);
        lemma_count_take_step(s, t);
    } else {
        assert(s.take(t) =~= s);
    }
}

proof fn lemma_count_pos_contains(s: Seq<u32>, x: u32)
    requires
        count_of(s, x) > 0,
    ensures
        s.contains(x),
    decreases s.len(),
{
    if s.last() == x {
        assert(s[s.len() - 1] == x);
    } else {
        lemma_count_pos_contains(s.drop_last(), x);
        let k = choose|k: int| 0 <= k < s.drop_last().len() && s.drop_last()[k] == x;
        assert(s[k] == x);
    }
}

/// A dependent of the item just placed was not placed before it, and is not that item.
proof fn lemma_dependent_unplaced(keys: Seq<u32>, dv: Seq<Seq<u32>>, o0: Seq<u32>, i: u32, j: u32)
    requires
        greedy_run(keys, dv, o0),
        !o0.contains(i),
        (j as int) < dv.len(),
        count_of(dv[j as int], i) > 0,
        pending_of(dv[i as int], o0) == 0,
    ensures
        !o0.contains(j),
        j != i,
{
    lemma_count_pos_contains(dv[j as int], i);
    if j == i {
        lemma_pending_zero(dv[i as int], o0);
        let t = choose|t: int| 0 <= t < dv[j as int].len() && dv[j as int][t] == i;
        assert(o0.contains(dv[i as int][t]));
    }
    if o0.contains(j) {
        let k = choose|k: int| 0 <= k < o0.len() && o0[k] == j;
        assert(ready_after(dv, o0, k, o0[k] as int));
        let t = choose|t: int| 0 <= t < dv[j as int].len() && dv[j as int][t] == i;
        assert(o0.take(k).contains(dv[j as int][t]));
        let u = choose|u: int| 0 <= u < o0.take(k).len() && o0.take(k)[u] == i;
        assert(o0[u] == i);
    }
}

proof fn lemma_greedy_push(keys: Seq<u32>, dv: Seq<Seq<u32>>, o0: Seq<u32>, i: u32)
    requires
        greedy_run(keys, dv, o0),
        ready_after(dv, o0, o0.len() as int, i as int),
        forall|x: int| ready_after(dv, o0, o0.len() as int, x) ==> x == i || key_lt(keys, i as int, x),
    ensures
        greedy_run(keys, dv, o0.push(i)),
{
    let on = o0.push(i);
    assert forall|k: int| 0 <= k < on.len() implies {
        &&& ready_after(dv, on, k, #[trigger] on[k] as int)
        &&& forall|j: int| ready_after(dv, on, k, j) ==> j == on[k] || key_lt(keys, on[k] as int, j)
    } by {
        assert(on.take(k) =~= o0.take(k)) by {
            if k == o0.len() {
                assert(o0.take(k) =~= o0);
            }
        }
        assert forall|j: int| ready_after(dv, on, k, j) == ready_after(dv, o0, k, j) by {}
        if k < o0.len() {
            assert(on[k] == o0[k]);
            assert(ready_after(dv, o0, k, o0[k] as int));
        } else {
            assert(on[k] == i);
        }
    }
}

proof fn lemma_remove_contains(s: Seq<u32>, k: int)
    requires
        s.no_duplicates(),
        0 <= k < s.len(),
    ensures
        s.remove(k).no_duplicates(),
        forall|x: u32| #[trigger] s.remove(k).contains(x) <==> (s.contains(x) && x != s[k]),
{
    let r = s.remove(k);
    assert forall|a: int, b: int| 0 <= a < b < r.len() implies r[a] != r[b] by {
        let a2 = if a < k { a } else { a + 1 };
        let b2 = if b < k { b } else { b + 1 };
        assert(r[a] == s[a2] && r[b] == s[b2]);
    }
    assert forall|x: u32| #[trigger] r.contains(x) <==> (s.contains(x) && x != s[k]) by {
        if r.contains(x) {
            let u = choose|u: int| 0 <= u < r.len() && r[u] == x;
            let u2 = if u < k { u } else { u + 1 };
            assert(s[u2] == x);
        }
        if s.contains(x) && x != s[k] {
            let u = choose|u: int| 0 <= u < s.len() && s[u] == x;
            if u < k { assert(r[u] == x); } else { assert(r[u - 1] == x); }
        }
    }
}

proof fn lemma_push_contains(s: Seq<u32>, v: u32, x: u32)
    ensures
        s.push(v).contains(x) <==> (s.contains(x) || x == v),
{
    if s.push(v).contains(x) && x != v {
        let k = choose|k: int| 0 <= k < s.push(v).len() && s.push(v)[k] == x;
        assert(s[k] == x);
    }
    if s.contains(x) {
        let k = choose|k: int| 0 <= k < s.len() && s[k] == x;
        assert(s.push(v)[k] == x);
    }
    assert(s.push(v)[s.len() as int] == v);
}

proof fn lemma_nodup_push(o0: Seq<u32>, i: u32)
    requires
        o0.no_duplicates(),
        !o0.contains(i),
    ensures
        o0.push(i).no_duplicates(),
{
    assert forall|a: int, b: int| 0 <= a < b < o0.push(i).len() implies o0.push(i)[a] != o0.push(i)[b] by {
        if b == o0.len() {
            assert(o0[a] == o0.push(i)[a]);
        }
    }
}

proof fn lemma_nodup_len(o: Seq<u32>, n: int)
    requires
        o.no_duplicates(),
        0 <= n,
        forall|k: int| 0 <= k < o.len() ==> (o[k] as int) < n,
    ensures
        o.len() <= n,
{
    let oi = o.map_values(|x: u32| x as int);
    assert(oi.no_duplicates()) by {
        assert forall|a: int, b: int| 0 <= a < b < oi.len() implies oi[a] != oi[b] by {
            assert(o[a] != o[b]);
        }
    }
    oi.unique_seq_to_set();
    vstd::set_lib::lemma_int_range(0, n);
    assert(oi.to_set().subset_of(vstd::set_lib::set_int_range(0, n))) by {
        assert forall|v: int| oi.to_set().contains(v) implies vstd::set_lib::set_int_range(0, n).contains(v) by {
            let k = choose|k: int| 0 <= k < oi.len() && oi[k] == v;
        }
    }
    vstd::set_lib::lemma_len_subset(oi.to_set(), vstd::set_lib::set_int_range(0, n));
}


/// Position in `ready` of the item with the smallest key.
fn min_ready(keys: &Vec<u32>, ready: &Vec<u32>, Ghost(dv): Ghost<Seq<Seq<u32>>>, Ghost(o): Ghost<Seq<u32>>, Ghost(indeg): Ghost<Seq<usize>>) -> (best: usize)
    requires
        ready@.len() > 0,
        keys@.len() == dv.len(),
        kahn_inv(dv, o, indeg, ready@),
    ensures
        best < ready@.len(),
        forall|t: int| 0 <= t < ready@.len() ==> ready@[best as int] == #[trigger] ready@[t] || key_lt(keys@, ready@[best as int] as int, ready@[t] as int),
{
    let n = keys.len();
    proof {
        assert forall|x: int| 0 <= x < ready@.len() implies ready@[x] < n by {
            assert(ready@.contains(ready@[x]));
        }
    }
    let nr = ready.len();
    let mut best: usize = 0;
    let mut s: usize = 1;
    while s < nr
        invariant
            nr == ready@.len(),
            0 < nr,
            best < s <= nr,
            n == keys@.len(),
            forall|x: int| 0 <= x < ready@.len() ==> ready@[x] < n,
            forall|t: int| 0 <= t < s ==> ready@[best as int] == #[trigger] ready@[t] || key_lt(keys@, ready@[best as int] as int, ready@[t] as int),
        decreases nr - s,
    {
        let a = ready[s];
        let b = ready[best];
        if keys[a as usize] < keys[b as usize] || (keys[a as usize] == keys[b as usize] && a < b) {
            best = s;
        }
        s = s + 1;
    }
    best
}

/// Placing the smallest ready item extends the greedy run.
proof fn lemma_place_min(keys: Seq<u32>, dv: Seq<Seq<u32>>, o0: Seq<u32>, indeg: Seq<usize>, rr: Seq<u32>, best: int)
    requires
        kahn_inv(dv, o0, indeg, rr),
        dv.len() <= u32::MAX,
        greedy_run(keys, dv, o0),
        0 <= best < rr.len(),
        forall|t: int| 0 <= t < rr.len() ==> rr[best] == #[trigger] rr[t] || key_lt(keys, rr[best] as int, rr[t] as int),
    ensures
        !o0.contains(rr[best]),
        (rr[best] as int) < dv.len(),
        pending_of(dv[rr[best] as int], o0) == 0,
        greedy_run(keys, dv, o0.push(rr[best])),
{
    let i = rr[best];
    assert(rr.contains(i));
    lemma_ready_ok_at(dv.len() as int, o0, indeg, rr, i);
    assert(o0.take(o0.len() as int) =~= o0);
    lemma_pending_zero(dv[i as int], o0);
    assert(ready_after(dv, o0, o0.len() as int, i as int));
    assert forall|x: int| ready_after(dv, o0, o0.len() as int, x) implies x == i || key_lt(keys, i as int, x) by {
        lemma_pending_zero(dv[x], o0);
        lemma_ready_ok_at(dv.len() as int, o0, indeg, rr, x as u32);
        assert(rr.contains(x as u32));
        let t = choose|t: int| 0 <= t < rr.len() && rr[t] == x as u32;
        assert(rr[best] == rr[t] || key_lt(keys, rr[best] as int, rr[t] as int));
    }
    lemma_greedy_push(keys, dv, o0, i);
}

/// Release the dependents of the item `i` just placed after `o0`.
fn release(outs: &Vec<Vec<u32>>, i: u32, indeg: &mut Vec<usize>, ready: &mut Vec<u32>,
    Ghost(keys): Ghost<Seq<u32>>, Ghost(dv): Ghost<Seq<Seq<u32>>>, Ghost(o0): Ghost<Seq<u32>>)
    requires
        dv.len() <= u32::MAX,
        outs@.len() == dv.len(),
        forall|d: int| 0 <= d < dv.len() ==> (#[trigger] outs@[d])@ == outs_prefix(dv, dv.len() as int, d as u32),
        (i as int) < dv.len(),
        !o0.contains(i),
        pending_of(dv[i as int], o0) == 0,
        greedy_run(keys, dv, o0),
        old(indeg)@.len() == dv.len(),
        forall|x: int| 0 <= x < dv.len() && !o0.contains(x as u32) && x != i ==> #[trigger] old(indeg)@[x] == pending_of(dv[x], o0),
        ready_ok(dv.len() as int, o0.push(i), old(indeg)@, old(ready)@),
        old(ready)@.no_duplicates(),
    ensures
        kahn_inv(dv, o0.push(i), final(indeg)@, final(ready)@),
{
    let ghost n = dv.len();
    let ghost on = o0.push(i);
    let iu = i as usize;
    let no = outs[iu].len();
    let ghost row = outs@[iu as int]@;
    let mut t: usize = 0;
    proof {
        assert forall|x: int| 0 <= x < n && !on.contains(x as u32) implies
            #[trigger] indeg@[x] + count_of(row.take(0), x as u32) == pending_of(dv[x], o0) by {
            assert(row.take(0) =~= Seq::<u32>::empty());
            lemma_push_contains(o0, i, x as u32);
        }
    }
    while t < no
        invariant
            n == dv.len(),
            n <= u32::MAX,
            iu == i as usize,
            (i as int) < n,
            outs@.len() == n,
            row == outs@[iu as int]@,
            row == outs_prefix(dv, n as int, i),
            no == row.len(),
            t <= no,
            on == o0.push(i),
            !o0.contains(i),
            greedy_run(keys, dv, o0),
            pending_of(dv[i as int], o0) == 0,
            indeg@.len() == n,
            forall|x: int| 0 <= x < n && !on.contains(x as u32) ==>
                #[trigger] indeg@[x] + count_of(row.take(t as int), x as u32) == pending_of(dv[x], o0),
            ready_ok(n as int, on, indeg@, ready@),
            ready@.no_duplicates(),
        decreases no - t,
    {
        let jv = outs[iu][t];
        let ju = jv as usize;
        let ghost ib = indeg@;
        let ghost rb = ready@;
        proof {
            lemma_outs_count(dv, n as int, i, jv);
            lemma_count_take_step(row, t as int);
            lemma_count_take_le(row, t as int + 1, jv);
            assert(jv < n) by {
                if jv >= n {
                    assert(count_of(row, jv) == 0);
                }
            }
            lemma_dependent_unplaced(keys, dv, o0, i, jv);
            lemma_pending_push(dv[ju as int], o0, i);
            lemma_push_contains(o0, i, jv);
            assert(!on.contains(jv));
            assert(ib[ju as int] >= 1);
            lemma_ready_ok_at(n as int, on, ib, rb, jv);
            assert(!rb.contains(jv));
        }
        indeg.set(ju, indeg[ju] - 1);
        if indeg[ju] == 0 {
            ready.push(jv);
            proof {
                lemma_nodup_push(rb, jv);
            }
        }
        proof {
            assert forall|x: u32| #[trigger] ready@.contains(x) <==> ((x as int) < n && !on.contains(x) && indeg@[x as int] == 0) by {
                lemma_push_contains(rb, jv, x);
                lemma_ready_ok_at(n as int, on, ib, rb, x);
                if x != jv && (x as int) < n {
                    assert(indeg@[x as int] == ib[x as int]);
                }
            }
            assert forall|x: int| 0 <= x < n && !on.contains(x as u32) implies
                #[trigger] indeg@[x] + count_of(row.take(t + 1), x as u32) == pending_of(dv[x], o0) by {
            }
        }
        t = t + 1;
    }
    proof {
        assert(row.take(no as int) =~= row);
        assert forall|x: int| 0 <= x < n && !on.contains(x as u32) implies #[trigger] indeg@[x] == pending_of(dv[x], on) by {
            lemma_outs_count(dv, n as int, i, x as u32);
            lemma_pending_push(dv[x], o0, i);
        }
    }
}


/// Dependents of each item: `outs[d]` lists every `j` once per entry `d` in `deps[j]`, in
/// increasing `j`.
pub fn build_outs(deps: &Vec<Vec<u32>>) -> (outs: Vec<Vec<u32>>)
    requires
        deps@.len() <= u32::MAX,
        forall|j: int, t: int| 0 <= j < deps@.len() && 0 <= t < deps@[j]@.len() ==> (#[trigger] deps@[j]@[t]) < deps@.len(),
    ensures
        outs@.len() == deps@.len(),
        forall|d: int| 0 <= d < deps@.len() ==> (#[trigger] outs@[d])@ == outs_prefix(Seq::new(deps@.len(), |j: int| deps@[j]@), deps@.len() as int, d as u32),
{
    let ghost dv = Seq::new(deps@.len(), |j: int| deps@[j]@);
    let n = deps.len();
    let mut outs: Vec<Vec<u32>> = Vec::new();
    let mut i: usize = 0;
    while i < n
        invariant
            n == deps@.len(),
            i <= n,
            outs@.len() == i,
            forall|d: int| 0 <= d < i ==> (#[trigger] outs@[d])@ == Seq::<u32>::empty(),
        decreases n - i,
    {
        outs.push(Vec::new());
        i = i + 1;
    }
    let mut m: usize = 0;
    while m < n
        invariant
            n == deps@.len(),
            n <= u32::MAX,
            dv == Seq::new(deps@.len(), |j: int| deps@[j]@),
            m <= n,
            outs@.len() == n,
            forall|d: int| 0 <= d < n ==> (#[trigger] outs@[d])@ == outs_prefix(dv, m as int, d as u32),
            forall|j: int, t: int| 0 <= j < deps@.len() && 0 <= t < deps@[j]@.len() ==> (#[trigger] deps@[j]@[t]) < deps@.len(),
        decreases n - m,
    {
        let ghost before = Seq::new(n as nat, |d: int| outs@[d]@);
        let nd = deps[m].len();
        let mut t: usize = 0;
        while t < nd
            invariant
                n == deps@.len(),
                n <= u32::MAX,
                dv == Seq::new(deps@.len(), |j: int| deps@[j]@),
                m < n,
                nd == dv[m as int].len(),
                t <= nd,
                outs@.len() == n,
                before.len() == n,
                forall|d: int| 0 <= d < n ==> before[d] == outs_prefix(dv, m as int, d as u32),
                forall|d: int| 0 <= d < n ==> (#[trigger] outs@[d])@ == before[d] + repeat_u32(count_of(dv[m as int].take(t as int), d as u32), m as u32),
                forall|j: int, t2: int| 0 <= j < deps@.len() && 0 <= t2 < deps@[j]@.len() ==> (#[trigger] deps@[j]@[t2]) < deps@.len(),
            decreases nd - t,
        {
            let di = deps[m][t] as usize;
            assert(dv[m as int][t as int] == deps@[m as int]@[t as int]);
            let ghost prev = outs@;
            outs[di].push(m as u32);
            proof {
                assert(dv[m as int].take(t + 1).drop_last() =~= dv[m as int].take(t as int));
                assert forall|d: int| 0 <= d < n implies (#[trigger] outs@[d])@ == before[d] + repeat_u32(count_of(dv[m as int].take(t + 1), d as u32), m as u32) by {
                    if d == di {
                        assert(outs@[d]@ =~= before[d] + repeat_u32(count_of(dv[m as int].take(t + 1), d as u32), m as u32));
                    } else {
                        assert(outs@[d] == prev[d]);
                    }
                }
            }
            t = t + 1;
        }
        proof {
            assert(dv[m as int].take(nd as int) =~= dv[m as int]);
            assert forall|d: int| 0 <= d < n implies (#[trigger] outs@[d])@ == outs_prefix(dv, m + 1, d as u32) by {
            }
        }
        m = m + 1;
    }
    outs
}

proof fn lemma_pending_empty(s: Seq<u32>)
    ensures
        pending_of(s, Seq::empty()) == s.len(),
    decreases s.len(),
{
    if s.len() > 0 {
        lemma_pending_empty(s.drop_last());
    }
}


/// Item `b` depends on item `a` (an edge `a -> b`).
pub open spec fn edge(dv: Seq<Seq<u32>>, a: u32, b: u32) -> bool {
    (b as int) < dv.len() && dv[b as int].contains(a)
}

/// `c` is a dependency cycle: at least one edge, ends where it starts, each step an edge.
pub open spec fn is_cycle(dv: Seq<Seq<u32>>, c: Seq<u32>) -> bool {
    &&& c.len() >= 2
    &&& c[0] == c[c.len() - 1]
    &&& forall|k: int| 0 <= k < c.len() - 1 ==> edge(dv, #[trigger] c[k], c[k + 1])
}

/// Number of unvisited (`0`) marks.
pub open spec fn unvisited(st: Seq<u8>) -> nat
    decreases st.len(),
{
    if st.len() == 0 { 0 } else { unvisited(st.drop_last()) + if st.last() == 0 { 1nat } else { 0nat } }
}

proof fn lemma_unvisited_update(st: Seq<u8>, v: int, x: u8)
    requires
        0 <= v < st.len(),
    ensures
        unvisited(st.update(v, x)) + (if st[v] == 0 { 1nat } else { 0nat }) == unvisited(st) + (if x == 0 { 1nat } else { 0nat }),
    decreases st.len(),
{
    if v < st.len() - 1 {
        assert(st.update(v, x).drop_last() =~= st.drop_last().update(v, x));
        lemma_unvisited_update(st.drop_last(), v, x);
    } else {
        assert(st.update(v, x).drop_last() =~= st.drop_last());
    }
}

/// DFS stack: a path of edges whose nodes are exactly the ones marked `1`.
spec fn stack_ok(dv: Seq<Seq<u32>>, st: Seq<u8>, stack: Seq<u32>) -> bool {
    &&& st.len() == dv.len()
    &&& forall|k: int| 0 <= k < stack.len() ==> (#[trigger] stack[k] as int) < dv.len()
    &&& forall|k: int| 0 <= k < stack.len() - 1 ==> edge(dv, #[trigger] stack[k], stack[k + 1])
    &&& forall|x: u32| (x as int) < dv.len() ==> (st[x as int] == 1 <==> #[trigger] stack.contains(x))
}

proof fn lemma_outs_elem(deps: Seq<Seq<u32>>, m: int, d: u32, t: int)
    requires
        0 <= m <= deps.len(),
        deps.len() <= u32::MAX + 1,
        0 <= t < outs_prefix(deps, m, d).len(),
    ensures
        (outs_prefix(deps, m, d)[t] as int) < m,
        count_of(deps[outs_prefix(deps, m, d)[t] as int], d) > 0,
    decreases m,
{
    let prev = outs_prefix(deps, m - 1, d);
    if t < prev.len() {
        lemma_outs_elem(deps, m - 1, d, t);
    }
}

proof fn lemma_count_pos_contains2(s: Seq<u32>, x: u32)
    requires
        count_of(s, x) > 0,
    ensures
        s.contains(x),
    decreases s.len(),
{
    if s.last() == x {
        assert(s[s.len() - 1] == x);
    } else {
        lemma_count_pos_contains2(s.drop_last(), x);
        let k = choose|k: int| 0 <= k < s.drop_last().len() && s.drop_last()[k] == x;
        assert(s[k] == x);
    }
}

/// No dependency cycle exists.
pub open spec fn acyclic(dv: Seq<Seq<u32>>) -> bool {
    forall|c: Seq<u32>| !is_cycle(dv, c)
}

/// Items the search has finished, in finishing order: exactly those marked `2`, each once,
/// each finished after every item that depends on it.
spec fn fin_ok(dv: Seq<Seq<u32>>, st: Seq<u8>, done: Seq<u32>) -> bool {
    &&& st.len() == dv.len()
    &&& forall|x: int| 0 <= x < st.len() ==> #[trigger] st[x] <= 2
    &&& forall|x: u32| (x as int) < dv.len() ==> (st[x as int] == 2 <==> #[trigger] done.contains(x))
    &&& forall|k: int| 0 <= k < done.len() ==> (#[trigger] done[k] as int) < dv.len()
    &&& done.no_duplicates()
    &&& forall|k: int, y: u32| 0 <= k < done.len() && #[trigger] edge(dv, done[k], y) ==> done.subrange(0, k).contains(y)
}

proof fn lemma_contains_count_pos(s: Seq<u32>, x: u32)
    requires
        s.contains(x),
    ensures
        count_of(s, x) > 0,
    decreases s.len(),
{
    if s.last() != x {
        let k = choose|k: int| 0 <= k < s.len() && s[k] == x;
        assert(s.drop_last()[k] == x);
        lemma_contains_count_pos(s.drop_last(), x);
    }
}

/// Index of `x` in a sequence without duplicates that holds it.
proof fn lemma_index_unique(s: Seq<u32>, x: u32, k: int)
    requires
        s.no_duplicates(),
        0 <= k < s.len(),
        s[k] == x,
    ensures
        s.index_of(x) == k,
{
    assert(s.contains(x));
    let j = s.index_of(x);
    assert(0 <= j < s.len() && s[j] == x);
}

/// When every item is finished, each after its dependents, no cycle exists.
proof fn lemma_finished_acyclic(dv: Seq<Seq<u32>>, done: Seq<u32>)
    requires
        done.no_duplicates(),
        forall|x: u32| (x as int) < dv.len() ==> #[trigger] done.contains(x),
        forall|k: int, y: u32| 0 <= k < done.len() && #[trigger] edge(dv, done[k], y) ==> done.subrange(0, k).contains(y),
    ensures
        acyclic(dv),
{
    assert forall|c: Seq<u32>| !is_cycle(dv, c) by {
        if is_cycle(dv, c) {
            let m = c.len() - 1;
            assert(edge(dv, c[m - 1], c[m]));
            assert forall|k: int| 0 <= k <= m implies (#[trigger] c[k] as int) < dv.len() by {
                if k == 0 {
                    assert(edge(dv, c[m - 1], c[m]));
                } else {
                    assert(edge(dv, c[k - 1], c[k]));
                }
            }
            assert forall|k: int| 0 <= k < m implies #[trigger] done.index_of(c[k + 1]) < done.index_of(c[k]) by {
                assert((c[k] as int) < dv.len());
                assert(done.contains(c[k]));
                let i = done.index_of(c[k]);
                assert(done[i] == c[k]);
                assert(edge(dv, c[k], c[k + 1]));
                assert(edge(dv, done[i], c[k + 1]));
                assert(done.subrange(0, i).contains(c[k + 1]));
                let j = choose|j: int| 0 <= j < i && done.subrange(0, i)[j] == c[k + 1];
                assert(done[j] == c[k + 1]);
                lemma_index_unique(done, c[k + 1], j);
            }
            lemma_chain_descends(done, c, m);
        }
    }
}

proof fn lemma_chain_descends(done: Seq<u32>, c: Seq<u32>, k: int)
    requires
        1 <= k < c.len(),
        forall|j: int| 0 <= j < c.len() - 1 ==> #[trigger] done.index_of(c[j + 1]) < done.index_of(c[j]),
    ensures
        done.index_of(c[k]) < done.index_of(c[0]),
    decreases k,
{
    let j = k - 1;
    assert(done.index_of(c[j + 1]) < done.index_of(c[j]));
    assert(j + 1 == k);
    if k > 1 {
        lemma_chain_descends(done, c, k - 1);
    }
}

fn dfs(v: u32, outs: &Vec<Vec<u32>>, st: &mut Vec<u8>, stack: &mut Vec<u32>, Ghost(dv): Ghost<Seq<Seq<u32>>>,
    Ghost(done): Ghost<Seq<u32>>) -> (r: (Option<Vec<u32>>, Ghost<Seq<u32>>))
    requires
        dv.len() <= u32::MAX,
        outs@.len() == dv.len(),
        forall|d: int| 0 <= d < dv.len() ==> (#[trigger] outs@[d])@ == outs_prefix(dv, dv.len() as int, d as u32),
        (v as int) < dv.len(),
        old(st)@[v as int] == 0,
        stack_ok(dv, old(st)@, old(stack)@),
        fin_ok(dv, old(st)@, done),
        old(stack)@.len() > 0 ==> edge(dv, old(stack)@.last(), v),
    ensures
        final(st)@.len() == dv.len(),
        unvisited(final(st)@) < unvisited(old(st)@),
        r.0 matches Some(c) ==> is_cycle(dv, c@),
        r.0 is None ==> final(stack)@ == old(stack)@ && stack_ok(dv, final(st)@, final(stack)@)
            && fin_ok(dv, final(st)@, r.1@) && final(st)@[v as int] == 2
            && r.1@.len() >= done.len() && r.1@.subrange(0, done.len() as int) == done,
    decreases unvisited(old(st)@),
{
    let ghost mut dn = done;
    let ghost n = dv.len();
    let ghost s0 = st@;
    let ghost k0 = stack@;
    proof { lemma_unvisited_update(st@, v as int, 1); }
    st.set(v as usize, 1);
    stack.push(v);
    proof {
        assert forall|x: u32| (x as int) < n implies (st@[x as int] == 1 <==> #[trigger] stack@.contains(x)) by {
            lemma_push_contains(k0, v, x);
        }
        assert forall|k: int| 0 <= k < stack@.len() - 1 implies edge(dv, #[trigger] stack@[k], stack@[k + 1]) by {
            if k < k0.len() - 1 { assert(stack@[k] == k0[k] && stack@[k + 1] == k0[k + 1]); }
            else { assert(stack@[k] == k0.last()); }
        }
    }
    proof {
        assert forall|x: u32| (x as int) < n implies (st@[x as int] == 2 <==> #[trigger] dn.contains(x)) by {
            if x == v {
                assert(s0[v as int] == 0);
            } else {
                assert(st@[x as int] == s0[x as int]);
            }
        }
        assert forall|x: int| 0 <= x < st@.len() implies #[trigger] st@[x] <= 2 by {
            if x != v { assert(st@[x] == s0[x]); }
        }
    }
    let row = &outs[v as usize];
    let nr = row.len();
    proof {
        assert forall|q: int| 0 <= q < nr implies (#[trigger] row@[q] as int) < n by {
            lemma_outs_elem(dv, n as int, v, q);
        }
    }
    let mut t: usize = 0;
    while t < nr
        invariant
            n == dv.len(),
            n <= u32::MAX,
            outs@.len() == n,
            forall|d: int| 0 <= d < n ==> (#[trigger] outs@[d])@ == outs_prefix(dv, n as int, d as u32),
            (v as int) < n,
            row@ == outs@[v as int]@,
            nr == row@.len(),
            t <= nr,
            stack@ == k0.push(v),
            stack_ok(dv, st@, stack@),
            st@[v as int] == 1,
            s0 == old(st)@,
            unvisited(st@) < unvisited(s0),
            fin_ok(dv, st@, dn),
            dn.len() >= done.len(),
            dn.subrange(0, done.len() as int) == done,
            forall|q: int| 0 <= q < t ==> st@[#[trigger] row@[q] as int] == 2,
            forall|q: int| 0 <= q < nr ==> (#[trigger] row@[q] as int) < n,
        decreases nr - t,
    {
        let to = row[t];
        proof {
            lemma_outs_elem(dv, n as int, v, t as int);
            lemma_count_pos_contains2(dv[to as int], v);
        }
        assert(edge(dv, v, to));
        if st[to as usize] == 0 {
            let ghost sb = st@;
            let ghost db = dn;
            let (res, Ghost(d2)) = dfs(to, outs, st, stack, Ghost(dv), Ghost(dn));
            match res {
                Some(c) => {
                    return (Some(c), Ghost(d2));
                },
                None => {
                    assert(stack@[stack@.len() - 1] == v);
                    assert(stack@.contains(v));
                    proof {
                        assert(d2.subrange(0, done.len() as int) =~= db.subrange(0, done.len() as int)) by {
                            assert forall|q: int| 0 <= q < done.len() implies d2[q] == db[q] by {
                                assert(d2.subrange(0, db.len() as int)[q] == d2[q]);
                            }
                        }
                        assert forall|q: int| 0 <= q < t + 1 implies st@[#[trigger] row@[q] as int] == 2 by {
                            if q < t {
                                assert(sb[row@[q] as int] == 2);
                                let x = row@[q];
                                assert(db.contains(x));
                                let w = choose|w: int| 0 <= w < db.len() && db[w] == x;
                                assert(d2.subrange(0, db.len() as int)[w] == x);
                                assert(d2[w] == x);
                                assert(d2.contains(x));
                            }
                        }
                        dn = d2;
                    }
                },
            }
        } else if st[to as usize] == 1 {
            assert(stack@.contains(to));
            let ns = stack.len();
            let mut pos: usize = 0;
            while pos < ns && stack[pos] != to
                invariant
                    ns == stack@.len(),
                    pos <= ns,
                    stack@.contains(to),
                    forall|q: int| 0 <= q < pos ==> stack@[q] != to,
                decreases ns - pos,
            {
                pos = pos + 1;
            }
            proof {
                if pos == ns {
                    let q = choose|q: int| 0 <= q < stack@.len() && stack@[q] == to;
                    assert(stack@[q] != to);
                }
            }
            let mut c: Vec<u32> = Vec::new();
            let mut q: usize = pos;
            while q < ns
                invariant
                    ns == stack@.len(),
                    pos < ns,
                    pos <= q <= ns,
                    c@ == stack@.subrange(pos as int, q as int),
                decreases ns - q,
            {
                c.push(stack[q]);
                assert(c@ =~= stack@.subrange(pos as int, q + 1));
                q = q + 1;
            }
            c.push(to);
            proof {
                let sp = stack@;
                assert(c@.len() >= 2);
                assert(c@[0] == to);
                assert forall|k: int| 0 <= k < c@.len() - 1 implies edge(dv, #[trigger] c@[k], c@[k + 1]) by {
                    if k < c@.len() - 2 {
                        assert(c@[k] == sp[pos + k] && c@[k + 1] == sp[pos + k + 1]);
                    } else {
                        assert(c@[k] == sp[ns - 1]);
                        assert(sp[ns - 1] == v);
                    }
                }
            }
            return (Some(c), Ghost(dn));
        }
        t = t + 1;
    }
    let ghost s2 = st@;
    stack.pop();
    proof { lemma_unvisited_update(st@, v as int, 2); }
    st.set(v as usize, 2);
    proof {
        assert(stack@ =~= k0);
        assert forall|x: u32| (x as int) < n implies (st@[x as int] == 1 <==> #[trigger] stack@.contains(x)) by {
            lemma_push_contains(k0, v, x);
            if x == v {
                if k0.contains(v) {
                    assert(s0[v as int] == 1);
                }
            }
        }
        let d3 = dn.push(v);
        assert(!dn.contains(v));
        lemma_nodup_push(dn, v);
        assert forall|x: u32| (x as int) < n implies (st@[x as int] == 2 <==> #[trigger] d3.contains(x)) by {
            lemma_push_contains(dn, v, x);
        }
        assert forall|x: int| 0 <= x < st@.len() implies #[trigger] st@[x] <= 2 by {
            if x != v { assert(st@[x] == s2[x]); }
        }
        assert forall|k: int, y: u32| 0 <= k < d3.len() && #[trigger] edge(dv, d3[k], y) implies d3.subrange(0, k).contains(y) by {
            if k < dn.len() {
                assert(d3[k] == dn[k]);
                assert(dn.subrange(0, k).contains(y));
                assert(d3.subrange(0, k) =~= dn.subrange(0, k));
            } else {
                assert(d3[k] == v);
                lemma_contains_count_pos(dv[y as int], v);
                lemma_outs_count(dv, n as int, v, y);
                lemma_count_pos_contains2(row@, y);
                let q = choose|q: int| 0 <= q < row@.len() && row@[q] == y;
                assert(st@[row@[q] as int] == 2);
                assert(d3.subrange(0, k) =~= dn);
            }
        }
        assert forall|k: int| 0 <= k < d3.len() implies (#[trigger] d3[k] as int) < dv.len() by {
            if k < dn.len() { assert(d3[k] == dn[k]); }
        }
        assert(d3.subrange(0, done.len() as int) =~= dn.subrange(0, done.len() as int));
        dn = d3;
    }
    (None, Ghost(dn))
}

/// A dependency cycle among the items, found by depth-first search from the lowest unvisited
/// item along dependents lists; empty when the search finds none.
pub fn find_cycle(deps: &Vec<Vec<u32>>) -> (c: Vec<u32>)
    requires
        deps@.len() <= u32::MAX,
        forall|j: int, t: int| 0 <= j < deps@.len() && 0 <= t < deps@[j]@.len() ==> (#[trigger] deps@[j]@[t]) < deps@.len(),
    ensures
        c@.len() == 0 || is_cycle(Seq::new(deps@.len(), |j: int| deps@[j]@), c@),
        c@.len() == 0 <==> acyclic(Seq::new(deps@.len(), |j: int| deps@[j]@)),
{
    let ghost dv = Seq::new(deps@.len(), |j: int| deps@[j]@);
    let outs = build_outs(deps);
    let n = deps.len();
    let mut st: Vec<u8> = Vec::new();
    let mut i: usize = 0;
    while i < n
        invariant
            i <= n,
            st@.len() == i,
            forall|k: int| 0 <= k < i ==> st@[k] == 0,
        decreases n - i,
    {
        st.push(0);
        i = i + 1;
    }
    let mut stack: Vec<u32> = Vec::new();
    let ghost mut done: Seq<u32> = Seq::empty();
    i = 0;
    while i < n
        invariant
            n == dv.len(),
            n == deps@.len(),
            dv == Seq::new(deps@.len(), |j: int| deps@[j]@),
            n <= u32::MAX,
            i <= n,
            outs@.len() == n,
            forall|d: int| 0 <= d < n ==> (#[trigger] outs@[d])@ == outs_prefix(dv, n as int, d as u32),
            stack@ == Seq::<u32>::empty(),
            stack_ok(dv, st@, stack@),
            fin_ok(dv, st@, done),
            forall|k: int| 0 <= k < i ==> st@[k] == 2,
        decreases n - i,
    {
        if st[i] == 0 {
            let ghost sb = st@;
            let ghost db = done;
            let (res, Ghost(d2)) = dfs(i as u32, &outs, &mut st, &mut stack, Ghost(dv), Ghost(done));
            match res {
                Some(c) => {
                    proof {
                        assert(!acyclic(dv)) by {
                            assert(is_cycle(dv, c@));
                        }
                    }
                    return c;
                },
                None => {
                    proof {
                        assert forall|k: int| 0 <= k < i implies st@[k] == 2 by {
                            let x = k as u32;
                            assert(db.contains(x));
                            let w = choose|w: int| 0 <= w < db.len() && db[w] == x;
                            assert(d2.subrange(0, db.len() as int)[w] == x);
                            assert(d2.contains(x));
                        }
                        done = d2;
                    }
                },
            }
        } else {
            proof {
                if st@[i as int] == 1 {
                    assert(stack@.contains(i as u32));
                }
            }
        }
        i = i + 1;
    }
    proof {
        assert forall|x: u32| (x as int) < dv.len() implies #[trigger] done.contains(x) by {
            assert(st@[x as int] == 2);
        }
        lemma_finished_acyclic(dv, done);
    }
    Vec::new()
}


/// Determinism: the greedy run of a given length is unique.
pub proof fn law_greedy_run_unique(keys: Seq<u32>, dv: Seq<Seq<u32>>, o1: Seq<u32>, o2: Seq<u32>)
    requires
        greedy_run(keys, dv, o1),
        greedy_run(keys, dv, o2),
        o1.len() == o2.len(),
    ensures
        o1 == o2,
{
    assert forall|k: int| 0 <= k <= o1.len() implies #[trigger] o1.take(k) == o2.take(k) by {
        lemma_greedy_prefix_eq(keys, dv, o1, o2, k);
    }
    assert(o1.take(o1.len() as int) =~= o1);
    assert(o2.take(o2.len() as int) =~= o2);
}

proof fn lemma_greedy_prefix_eq(keys: Seq<u32>, dv: Seq<Seq<u32>>, o1: Seq<u32>, o2: Seq<u32>, k: int)
    requires
        greedy_run(keys, dv, o1),
        greedy_run(keys, dv, o2),
        o1.len() == o2.len(),
        0 <= k <= o1.len(),
    ensures
        o1.take(k) == o2.take(k),
    decreases k,
{
    if k > 0 {
        lemma_greedy_prefix_eq(keys, dv, o1, o2, k - 1);
        let p = k - 1;
        assert forall|x: int| ready_after(dv, o1, p, x) == ready_after(dv, o2, p, x) by {}
        assert(ready_after(dv, o1, p, o1[p] as int));
        assert(ready_after(dv, o2, p, o2[p] as int));
        assert(o1[p] == o2[p]);
        assert(o1.take(k) =~= o1.take(p).push(o1[p]));
        assert(o2.take(k) =~= o2.take(p).push(o2[p]));
    } else {
        assert(o1.take(0) =~= o2.take(0));
    }
}

/// A greedy run is a topological order: every dependency of a placed item was placed earlier.
pub proof fn law_greedy_run_topological(keys: Seq<u32>, dv: Seq<Seq<u32>>, o: Seq<u32>, k: int, t: int)
    requires
        greedy_run(keys, dv, o),
        0 <= k < o.len(),
        0 <= t < dv[o[k] as int].len(),
    ensures
        exists|u: int| 0 <= u < k && o[u] == dv[o[k] as int][t],
{
    assert(ready_after(dv, o, k, o[k] as int));
    assert(o.take(k).contains(dv[o[k] as int][t]));
    let u = choose|u: int| 0 <= u < o.take(k).len() && o.take(k)[u] == dv[o[k] as int][t];
    assert(o[u] == dv[o[k] as int][t]);
}

/// A complete greedy run places every item exactly once.
pub proof fn law_complete_run_is_permutation(keys: Seq<u32>, dv: Seq<Seq<u32>>, o: Seq<u32>, j: int)
    requires
        greedy_run(keys, dv, o),
        o.len() == dv.len(),
        0 <= j < dv.len(),
    ensures
        o.contains(j as u32),
        o.no_duplicates(),
{
    assert(o.no_duplicates()) by {
        assert forall|a: int, b: int| 0 <= a < b < o.len() implies o[a] != o[b] by {
            assert(ready_after(dv, o, b, o[b] as int));
            assert(o.take(b)[a] == o[a]);
        }
    }
    if !o.contains(j as u32) {
        let oi = o.map_values(|x: u32| x as int);
        assert(oi.no_duplicates()) by {
            assert forall|a: int, b: int| 0 <= a < b < oi.len() implies oi[a] != oi[b] by {
                assert(o[a] != o[b]);
            }
        }
        oi.unique_seq_to_set();
        let range = vstd::set_lib::set_int_range(0, dv.len() as int).remove(j);
        vstd::set_lib::lemma_int_range(0, dv.len() as int);
        assert(oi.to_set().subset_of(range)) by {
            assert forall|v: int| oi.to_set().contains(v) implies range.contains(v) by {
                let k = choose|k: int| 0 <= k < oi.len() && oi[k] == v;
                assert(ready_after(dv, o, k, o[k] as int));
                if v == j {
                    assert(o[k] == j as u32);
                }
            }
        }
        vstd::set_lib::lemma_len_subset(oi.to_set(), range);
    }
}


/// Every dependency names an item.
pub open spec fn deps_in_range(dv: Seq<Seq<u32>>) -> bool {
    forall|j: int, t: int| 0 <= j < dv.len() && 0 <= t < dv[j].len() ==> (#[trigger] dv[j][t] as int) < dv.len()
}

/// Item `x` is placed in `o`.
spec fn placed(o: Seq<u32>, x: int) -> bool {
    o.contains(x as u32)
}

/// An unplaced dependency of an unplaced item.
spec fn blocker(dv: Seq<Seq<u32>>, o: Seq<u32>, x: u32) -> u32 {
    choose|y: u32| dv[x as int].contains(y) && !o.contains(y)
}

/// The walk from `x` through unplaced dependencies, `k` steps long.
spec fn blocked_walk(dv: Seq<Seq<u32>>, o: Seq<u32>, x: u32, k: nat) -> u32
    decreases k,
{
    if k == 0 { x } else { blocker(dv, o, blocked_walk(dv, o, x, (k - 1) as nat)) }
}

proof fn lemma_blocker(dv: Seq<Seq<u32>>, o: Seq<u32>, x: u32)
    requires
        deps_in_range(dv),
        stalled(dv, o),
        (x as int) < dv.len(),
        !o.contains(x),
    ensures
        (blocker(dv, o, x) as int) < dv.len(),
        !o.contains(blocker(dv, o, x)),
        edge(dv, blocker(dv, o, x), x),
{
    assert(o.take(o.len() as int) =~= o);
    assert(!ready_after(dv, o, o.len() as int, x as int));
    let t = choose|t: int| 0 <= t < dv[x as int].len() && !o.take(o.len() as int).contains(#[trigger] dv[x as int][t]);
    assert(dv[x as int].contains(dv[x as int][t]) && !o.contains(dv[x as int][t]));
    let y = blocker(dv, o, x);
    let u = choose|u: int| 0 <= u < dv[x as int].len() && dv[x as int][u] == y;
    assert(dv[x as int][u] == y);
}

proof fn lemma_blocked_walk(dv: Seq<Seq<u32>>, o: Seq<u32>, x: u32, k: nat)
    requires
        deps_in_range(dv),
        stalled(dv, o),
        (x as int) < dv.len(),
        !o.contains(x),
    ensures
        (blocked_walk(dv, o, x, k) as int) < dv.len(),
        !o.contains(blocked_walk(dv, o, x, k)),
        k > 0 ==> edge(dv, blocked_walk(dv, o, x, k), blocked_walk(dv, o, x, (k - 1) as nat)),
    decreases k,
{
    if k > 0 {
        lemma_blocked_walk(dv, o, x, (k - 1) as nat);
        lemma_blocker(dv, o, blocked_walk(dv, o, x, (k - 1) as nat));
    }
}

/// When the greedy run stalls before placing every item, the dependencies have a cycle:
/// every item left waits on another item left, and following those waits must come back.
pub proof fn law_stalled_run_has_cycle(dv: Seq<Seq<u32>>, o: Seq<u32>)
    requires
        deps_in_range(dv),
        dv.len() <= u32::MAX,
        o.no_duplicates(),
        o.len() < dv.len(),
        forall|k: int| 0 <= k < o.len() ==> (#[trigger] o[k] as int) < dv.len(),
        stalled(dv, o),
    ensures
        !acyclic(dv),
{
    let n = dv.len() as int;
    let range = vstd::set_lib::set_int_range(0, n);
    vstd::set_lib::lemma_int_range(0, n);
    // Some item is not placed.
    let oi = o.map_values(|x: u32| x as int);
    assert(oi.no_duplicates()) by {
        assert forall|a: int, b: int| 0 <= a < b < oi.len() implies oi[a] != oi[b] by {
            assert(o[a] != o[b]);
        }
    }
    oi.unique_seq_to_set();
    vstd::seq_lib::seq_to_set_is_finite(oi);
    if forall|x: int| 0 <= x < n ==> #[trigger] placed(o, x) {
        assert(range.subset_of(oi.to_set())) by {
            assert forall|v: int| range.contains(v) implies oi.to_set().contains(v) by {
                assert(placed(o, v));
                let k = choose|k: int| 0 <= k < o.len() && o[k] == v as u32;
                assert(oi[k] == v);
            }
        }
        vstd::set_lib::lemma_len_subset(range, oi.to_set());
        assert(false);
    }
    let x0 = choose|x: int| 0 <= x < n && !#[trigger] placed(o, x);
    let x = x0 as u32;
    // A walk of n + 1 items among n repeats one.
    let w = Seq::new((n + 1) as nat, |k: int| blocked_walk(dv, o, x, k as nat) as int);
    assert forall|k: int| 0 <= k < w.len() implies range.contains(#[trigger] w[k]) by {
        lemma_blocked_walk(dv, o, x, k as nat);
    }
    if w.no_duplicates() {
        w.unique_seq_to_set();
        assert(w.to_set().subset_of(range)) by {
            assert forall|v: int| w.to_set().contains(v) implies range.contains(v) by {
                let k = choose|k: int| 0 <= k < w.len() && w[k] == v;
                assert(range.contains(w[k]));
            }
        }
        vstd::set_lib::lemma_len_subset(w.to_set(), range);
        assert(false);
    }
    let (a, b) = choose|a: int, b: int| 0 <= a < w.len() && 0 <= b < w.len() && a != b && w[a] == w[b];
    let lo = if a < b { a } else { b };
    let hi = if a < b { b } else { a };
    // The walk from `hi` back down to `lo` is a cycle.
    let c = Seq::new((hi - lo + 1) as nat, |i: int| blocked_walk(dv, o, x, (hi - i) as nat));
    assert(c[0] == c[c.len() - 1]) by {
        assert(w[hi] == w[lo]);
    }
    assert forall|k: int| 0 <= k < c.len() - 1 implies edge(dv, #[trigger] c[k], c[k + 1]) by {
        lemma_blocked_walk(dv, o, x, (hi - k) as nat);
        assert((hi - k - 1) as nat == ((hi - k) as nat - 1) as nat);
    }
    assert(is_cycle(dv, c));
}

} // verus!
