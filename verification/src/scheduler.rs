//! Deterministic dependency-count scheduler over a plan's op DAG.
//!
//! When several ops are ready, the smallest `OpId` is handed out first.
use vstd::prelude::*;
use vstd::multiset::Multiset;
use crate::plan::{Op, OpId};

verus! {

broadcast use vstd::seq_lib::group_to_multiset_ensures;

/// Number of entries of `s` equal to `d`.
pub open spec fn count_in(s: Seq<OpId>, d: int) -> nat
    decreases s.len(),
{
    if s.len() == 0 {
        0
    } else {
        count_in(s.drop_last(), d) + if s.last().0 == d { 1nat } else { 0nat }
    }
}

/// In-degree recorded for an op: its dependency count, saturated to `u32::MAX`.
pub open spec fn op_dep_count(op: Op) -> u32 {
    if op.deps@.len() > u32::MAX { u32::MAX } else { op.deps@.len() as u32 }
}

/// In-degree of op id `j` after scanning the first `m` ops (the last op with that id wins).
pub open spec fn indeg_prefix(ops: Seq<Op>, m: int, j: int) -> u32
    decreases m,
{
    if m <= 0 || m > ops.len() {
        0
    } else if ops[m - 1].id.0 == j {
        op_dep_count(ops[m - 1])
    } else {
        indeg_prefix(ops, m - 1, j)
    }
}

/// `c` copies of `id`.
pub open spec fn repeat_id(c: nat, id: OpId) -> Seq<OpId> {
    Seq::new(c, |_i: int| id)
}

/// Ops depending on `d` after scanning the first `m` ops, once per matching dependency entry.
pub open spec fn dependents_prefix(ops: Seq<Op>, m: int, d: int) -> Seq<OpId>
    decreases m,
{
    if m <= 0 || m > ops.len() {
        Seq::empty()
    } else {
        dependents_prefix(ops, m - 1, d) + repeat_id(count_in(ops[m - 1].deps@, d), ops[m - 1].id)
    }
}

/// `v - 1`, saturating at zero.
pub open spec fn sat_dec(v: u32) -> u32 {
    if v == 0 { 0 } else { (v - 1) as u32 }
}

/// Abstract scheduler state.
pub struct SchedView {
    /// Remaining dependency count per op id.
    pub indeg: Seq<u32>,
    /// Dependents per op id.
    pub dependents: Seq<Seq<OpId>>,
    /// Ops ready to run.
    pub ready: Multiset<u32>,
    /// Ops not yet marked done.
    pub remaining: nat,
}

/// Effect of finishing an op on `(indeg, ready)`: each listed dependent loses one pending
/// dependency (saturating) and becomes ready when its count reaches zero.
pub open spec fn apply_done(indeg: Seq<u32>, ready: Multiset<u32>, ds: Seq<OpId>) -> (Seq<u32>, Multiset<u32>)
    decreases ds.len(),
{
    if ds.len() == 0 {
        (indeg, ready)
    } else {
        let (ind, rdy) = apply_done(indeg, ready, ds.drop_last());
        let dep = ds.last().0 as int;
        let nd = sat_dec(ind[dep]);
        (ind.update(dep, nd), if nd == 0 { rdy.insert(dep as u32) } else { rdy })
    }
}

/// Smallest element of a non-empty multiset.
pub open spec fn is_min_of(m: Multiset<u32>, x: u32) -> bool {
    m.count(x) > 0 && forall|y: u32| m.count(y) > 0 ==> x <= y
}

/// Dependency-count scheduler.
pub struct DagScheduler {
    indeg: Vec<u32>,
    dependents: Vec<Vec<OpId>>,
    ready: Vec<u32>,
    remaining: usize,
}

impl DagScheduler {
    /// Abstract state.
    pub closed spec fn view(&self) -> SchedView {
        SchedView {
            indeg: self.indeg@,
            dependents: Seq::new(self.dependents@.len(), |i: int| self.dependents@[i]@),
            ready: self.ready@.to_multiset(),
            remaining: self.remaining as nat,
        }
    }

    /// Number of ops the scheduler was built for.
    pub closed spec fn n(&self) -> nat {
        self.indeg@.len()
    }

    /// Internal consistency: all per-op tables have one entry per op, and every id they hold is
    /// in range.
    pub closed spec fn wf(&self) -> bool {
        &&& self.dependents@.len() == self.indeg@.len()
        &&& forall|d: int, t: int|
            0 <= d < self.dependents@.len() && 0 <= t < self.dependents@[d]@.len() ==> (#[trigger] self.dependents@[d]@[t]).0 < self.indeg@.len()
        &&& forall|t: int| 0 <= t < self.ready@.len() ==> #[trigger] self.ready@[t] < self.indeg@.len()
    }

    /// Build the scheduler for `ops`; every op id and dependency must index into `ops`.
    pub fn new(ops: &[Op]) -> (s: Self)
        requires
            ops@.len() <= u32::MAX,
            forall|i: int| 0 <= i < ops@.len() ==> (#[trigger] ops@[i]).id.0 < ops@.len(),
            forall|i: int, t: int| 0 <= i < ops@.len() && 0 <= t < ops@[i].deps@.len() ==> (#[trigger] ops@[i].deps@[t]).0 < ops@.len(),
        ensures
            s.wf(),
            s.n() == ops@.len(),
            s@.remaining == ops@.len(),
            forall|j: int| 0 <= j < ops@.len() ==> #[trigger] s@.indeg[j] == indeg_prefix(ops@, ops@.len() as int, j),
            forall|d: int| 0 <= d < ops@.len() ==> #[trigger] s@.dependents[d] == dependents_prefix(ops@, ops@.len() as int, d),
            forall|j: u32| #[trigger] s@.ready.count(j) == if j < ops@.len() && s@.indeg[j as int] == 0 { 1nat } else { 0nat },
    {
        let n = ops.len();
        let mut indeg: Vec<u32> = Vec::new();
        let mut dependents: Vec<Vec<OpId>> = Vec::new();
        let mut i: usize = 0;
        while i < n
            invariant
                n == ops@.len(),
                i <= n,
                indeg@.len() == i,
                dependents@.len() == i,
                forall|j: int| 0 <= j < i ==> #[trigger] indeg@[j] == 0,
                forall|j: int| 0 <= j < i ==> (#[trigger] dependents@[j])@.len() == 0,
            decreases n - i,
        {
            indeg.push(0);
            dependents.push(Vec::new());
            i = i + 1;
        }
        let mut m: usize = 0;
        while m < n
            invariant
                n == ops@.len(),
                m <= n,
                indeg@.len() == n,
                dependents@.len() == n,
                forall|i: int| 0 <= i < ops@.len() ==> (#[trigger] ops@[i]).id.0 < ops@.len(),
                forall|i: int, t: int| 0 <= i < ops@.len() && 0 <= t < ops@[i].deps@.len() ==> (#[trigger] ops@[i].deps@[t]).0 < ops@.len(),
                forall|j: int| 0 <= j < n ==> #[trigger] indeg@[j] == indeg_prefix(ops@, m as int, j),
                forall|d: int| 0 <= d < n ==> (#[trigger] dependents@[d])@ == dependents_prefix(ops@, m as int, d),
                forall|d: int, t: int| 0 <= d < n && 0 <= t < dependents@[d]@.len() ==> (#[trigger] dependents@[d]@[t]).0 < n,
            decreases n - m,
        {
            let op = &ops[m];
            let oi = op.id.0 as usize;
            let ghost before = Seq::new(n as nat, |d: int| dependents@[d]@);
            let mut count: u32 = 0;
            let nd = op.deps.len();
            let mut t: usize = 0;
            while t < nd
                invariant
                    n == ops@.len(),
                    m < n,
                    op == ops@[m as int],
                    nd == op.deps@.len(),
                    t <= nd,
                    dependents@.len() == n,
                    before.len() == n,
                    forall|i: int, t2: int| 0 <= i < ops@.len() && 0 <= t2 < ops@[i].deps@.len() ==> (#[trigger] ops@[i].deps@[t2]).0 < ops@.len(),
                    count == if t > u32::MAX { u32::MAX as int } else { t as int },
                    forall|d: int| 0 <= d < n ==> (#[trigger] dependents@[d])@ == before[d] + repeat_id(count_in(op.deps@.take(t as int), d), op.id),
                    op.id.0 < n,
                    forall|d: int, t2: int| 0 <= d < n && 0 <= t2 < dependents@[d]@.len() ==> (#[trigger] dependents@[d]@[t2]).0 < n,
                decreases nd - t,
            {
                let di = op.deps[t].0 as usize;
                assert(op.deps@[t as int] == ops@[m as int].deps@[t as int]);
                let ghost prev = dependents@;
                dependents[di].push(op.id);
                proof {
                    assert(op.deps@.take(t + 1).drop_last() =~= op.deps@.take(t as int));
                    assert forall|d: int| 0 <= d < n implies (#[trigger] dependents@[d])@ == before[d] + repeat_id(count_in(op.deps@.take(t + 1), d), op.id) by {
                        if d == di {
                            assert(dependents@[d]@ =~= before[d] + repeat_id(count_in(op.deps@.take(t + 1), d), op.id));
                        } else {
                            assert(dependents@[d] == prev[d]);
                        }
                    }
                }
                count = count.saturating_add(1);
                t = t + 1;
            }
            assert(op.deps@.take(nd as int) =~= op.deps@);
            indeg.set(oi, count);
            m = m + 1;
        }
        let mut ready: Vec<u32> = Vec::new();
        let mut j: usize = 0;
        while j < n
            invariant
                n == indeg@.len(),
                n <= u32::MAX,
                j <= n,
                n <= usize::MAX,
                forall|t: int| 0 <= t < ready@.len() ==> #[trigger] ready@[t] < j,
                forall|x: u32| #[trigger] ready@.to_multiset().count(x) == if x < j && indeg@[x as int] == 0 { 1nat } else { 0nat },
            decreases n - j,
        {
            let ghost r0 = ready@;
            if indeg[j] == 0 {
                ready.push(j as u32);
                assert(ready@ == r0.push(j as u32));
            }
            proof {
                assert forall|x: u32| #[trigger] ready@.to_multiset().count(x) == if x < j + 1 && indeg@[x as int] == 0 { 1nat } else { 0nat } by {
                    if x == j as u32 {
                    } else {
                    }
                }
            }
            j = j + 1;
        }
        DagScheduler { indeg, dependents, ready, remaining: n }
    }

    /// Ops not yet marked done.
    pub fn remaining(&self) -> (r: usize)
        ensures
            r == self@.remaining,
    {
        self.remaining
    }

    /// Hand out the smallest ready op, if any.
    pub fn pop_ready(&mut self) -> (r: Option<OpId>)
        requires
            old(self).wf(),
        ensures
            final(self).wf(),
            final(self).n() == old(self).n(),
            final(self)@.indeg == old(self)@.indeg,
            final(self)@.dependents == old(self)@.dependents,
            final(self)@.remaining == old(self)@.remaining,
            old(self)@.ready.len() == 0 ==> r is None && final(self)@.ready == old(self)@.ready,
            old(self)@.ready.len() > 0 ==> (r matches Some(id) && is_min_of(old(self)@.ready, id.0)
                && final(self)@.ready == old(self)@.ready.remove(id.0)),
    {
        let n = self.ready.len();
        if n == 0 {
            return None;
        }
        let mut best: usize = 0;
        let mut i: usize = 1;
        while i < n
            invariant
                n == self.ready@.len(),
                0 < n,
                best < i <= n,
                forall|t: int| 0 <= t < i ==> self.ready@[best as int] <= #[trigger] self.ready@[t],
            decreases n - i,
        {
            if self.ready[i] < self.ready[best] {
                best = i;
            }
            i = i + 1;
        }
        let ghost old_ready = self.ready@;
        let id = self.ready.remove(best);
        proof {
            assert forall|y: u32| old_ready.to_multiset().count(y) > 0 implies id <= y by {
                assert(old_ready.contains(y));
                let t = choose|t: int| 0 <= t < old_ready.len() && old_ready[t] == y;
                assert(old_ready[best as int] <= old_ready[t]);
            }
            assert(old_ready.contains(id));
            assert(self.ready@.to_multiset() =~= old_ready.to_multiset().remove(id));
            assert forall|t: int| 0 <= t < self.ready@.len() implies #[trigger] self.ready@[t] < self.indeg@.len() by {
                if t < best {
                    assert(self.ready@[t] == old_ready[t]);
                } else {
                    assert(self.ready@[t] == old_ready[t + 1]);
                }
            }
        }
        Some(OpId(id))
    }

    /// Hand out up to `max` ready ops, smallest first.
    pub fn pop_ready_batch(&mut self, max: usize) -> (out: Vec<OpId>)
        requires
            old(self).wf(),
        ensures
            final(self).wf(),
            final(self).n() == old(self).n(),
            final(self)@.indeg == old(self)@.indeg,
            final(self)@.dependents == old(self)@.dependents,
            final(self)@.remaining == old(self)@.remaining,
            out@.len() == if max < old(self)@.ready.len() { max as int } else { old(self)@.ready.len() as int },
            final(self)@.ready.add(ids_multiset(out@)) == old(self)@.ready,
            forall|a: int, b: int| 0 <= a < b < out@.len() ==> out@[a].0 <= out@[b].0,
            forall|a: int, y: u32| 0 <= a < out@.len() && final(self)@.ready.count(y) > 0 ==> out@[a].0 <= y,
    {
        let mut out: Vec<OpId> = Vec::new();
        let ghost start = self@.ready;
        let mut k: usize = 0;
        while k < max
            invariant_except_break
                self.wf(),
                self.n() == old(self).n(),
                self@.indeg == old(self)@.indeg,
                self@.dependents == old(self)@.dependents,
                self@.remaining == old(self)@.remaining,
                start == old(self)@.ready,
                k <= max,
                out@.len() == k,
                self@.ready.len() + k == start.len(),
                self@.ready.add(ids_multiset(out@)) == start,
                forall|a: int, b: int| 0 <= a < b < out@.len() ==> out@[a].0 <= out@[b].0,
                forall|a: int, y: u32| 0 <= a < out@.len() && self@.ready.count(y) > 0 ==> out@[a].0 <= y,
            ensures
                self.wf(),
                self.n() == old(self).n(),
                self@.indeg == old(self)@.indeg,
                self@.dependents == old(self)@.dependents,
                self@.remaining == old(self)@.remaining,
                out@.len() == if max < start.len() { max as int } else { start.len() as int },
                self@.ready.add(ids_multiset(out@)) == start,
                forall|a: int, b: int| 0 <= a < b < out@.len() ==> out@[a].0 <= out@[b].0,
                forall|a: int, y: u32| 0 <= a < out@.len() && self@.ready.count(y) > 0 ==> out@[a].0 <= y,
            decreases max - k,
        {
            let ghost before = self@.ready;
            let ghost out_before = out@;
            match self.pop_ready() {
                Some(op) => {
                    out.push(op);
                    proof {
                        assert(out_before.push(op) == out@);
                        lemma_ids_multiset_push(out_before, op);
                        assert(self@.ready.add(ids_multiset(out@)) =~= before.add(ids_multiset(out_before)));
                        assert forall|a: int, y: u32| 0 <= a < out@.len() && self@.ready.count(y) > 0 implies out@[a].0 <= y by {
                            assert(before.count(y) > 0);
                        }
                        assert forall|a: int, b: int| 0 <= a < b < out@.len() implies out@[a].0 <= out@[b].0 by {
                            if b == out@.len() - 1 {
                                assert(before.count(op.0) > 0);
                            }
                        }
                    }
                    k = k + 1;
                },
                None => {
                    break;
                },
            }
        }
        out
    }

    /// Mark `done` finished: each of its dependents loses one pending dependency and becomes
    /// ready when none is left.
    pub fn mark_done(&mut self, done: OpId)
        requires
            old(self).wf(),
            done.0 < old(self).n(),
        ensures
            final(self).wf(),
            final(self).n() == old(self).n(),
            final(self)@.remaining == if old(self)@.remaining == 0 { 0 } else { (old(self)@.remaining - 1) as nat },
            final(self)@.dependents == old(self)@.dependents,
            (final(self)@.indeg, final(self)@.ready) == apply_done(old(self)@.indeg, old(self)@.ready, old(self)@.dependents[done.0 as int]),
    {
        let di = done.0 as usize;
        self.remaining = self.remaining.saturating_sub(1);
        let ghost ds = self.dependents@[di as int]@;
        let ghost ind0 = self.indeg@;
        let ghost rdy0 = self.ready@.to_multiset();
        let nd = self.dependents[di].len();
        let mut t: usize = 0;
        while t < nd
            invariant
                self.wf(),
                self.n() == old(self).n(),
                self.dependents == old(self).dependents,
                self.remaining == if old(self).remaining == 0 { 0 } else { (old(self).remaining - 1) as int },
                di < self.dependents@.len(),
                ds == self.dependents@[di as int]@,
                nd == ds.len(),
                t <= nd,
                (self.indeg@, self.ready@.to_multiset()) == apply_done(ind0, rdy0, ds.take(t as int)),
            decreases nd - t,
        {
            let dep = self.dependents[di][t];
            let i = dep.0 as usize;
            assert(dep == ds[t as int]);
            let d = self.indeg[i];
            let nd2 = d.saturating_sub(1);
            self.indeg.set(i, nd2);
            let ghost r0 = self.ready@;
            if nd2 == 0 {
                self.ready.push(dep.0);
            }
            proof {
                assert(ds.take(t + 1).drop_last() =~= ds.take(t as int));
                assert(ds.take(t + 1).last() == dep);
                assert forall|u: int| 0 <= u < self.ready@.len() implies #[trigger] self.ready@[u] < self.indeg@.len() by {
                    if u < r0.len() {
                        assert(self.ready@[u] == r0[u]);
                    }
                }
            }
            t = t + 1;
        }
        assert(ds.take(nd as int) =~= ds);
    }
}

/// Multiset of the raw ids in `s`.
pub open spec fn ids_multiset(s: Seq<OpId>) -> Multiset<u32>
    decreases s.len(),
{
    if s.len() == 0 {
        Multiset::empty()
    } else {
        ids_multiset(s.drop_last()).insert(s.last().0)
    }
}

proof fn lemma_ids_multiset_push(s: Seq<OpId>, x: OpId)
    ensures
        ids_multiset(s.push(x)) == ids_multiset(s).insert(x.0),
{
    assert(s.push(x).drop_last() =~= s);
}

// ---------------------------------------------------------------------------------------------
// Topological-order laws
// ---------------------------------------------------------------------------------------------

/// Number of entries of `deps` not yet in `done`.
pub open spec fn pending(deps: Seq<OpId>, done: Set<int>) -> nat
    decreases deps.len(),
{
    if deps.len() == 0 {
        0
    } else {
        pending(deps.drop_last(), done) + if done.contains(deps.last().0 as int) { 0nat } else { 1nat }
    }
}

/// A plan's ops addressed by position (op `i` has id `i`), with in-range dependencies and
/// dependency counts that fit the scheduler's counters.
pub open spec fn ops_indexed(ops: Seq<Op>) -> bool {
    &&& ops.len() <= u32::MAX
    &&& forall|i: int| 0 <= i < ops.len() ==> (#[trigger] ops[i]).id.0 == i
    &&& forall|i: int| 0 <= i < ops.len() ==> (#[trigger] ops[i]).deps@.len() <= u32::MAX
    &&& forall|i: int, t: int| 0 <= i < ops.len() && 0 <= t < ops[i].deps@.len() ==> (#[trigger] ops[i].deps@[t]).0 < ops.len()
}

/// Scheduler state `v` tracks `ops` with the ops in `done` finished: every op's counter is its
/// number of unfinished dependencies, and only ops with no unfinished dependency are ready.
pub open spec fn tracks(v: SchedView, ops: Seq<Op>, done: Set<int>) -> bool {
    &&& ops_indexed(ops)
    &&& v.indeg.len() == ops.len()
    &&& v.dependents.len() == ops.len()
    &&& forall|j: int| 0 <= j < ops.len() ==> #[trigger] v.indeg[j] == pending(ops[j].deps@, done)
    &&& forall|d: int| 0 <= d < ops.len() ==> #[trigger] v.dependents[d] == dependents_prefix(ops, ops.len() as int, d)
    &&& forall|x: u32| #[trigger] v.ready.count(x) > 0 ==> x < ops.len() && v.indeg[x as int] == 0
}

proof fn lemma_count_concat(a: Seq<OpId>, b: Seq<OpId>, j: int)
    ensures
        count_in(a + b, j) == count_in(a, j) + count_in(b, j),
    decreases b.len(),
{
    if b.len() == 0 {
        assert(a + b =~= a);
    } else {
        assert((a + b).drop_last() =~= a + b.drop_last());
        lemma_count_concat(a, b.drop_last(), j);
    }
}

proof fn lemma_count_repeat(c: nat, id: OpId, j: int)
    ensures
        count_in(repeat_id(c, id), j) == if id.0 == j { c } else { 0 },
    decreases c,
{
    if c > 0 {
        assert(repeat_id(c, id).drop_last() =~= repeat_id((c - 1) as nat, id));
        lemma_count_repeat((c - 1) as nat, id, j);
    }
}

proof fn lemma_count_dependents(ops: Seq<Op>, m: int, d: int, j: int)
    requires
        ops_indexed(ops),
        0 <= m <= ops.len(),
        0 <= j,
    ensures
        count_in(dependents_prefix(ops, m, d), j) == if j < m { count_in(ops[j].deps@, d) } else { 0 },
    decreases m,
{
    if m > 0 {
        lemma_count_dependents(ops, m - 1, d, j);
        lemma_count_concat(dependents_prefix(ops, m - 1, d), repeat_id(count_in(ops[m - 1].deps@, d), ops[m - 1].id), j);
        lemma_count_repeat(count_in(ops[m - 1].deps@, d), ops[m - 1].id, j);
        assert(ops[m - 1].id.0 == m - 1);
    }
}

proof fn lemma_dependents_in_range(ops: Seq<Op>, m: int, d: int, t: int)
    requires
        ops_indexed(ops),
        0 <= m <= ops.len(),
        0 <= t < dependents_prefix(ops, m, d).len(),
    ensures
        dependents_prefix(ops, m, d)[t].0 < m,
    decreases m,
{
    if m > 0 {
        let prev = dependents_prefix(ops, m - 1, d);
        assert(ops[m - 1].id.0 == m - 1);
        if t < prev.len() {
            lemma_dependents_in_range(ops, m - 1, d, t);
        }
    }
}

proof fn lemma_pending_insert(deps: Seq<OpId>, done: Set<int>, d: int)
    requires
        !done.contains(d),
    ensures
        pending(deps, done) == pending(deps, done.insert(d)) + count_in(deps, d),
    decreases deps.len(),
{
    if deps.len() > 0 {
        lemma_pending_insert(deps.drop_last(), done, d);
    }
}

proof fn lemma_pending_zero(deps: Seq<OpId>, done: Set<int>, t: int)
    requires
        pending(deps, done) == 0,
        0 <= t < deps.len(),
    ensures
        done.contains(deps[t].0 as int),
    decreases deps.len(),
{
    if t < deps.len() - 1 {
        lemma_pending_zero(deps.drop_last(), done, t);
        assert(deps.drop_last()[t] == deps[t]);
    }
}

proof fn lemma_pending_le_len(deps: Seq<OpId>, done: Set<int>)
    ensures
        pending(deps, done) <= deps.len(),
    decreases deps.len(),
{
    if deps.len() > 0 {
        lemma_pending_le_len(deps.drop_last(), done);
    }
}

proof fn lemma_apply_done(ind: Seq<u32>, rdy: Multiset<u32>, ds: Seq<OpId>)
    requires
        forall|t: int| 0 <= t < ds.len() ==> (#[trigger] ds[t]).0 < ind.len(),
        forall|x: u32| #[trigger] rdy.count(x) > 0 ==> x < ind.len() && ind[x as int] == 0,
    ensures
        apply_done(ind, rdy, ds).0.len() == ind.len(),
        forall|j: int| 0 <= j < ind.len() ==> #[trigger] apply_done(ind, rdy, ds).0[j]
            == if ind[j] >= count_in(ds, j) { ind[j] - count_in(ds, j) } else { 0 },
        forall|x: u32| #[trigger] apply_done(ind, rdy, ds).1.count(x) > 0 ==> x < ind.len() && apply_done(ind, rdy, ds).0[x as int] == 0,
    decreases ds.len(),
{
    if ds.len() > 0 {
        let pre = ds.drop_last();
        assert forall|t: int| 0 <= t < pre.len() implies (#[trigger] pre[t]).0 < ind.len() by {
            assert(pre[t] == ds[t]);
        }
        lemma_apply_done(ind, rdy, pre);
        assert(ds.last() == ds[ds.len() - 1]);
    }
}

/// A freshly built scheduler over position-addressed ops tracks them with nothing finished.
pub proof fn law_fresh_scheduler_tracks(v: SchedView, ops: Seq<Op>)
    requires
        ops_indexed(ops),
        v.indeg.len() == ops.len(),
        v.dependents.len() == ops.len(),
        forall|j: int| 0 <= j < ops.len() ==> #[trigger] v.indeg[j] == indeg_prefix(ops, ops.len() as int, j),
        forall|d: int| 0 <= d < ops.len() ==> #[trigger] v.dependents[d] == dependents_prefix(ops, ops.len() as int, d),
        forall|j: u32| #[trigger] v.ready.count(j) == if j < ops.len() && v.indeg[j as int] == 0 { 1nat } else { 0nat },
    ensures
        tracks(v, ops, Set::empty()),
{
    assert forall|j: int| 0 <= j < ops.len() implies #[trigger] v.indeg[j] == pending(ops[j].deps@, Set::empty()) by {
        lemma_indeg_prefix_indexed(ops, ops.len() as int, j);
        lemma_pending_none(ops[j].deps@);
    }
}

proof fn lemma_indeg_prefix_indexed(ops: Seq<Op>, m: int, j: int)
    requires
        ops_indexed(ops),
        0 <= j < m <= ops.len(),
    ensures
        indeg_prefix(ops, m, j) == ops[j].deps@.len(),
    decreases m,
{
    assert(ops[m - 1].id.0 == m - 1);
    assert(ops[j].deps@.len() <= u32::MAX);
    if m - 1 != j {
        lemma_indeg_prefix_indexed(ops, m - 1, j);
    }
}

proof fn lemma_pending_none(deps: Seq<OpId>)
    ensures
        pending(deps, Set::empty()) == deps.len(),
    decreases deps.len(),
{
    if deps.len() > 0 {
        lemma_pending_none(deps.drop_last());
    }
}

/// Finishing an unfinished op `d` keeps the scheduler tracking the plan, now with `d` finished.
pub proof fn law_mark_done_tracks(v: SchedView, ops: Seq<Op>, done: Set<int>, d: int)
    requires
        tracks(v, ops, done),
        0 <= d < ops.len(),
        !done.contains(d),
    ensures
        ({
            let (ind, rdy) = apply_done(v.indeg, v.ready, v.dependents[d]);
            tracks(SchedView { indeg: ind, dependents: v.dependents, ready: rdy, remaining: v.remaining }, ops, done.insert(d))
        }),
{
    let ds = v.dependents[d];
    assert forall|t: int| 0 <= t < ds.len() implies (#[trigger] ds[t]).0 < v.indeg.len() by {
        lemma_dependents_in_range(ops, ops.len() as int, d, t);
    }
    lemma_apply_done(v.indeg, v.ready, ds);
    let (ind, rdy) = apply_done(v.indeg, v.ready, ds);
    assert forall|j: int| 0 <= j < ops.len() implies #[trigger] ind[j] == pending(ops[j].deps@, done.insert(d)) by {
        lemma_count_dependents(ops, ops.len() as int, d, j);
        lemma_pending_insert(ops[j].deps@, done, d);
    }
}

/// A ready op has every one of its dependencies finished; handing it out keeps the tracking.
pub proof fn law_ready_op_has_deps_done(v: SchedView, ops: Seq<Op>, done: Set<int>, x: u32)
    requires
        tracks(v, ops, done),
        v.ready.count(x) > 0,
    ensures
        forall|t: int| 0 <= t < ops[x as int].deps@.len() ==> done.contains(#[trigger] ops[x as int].deps@[t].0 as int),
        tracks(SchedView { ready: v.ready.remove(x), ..v }, ops, done),
{
    assert forall|t: int| 0 <= t < ops[x as int].deps@.len() implies done.contains(#[trigger] ops[x as int].deps@[t].0 as int) by {
        lemma_pending_zero(ops[x as int].deps@, done, t);
    }
}


// ---------------------------------------------------------------------------------------------
// Whole-run laws
// ---------------------------------------------------------------------------------------------

/// Every op lists each dependency once.
pub open spec fn deps_distinct(ops: Seq<Op>) -> bool {
    forall|i: int| 0 <= i < ops.len() ==> (#[trigger] ops[i]).deps@.no_duplicates()
}

/// Op `x` can run: it was not handed out yet and all of its dependencies are finished.
pub open spec fn runnable(ops: Seq<Op>, done: Set<int>, out: Set<int>, x: int) -> bool {
    0 <= x < ops.len() && !out.contains(x) && pending(ops[x].deps@, done) == 0
}

/// The state of a run over `ops`: the ops in `out` were handed out, those in `done` finished.
/// The scheduler tracks the finished ops, every handed-out op had its dependencies finished,
/// and the ready ops are exactly the runnable ones, each once.
pub open spec fn run_ok(v: SchedView, ops: Seq<Op>, done: Set<int>, out: Set<int>) -> bool {
    &&& tracks(v, ops, done)
    &&& deps_distinct(ops)
    &&& done.subset_of(out)
    &&& forall|x: int| #[trigger] out.contains(x) ==> 0 <= x < ops.len() && pending(ops[x].deps@, done) == 0
    &&& forall|x: u32| #[trigger] v.ready.count(x) == if runnable(ops, done, out, x as int) { 1nat } else { 0nat }
}

/// A fresh scheduler starts a run with nothing handed out or finished.
pub proof fn law_run_starts(v: SchedView, ops: Seq<Op>)
    requires
        ops_indexed(ops),
        deps_distinct(ops),
        v.indeg.len() == ops.len(),
        v.dependents.len() == ops.len(),
        forall|j: int| 0 <= j < ops.len() ==> #[trigger] v.indeg[j] == indeg_prefix(ops, ops.len() as int, j),
        forall|d: int| 0 <= d < ops.len() ==> #[trigger] v.dependents[d] == dependents_prefix(ops, ops.len() as int, d),
        forall|j: u32| #[trigger] v.ready.count(j) == if j < ops.len() && v.indeg[j as int] == 0 { 1nat } else { 0nat },
    ensures
        run_ok(v, ops, Set::empty(), Set::empty()),
{
    law_fresh_scheduler_tracks(v, ops);
}

/// Handing out the smallest ready op: it was never handed out before, its dependencies are all
/// finished, no runnable op is smaller, and the run goes on with it handed out. When nothing
/// is ready, no op is runnable.
pub proof fn law_pop_keeps_run(v: SchedView, ops: Seq<Op>, done: Set<int>, out: Set<int>, x: u32)
    requires
        run_ok(v, ops, done, out),
    ensures
        v.ready.len() == 0 ==> forall|y: int| !#[trigger] runnable(ops, done, out, y),
        is_min_of(v.ready, x) ==> {
            &&& runnable(ops, done, out, x as int)
            &&& forall|t: int| 0 <= t < ops[x as int].deps@.len() ==> done.contains(#[trigger] ops[x as int].deps@[t].0 as int)
            &&& forall|y: int| #[trigger] runnable(ops, done, out, y) ==> x <= y
            &&& run_ok(SchedView { ready: v.ready.remove(x), ..v }, ops, done, out.insert(x as int))
        },
{
    if v.ready.len() == 0 {
        assert forall|y: int| !#[trigger] runnable(ops, done, out, y) by {
            if runnable(ops, done, out, y) {
                assert(v.ready.count(y as u32) == 1);
            }
        }
    }
    if is_min_of(v.ready, x) {
        law_ready_op_has_deps_done(v, ops, done, x);
        assert forall|y: int| #[trigger] runnable(ops, done, out, y) implies x <= y by {
            assert(v.ready.count(y as u32) == 1);
        }
        let v2 = SchedView { ready: v.ready.remove(x), ..v };
        let out2 = out.insert(x as int);
        assert forall|z: u32| #[trigger] v2.ready.count(z) == if runnable(ops, done, out2, z as int) { 1nat } else { 0nat } by {
            assert(v.ready.count(z) == if runnable(ops, done, out, z as int) { 1nat } else { 0nat });
        }
    }
}

proof fn lemma_pending_mono(deps: Seq<OpId>, done: Set<int>, d: int)
    ensures
        pending(deps, done.insert(d)) <= pending(deps, done),
    decreases deps.len(),
{
    if deps.len() > 0 {
        lemma_pending_mono(deps.drop_last(), done, d);
    }
}

proof fn lemma_count_distinct(s: Seq<OpId>, d: int)
    requires
        s.no_duplicates(),
    ensures
        count_in(s, d) <= 1,
        count_in(s, d) == 1 <==> exists|t: int| 0 <= t < s.len() && s[t].0 == d,
    decreases s.len(),
{
    if s.len() > 0 {
        let pre = s.drop_last();
        assert(pre.no_duplicates());
        lemma_count_distinct(pre, d);
        if s.last().0 == d {
            if count_in(pre, d) == 1 {
                let t = choose|t: int| 0 <= t < pre.len() && pre[t].0 == d;
                assert(s[t] == pre[t]);
                assert(s[t] == s[s.len() - 1]);
            }
        }
        if exists|t: int| 0 <= t < s.len() && s[t].0 == d {
            let t = choose|t: int| 0 <= t < s.len() && s[t].0 == d;
            if t < pre.len() {
                assert(pre[t] == s[t]);
            }
        }
        if exists|t: int| 0 <= t < pre.len() && pre[t].0 == d {
            let t = choose|t: int| 0 <= t < pre.len() && pre[t].0 == d;
            assert(s[t] == pre[t]);
        }
    }
}

proof fn lemma_apply_done_ready(ind: Seq<u32>, rdy: Multiset<u32>, ds: Seq<OpId>, x: u32)
    requires
        forall|t: int| 0 <= t < ds.len() ==> (#[trigger] ds[t]).0 < ind.len(),
        count_in(ds, x as int) <= 1,
        (x as int) < ind.len(),
    ensures
        apply_done(ind, rdy, ds).1.count(x) == rdy.count(x) + if count_in(ds, x as int) == 1 && ind[x as int] <= 1 { 1nat } else { 0nat },
        apply_done(ind, rdy, ds).0.len() == ind.len(),
        count_in(ds, x as int) == 0 ==> apply_done(ind, rdy, ds).0[x as int] == ind[x as int],
    decreases ds.len(),
{
    if ds.len() > 0 {
        let pre = ds.drop_last();
        assert forall|t: int| 0 <= t < pre.len() implies (#[trigger] pre[t]).0 < ind.len() by {
            assert(pre[t] == ds[t]);
        }
        assert(count_in(pre, x as int) <= count_in(ds, x as int));
        lemma_apply_done_ready(ind, rdy, pre, x);
        let dep = ds.last().0 as int;
        assert(ds.last() == ds[ds.len() - 1]);
        if dep == x as int {
            assert(count_in(pre, x as int) == 0);
        }
    }
}

/// Finishing a handed-out op keeps the run: its dependents whose last unfinished dependency it
/// was become ready, each once.
pub proof fn law_done_keeps_run(v: SchedView, ops: Seq<Op>, done: Set<int>, out: Set<int>, d: int)
    requires
        run_ok(v, ops, done, out),
        out.contains(d),
        !done.contains(d),
    ensures
        ({
            let (ind, rdy) = apply_done(v.indeg, v.ready, v.dependents[d]);
            run_ok(SchedView { indeg: ind, dependents: v.dependents, ready: rdy, remaining: v.remaining }, ops, done.insert(d), out)
        }),
{
    law_mark_done_tracks(v, ops, done, d);
    let ds = v.dependents[d];
    let (ind, rdy) = apply_done(v.indeg, v.ready, ds);
    let done2 = done.insert(d);
    assert forall|t: int| 0 <= t < ds.len() implies (#[trigger] ds[t]).0 < v.indeg.len() by {
        lemma_dependents_in_range(ops, ops.len() as int, d, t);
    }
    assert forall|x: int| #[trigger] out.contains(x) implies 0 <= x < ops.len() && pending(ops[x].deps@, done2) == 0 by {
        lemma_pending_mono(ops[x].deps@, done, d);
    }
    assert forall|z: u32| #[trigger] rdy.count(z) == if runnable(ops, done2, out, z as int) { 1nat } else { 0nat } by {
        assert(v.ready.count(z) == if runnable(ops, done, out, z as int) { 1nat } else { 0nat });
        if (z as int) < ops.len() {
            let j = z as int;
            let deps_j = ops[j].deps@;
            lemma_count_dependents(ops, ops.len() as int, d, j);
            lemma_count_distinct(deps_j, d);
            lemma_apply_done_ready(v.indeg, v.ready, ds, z);
            lemma_pending_insert(deps_j, done, d);
            if count_in(deps_j, d) == 1 {
                let t = choose|t: int| 0 <= t < deps_j.len() && deps_j[t].0 == d;
                if pending(deps_j, done) == 0 {
                    lemma_pending_zero(deps_j, done, t);
                }
                if out.contains(j) {
                    assert(pending(deps_j, done) == 0);
                }
            }
        } else {
            assert(v.ready.count(z) == 0);
            if rdy.count(z) > 0 {
                lemma_apply_done(v.indeg, v.ready, ds);
            }
        }
    }
}

/// A run over ops whose dependencies point to earlier ops ends with every op handed out: once
/// nothing is ready and every handed-out op is finished, no op is left.
pub proof fn law_run_hands_out_every_op(v: SchedView, ops: Seq<Op>, done: Set<int>, out: Set<int>, i: int)
    requires
        run_ok(v, ops, done, out),
        forall|a: int, t: int| 0 <= a < ops.len() && 0 <= t < ops[a].deps@.len() ==> (#[trigger] ops[a].deps@[t]).0 < a,
        v.ready.len() == 0,
        out.subset_of(done),
        0 <= i < ops.len(),
    ensures
        out.contains(i),
    decreases i,
{
    if !out.contains(i) {
        let deps = ops[i].deps@;
        assert forall|t: int| 0 <= t < deps.len() implies done.contains(#[trigger] deps[t].0 as int) by {
            law_run_hands_out_every_op(v, ops, done, out, deps[t].0 as int);
        }
        lemma_pending_all_done(deps, done);
        assert(runnable(ops, done, out, i));
        assert(v.ready.count(i as u32) == 1);
    }
}

proof fn lemma_pending_all_done(deps: Seq<OpId>, done: Set<int>)
    requires
        forall|t: int| 0 <= t < deps.len() ==> done.contains(#[trigger] deps[t].0 as int),
    ensures
        pending(deps, done) == 0,
    decreases deps.len(),
{
    if deps.len() > 0 {
        let pre = deps.drop_last();
        assert forall|t: int| 0 <= t < pre.len() implies done.contains(#[trigger] pre[t].0 as int) by {
            assert(pre[t] == deps[t]);
        }
        lemma_pending_all_done(pre, done);
        assert(deps.last() == deps[deps.len() - 1]);
    }
}

/// One call of a run: `pop_ready` with what it returned, or `mark_done` of an op.
pub enum SchedEvent {
    /// `pop_ready` returned this.
    Pop(Option<u32>),
    /// `mark_done` of this op.
    Done(u32),
}

/// `pop_ready` took the scheduler from `a` to `b` returning `r`, as its contract says.
pub open spec fn pop_step(a: SchedView, b: SchedView, r: Option<u32>) -> bool {
    &&& b.indeg == a.indeg && b.dependents == a.dependents && b.remaining == a.remaining
    &&& a.ready.len() == 0 ==> r is None && b.ready == a.ready
    &&& a.ready.len() > 0 ==> (r matches Some(x) && is_min_of(a.ready, x) && b.ready == a.ready.remove(x))
}

/// `mark_done(d)` took the scheduler from `a` to `b`, as its contract says.
pub open spec fn done_step(a: SchedView, b: SchedView, d: u32) -> bool {
    &&& b.dependents == a.dependents
    &&& (b.indeg, b.ready) == apply_done(a.indeg, a.ready, a.dependents[d as int])
}

/// `b` follows `a` by event `e`.
pub open spec fn sched_step(a: SchedView, b: SchedView, e: SchedEvent) -> bool {
    match e {
        SchedEvent::Pop(r) => pop_step(a, b, r),
        SchedEvent::Done(d) => done_step(a, b, d),
    }
}

/// Ops handed out by the first `k` events.
pub open spec fn popped(ev: Seq<SchedEvent>, k: int) -> Set<int>
    decreases k,
{
    if k <= 0 {
        Set::empty()
    } else {
        match ev[k - 1] {
            SchedEvent::Pop(Some(x)) => popped(ev, k - 1).insert(x as int),
            _ => popped(ev, k - 1),
        }
    }
}

/// Ops marked done by the first `k` events.
pub open spec fn finished(ev: Seq<SchedEvent>, k: int) -> Set<int>
    decreases k,
{
    if k <= 0 {
        Set::empty()
    } else {
        match ev[k - 1] {
            SchedEvent::Done(d) => finished(ev, k - 1).insert(d as int),
            _ => finished(ev, k - 1),
        }
    }
}

proof fn lemma_run_ok_any_remaining(v: SchedView, ops: Seq<Op>, done: Set<int>, out: Set<int>, r: nat)
    requires
        run_ok(v, ops, done, out),
    ensures
        run_ok(SchedView { remaining: r, ..v }, ops, done, out),
{
    let w = SchedView { remaining: r, ..v };
    assert(w.indeg == v.indeg && w.dependents == v.dependents && w.ready == v.ready);
    assert forall|x: u32| #[trigger] w.ready.count(x) > 0 implies x < ops.len() && w.indeg[x as int] == 0 by {
        assert(v.ready.count(x) > 0);
    }
}

proof fn lemma_run_state(ops: Seq<Op>, views: Seq<SchedView>, ev: Seq<SchedEvent>, k: int)
    requires
        run_ok(views[0], ops, Set::empty(), Set::empty()),
        views.len() == ev.len() + 1,
        forall|j: int| 0 <= j < ev.len() ==> sched_step(#[trigger] views[j], views[j + 1], ev[j]),
        forall|j: int| 0 <= j < ev.len() ==> (#[trigger] ev[j] matches SchedEvent::Done(d) ==>
            (popped(ev, j).contains(d as int) && !finished(ev, j).contains(d as int))),
        0 <= k <= ev.len(),
    ensures
        run_ok(views[k], ops, finished(ev, k), popped(ev, k)),
    decreases k,
{
    if k > 0 {
        lemma_run_state(ops, views, ev, k - 1);
        let a = views[k - 1];
        let b = views[k];
        let d0 = finished(ev, k - 1);
        let o0 = popped(ev, k - 1);
        assert(sched_step(a, b, ev[k - 1]));
        match ev[k - 1] {
            SchedEvent::Pop(r) => {
                assert(finished(ev, k) == d0);
                match r {
                    Some(x) => {
                        assert(popped(ev, k) == o0.insert(x as int));
                        law_pop_keeps_run(a, ops, d0, o0, x);
                        assert(b == SchedView { ready: a.ready.remove(x), ..a });
                    },
                    None => {
                        assert(popped(ev, k) == o0);
                        assert(b == a);
                    },
                }
            },
            SchedEvent::Done(d) => {
                assert(finished(ev, k) == d0.insert(d as int));
                assert(popped(ev, k) == o0);
                assert(ev[k - 1] matches SchedEvent::Done(d) ==> (popped(ev, k - 1).contains(d as int) && !finished(ev, k - 1).contains(d as int)));
                law_done_keeps_run(a, ops, d0, o0, d as int);
                let c = SchedView { indeg: b.indeg, dependents: b.dependents, ready: b.ready, remaining: a.remaining };
                assert(run_ok(c, ops, d0.insert(d as int), o0));
                lemma_run_ok_any_remaining(c, ops, d0.insert(d as int), o0, b.remaining);
                assert(b == SchedView { remaining: b.remaining, ..c });
            },
        }
    }
}

/// A whole run of a scheduler over position-addressed ops with distinct dependencies, where
/// the caller marks done only ops it was handed and not yet marked: every op is handed out at
/// most once, only after all of its dependencies were marked done, and it is the smallest op
/// that could run; `None` comes only when no op can run. `views[k]` is the scheduler before
/// event `k`.
pub proof fn law_scheduler_run(ops: Seq<Op>, views: Seq<SchedView>, ev: Seq<SchedEvent>, k: int)
    requires
        run_ok(views[0], ops, Set::empty(), Set::empty()),
        views.len() == ev.len() + 1,
        forall|j: int| 0 <= j < ev.len() ==> sched_step(#[trigger] views[j], views[j + 1], ev[j]),
        forall|j: int| 0 <= j < ev.len() ==> (#[trigger] ev[j] matches SchedEvent::Done(d) ==>
            (popped(ev, j).contains(d as int) && !finished(ev, j).contains(d as int))),
        0 <= k < ev.len(),
    ensures
        run_ok(views[k], ops, finished(ev, k), popped(ev, k)),
        ev[k] matches SchedEvent::Pop(Some(x)) ==> {
            &&& !popped(ev, k).contains(x as int)
            &&& 0 <= x < ops.len()
            &&& forall|t: int| 0 <= t < ops[x as int].deps@.len() ==> finished(ev, k).contains(#[trigger] ops[x as int].deps@[t].0 as int)
            &&& forall|y: int| #[trigger] runnable(ops, finished(ev, k), popped(ev, k), y) ==> x <= y
        },
        ev[k] matches SchedEvent::Pop(None) ==> forall|y: int| !#[trigger] runnable(ops, finished(ev, k), popped(ev, k), y),
{
    lemma_run_state(ops, views, ev, k);
    let v = views[k];
    assert(sched_step(v, views[k + 1], ev[k]));
    match ev[k] {
        SchedEvent::Pop(r) => {
            match r {
                Some(x) => {
                    law_pop_keeps_run(v, ops, finished(ev, k), popped(ev, k), x);
                },
                None => {
                    law_pop_keeps_run(v, ops, finished(ev, k), popped(ev, k), 0);
                },
            }
        },
        _ => {},
    }
}

} // verus!
