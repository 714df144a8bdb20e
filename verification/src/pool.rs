//! Bounded pool of reusable surfaces, bucketed by `(width, height, format)`.
//!
//! The pool keeps released surfaces for reuse up to a per-bucket count and a global byte cap,
//! and counts what it allocates, keeps and drops. It is generic over the surface type; the
//! caller allocates a new surface when [`SurfacePool::borrow`] has none to give.
use vstd::prelude::*;
use crate::plan::{PixelFormat, SurfaceDesc};
use crate::sink::SurfacePoolOpts;

verus! {

/// Bucket key of a surface.
#[derive(Debug, Clone, Copy, PartialEq, Eq)]
pub struct SurfaceKey {
    /// Width in pixels.
    pub w: u32,
    /// Height in pixels.
    pub h: u32,
    /// Pixel format.
    pub format: PixelFormat,
}

/// Bytes of a surface with key `k` (`w * h * 4`, saturating at `usize::MAX`).
pub open spec fn key_bytes(k: SurfaceKey) -> nat {
    let b = k.w as int * k.h as int * 4;
    if b > usize::MAX { usize::MAX as nat } else { b as nat }
}

impl SurfaceKey {
    /// Key of a surface description.
    pub fn from_desc(desc: SurfaceDesc) -> (k: Self)
        ensures
            k.w == desc.width && k.h == desc.height && k.format == desc.format,
    {
        SurfaceKey { w: desc.width, h: desc.height, format: desc.format }
    }

    /// Bytes of a surface with this key.
    pub fn byte_len(self) -> (r: usize)
        ensures
            r == key_bytes(self),
    {
        let w = self.w as usize;
        let h = self.h as usize;
        let m = usize::MAX;
        if h > 0 && w > m / h {
            assert(w as int * h as int > m) by (nonlinear_arith)
                requires w > m / h, h > 0;
            assert(w as int * h as int * 4 > m) by (nonlinear_arith)
                requires w as int * h as int > m;
            return usize::MAX;
        }
        assert(w as int * h as int <= m) by (nonlinear_arith)
            requires h == 0 || w <= m / h, h >= 0, w >= 0, m > 0;
        let px: usize = w * h;
        match self.format {
            PixelFormat::Rgba8Premul => {
                if px > m / 4 {
                    assert(px as int * 4 > m) by (nonlinear_arith)
                        requires px > m / 4;
                    usize::MAX
                } else {
                    px * 4
                }
            },
        }
    }
}

/// Pool counters.
#[derive(Debug, Clone, Copy, PartialEq, Eq)]
pub struct SurfacePoolStats {
    /// Surfaces currently kept.
    pub retained_surfaces: usize,
    /// Bytes currently kept.
    pub retained_bytes: usize,
    /// Surfaces the caller had to allocate.
    pub alloc_surfaces: u64,
    /// Bytes the caller had to allocate.
    pub alloc_bytes: u64,
    /// Released surfaces not kept.
    pub dropped_on_release: u64,
}

/// `v + 1`, saturating.
pub open spec fn inc_sat(v: u64) -> u64 {
    if v == u64::MAX { v } else { (v + 1) as u64 }
}

/// `v + d`, saturating.
pub open spec fn add_sat64(v: u64, d: int) -> u64 {
    if v + d > u64::MAX { u64::MAX } else { (v + d) as u64 }
}

fn same_format(a: PixelFormat, b: PixelFormat) -> (r: bool)
    ensures
        r == (a == b),
{
    match (a, b) {
        (PixelFormat::Rgba8Premul, PixelFormat::Rgba8Premul) => true,
    }
}

struct Bucket<T> {
    key: SurfaceKey,
    surfaces: Vec<T>,
}

/// Pool of reusable surfaces.
pub struct SurfacePool<T> {
    opts: SurfacePoolOpts,
    stats: SurfacePoolStats,
    buckets: Vec<Bucket<T>>,
}

/// Number of surfaces kept in the first `m` buckets.
pub open spec fn count_upto<T>(bs: Seq<(SurfaceKey, Seq<T>)>, m: int) -> nat
    decreases m,
{
    if m <= 0 || m > bs.len() { 0 } else { count_upto(bs, m - 1) + bs[m - 1].1.len() }
}

/// Bytes kept in the first `m` buckets.
pub open spec fn bytes_upto<T>(bs: Seq<(SurfaceKey, Seq<T>)>, m: int) -> nat
    decreases m,
{
    if m <= 0 || m > bs.len() { 0 } else { bytes_upto(bs, m - 1) + bs[m - 1].1.len() * key_bytes(bs[m - 1].0) }
}

/// Index of the bucket with key `k`, if any.
pub open spec fn bucket_of<T>(bs: Seq<(SurfaceKey, Seq<T>)>, k: SurfaceKey) -> Option<int> {
    if exists|i: int| 0 <= i < bs.len() && bs[i].0 == k {
        Some(choose|i: int| 0 <= i < bs.len() && bs[i].0 == k)
    } else {
        None
    }
}

proof fn lemma_upto_update<T>(bs: Seq<(SurfaceKey, Seq<T>)>, i: int, s: Seq<T>, m: int)
    requires
        0 <= i < bs.len(),
        0 <= m <= bs.len(),
    ensures
        count_upto(bs.update(i, (bs[i].0, s)), m) + (if i < m { bs[i].1.len() } else { 0 })
            == count_upto(bs, m) + (if i < m { s.len() } else { 0 }),
        bytes_upto(bs.update(i, (bs[i].0, s)), m) + (if i < m { bs[i].1.len() * key_bytes(bs[i].0) } else { 0 })
            == bytes_upto(bs, m) + (if i < m { s.len() * key_bytes(bs[i].0) } else { 0 }),
    decreases m,
{
    if m > 0 {
        lemma_upto_update(bs, i, s, m - 1);
    }
}

proof fn lemma_upto_push<T>(bs: Seq<(SurfaceKey, Seq<T>)>, k: SurfaceKey, m: int)
    requires
        0 <= m <= bs.len(),
    ensures
        count_upto(bs.push((k, Seq::empty())), m) == count_upto(bs, m),
        bytes_upto(bs.push((k, Seq::empty())), m) == bytes_upto(bs, m),
    decreases m,
{
    if m > 0 {
        lemma_upto_push(bs, k, m - 1);
    }
}

impl<T> SurfacePool<T> {
    /// Buckets: key and kept surfaces.
    pub closed spec fn buckets_view(&self) -> Seq<(SurfaceKey, Seq<T>)> {
        Seq::new(self.buckets@.len(), |i: int| (self.buckets@[i].key, self.buckets@[i].surfaces@))
    }

    /// Options.
    pub closed spec fn opts_view(&self) -> SurfacePoolOpts {
        self.opts
    }

    /// Counters.
    pub closed spec fn stats_view(&self) -> SurfacePoolStats {
        self.stats
    }

    /// Bucket keys are distinct; no bucket holds more than the per-bucket cap; the kept counts
    /// and bytes match the buckets and stay within the byte cap.
    pub closed spec fn wf(&self) -> bool {
        let bs = self.buckets_view();
        &&& forall|i: int, j: int| 0 <= i < j < bs.len() ==> bs[i].0 != bs[j].0
        &&& forall|i: int| 0 <= i < bs.len() ==> (#[trigger] bs[i]).1.len() <= self.opts.max_surfaces_per_bucket
        &&& self.stats.retained_surfaces == count_upto(bs, bs.len() as int)
        &&& self.stats.retained_bytes == bytes_upto(bs, bs.len() as int)
        &&& self.stats.retained_bytes <= self.opts.max_pool_bytes
    }

    /// An empty pool.
    pub fn new(opts: SurfacePoolOpts) -> (p: Self)
        ensures
            p.wf(),
            p.opts_view() == opts,
            p.buckets_view() == Seq::<(SurfaceKey, Seq<T>)>::empty(),
            p.stats_view() == (SurfacePoolStats { retained_surfaces: 0, retained_bytes: 0, alloc_surfaces: 0, alloc_bytes: 0, dropped_on_release: 0 }),
    {
        let p = SurfacePool {
            opts,
            stats: SurfacePoolStats { retained_surfaces: 0, retained_bytes: 0, alloc_surfaces: 0, alloc_bytes: 0, dropped_on_release: 0 },
            buckets: Vec::new(),
        };
        assert(p.buckets_view() =~= Seq::<(SurfaceKey, Seq<T>)>::empty());
        p
    }

    /// Current counters.
    pub fn stats(&self) -> (s: SurfacePoolStats)
        ensures
            s == self.stats_view(),
    {
        self.stats
    }

    fn find_bucket(&self, key: SurfaceKey) -> (r: Option<usize>)
        requires
            self.wf(),
        ensures
            r is Some <==> bucket_of(self.buckets_view(), key) is Some,
            r matches Some(i) ==> i < self.buckets@.len() && bucket_of(self.buckets_view(), key) == Some(i as int)
                && self.buckets_view()[i as int].0 == key,
    {
        let ghost bs = self.buckets_view();
        let n = self.buckets.len();
        let mut i: usize = 0;
        while i < n
            invariant
                n == self.buckets@.len(),
                bs == self.buckets_view(),
                bs.len() == n,
                forall|a: int, b: int| 0 <= a < b < bs.len() ==> bs[a].0 != bs[b].0,
                i <= n,
                forall|j: int| 0 <= j < i ==> bs[j].0 != key,
            decreases n - i,
        {
            let k = self.buckets[i].key;
            if k.w == key.w && k.h == key.h && same_format(k.format, key.format) {
                proof {
                    assert(bs[i as int].0 == key);
                    let c = choose|c: int| 0 <= c < bs.len() && bs[c].0 == key;
                    if c != i {
                        if c < i { assert(bs[c].0 != key); } else { assert(bs[i as int].0 != bs[c].0); }
                    }
                }
                return Some(i);
            }
            i = i + 1;
        }
        None
    }

    /// Take a kept surface for `desc`, if its bucket holds one (the most recently released).
    /// Otherwise count an allocation of the caller's and return `None`.
    pub fn borrow(&mut self, desc: SurfaceDesc) -> (r: Option<T>)
        requires
            old(self).wf(),
        ensures
            final(self).wf(),
            final(self).opts_view() == old(self).opts_view(),
            ({
                let k = SurfaceKey { w: desc.width, h: desc.height, format: desc.format };
                let bs = old(self).buckets_view();
                let st = old(self).stats_view();
                match bucket_of(bs, k) {
                    Some(i) if bs[i].1.len() > 0 => {
                        &&& r == Some(bs[i].1.last())
                        &&& final(self).buckets_view() == bs.update(i, (k, bs[i].1.drop_last()))
                        &&& final(self).stats_view() == (SurfacePoolStats {
                            retained_surfaces: (st.retained_surfaces - 1) as usize,
                            retained_bytes: (st.retained_bytes - key_bytes(k)) as usize,
                            ..st
                        })
                    },
                    _ => {
                        &&& r is None
                        &&& final(self).buckets_view() == bs
                        &&& final(self).stats_view() == (SurfacePoolStats {
                            alloc_surfaces: inc_sat(st.alloc_surfaces),
                            alloc_bytes: add_sat64(st.alloc_bytes, key_bytes(k) as int),
                            ..st
                        })
                    },
                }
            }),
    {
        let key = SurfaceKey::from_desc(desc);
        let ghost bs = self.buckets_view();
        match self.find_bucket(key) {
            Some(bi) => {
                assert(bs[bi as int].0 == key);
                if self.buckets[bi].surfaces.len() > 0 {
                    let ghost old_s = bs[bi as int].1;
                    proof {
                        lemma_upto_update(bs, bi as int, old_s.drop_last(), bs.len() as int);
                        let kb = key_bytes(key);
                        let c = old_s.len();
                        assert(c * kb == (c - 1) * kb + kb) by (nonlinear_arith) requires c >= 1;
                    }
                    let p = self.buckets[bi].surfaces.pop();
                    let bytes = key.byte_len();
                    self.stats.retained_surfaces = self.stats.retained_surfaces - 1;
                    self.stats.retained_bytes = self.stats.retained_bytes - bytes;
                    proof {
                        assert(self.buckets_view() =~= bs.update(bi as int, (key, old_s.drop_last())));
                        assert forall|i: int| 0 <= i < self.buckets_view().len() implies (#[trigger] self.buckets_view()[i]).1.len() <= self.opts.max_surfaces_per_bucket by {
                            if i != bi { assert(self.buckets_view()[i] == bs[i]); }
                        }
                    }
                    return p;
                }
            },
            None => {},
        }
        let bytes = key.byte_len();
        self.stats.alloc_surfaces = if self.stats.alloc_surfaces == u64::MAX { u64::MAX } else { self.stats.alloc_surfaces + 1 };
        let b64 = bytes as u64;
        self.stats.alloc_bytes = if self.stats.alloc_bytes > u64::MAX - b64 { u64::MAX } else { self.stats.alloc_bytes + b64 };
        None
    }

    /// Keep a released surface for reuse, unless the pool is disabled (a zero cap), the byte
    /// cap would be exceeded, or its bucket is full; a surface not kept is counted as dropped.
    /// (A pool already holding `usize::MAX` surfaces also drops, so that its counters stay exact.)
    pub fn release(&mut self, desc: SurfaceDesc, surface: T)
        requires
            old(self).wf(),
        ensures
            final(self).wf(),
            final(self).opts_view() == old(self).opts_view(),
            ({
                let k = SurfaceKey { w: desc.width, h: desc.height, format: desc.format };
                let bs = old(self).buckets_view();
                let st = old(self).stats_view();
                let o = old(self).opts_view();
                let full = match bucket_of(bs, k) { Some(i) => bs[i].1.len() >= o.max_surfaces_per_bucket, None => false };
                if o.max_pool_bytes == 0 || o.max_surfaces_per_bucket == 0 || st.retained_bytes + key_bytes(k) > o.max_pool_bytes || full
                    || st.retained_surfaces == usize::MAX {
                    &&& final(self).stats_view() == (SurfacePoolStats { dropped_on_release: inc_sat(st.dropped_on_release), ..st })
                    &&& final(self).buckets_view() == bs
                } else {
                    &&& final(self).stats_view() == (SurfacePoolStats {
                        retained_surfaces: (st.retained_surfaces + 1) as usize,
                        retained_bytes: (st.retained_bytes + key_bytes(k)) as usize,
                        ..st
                    })
                    &&& match bucket_of(bs, k) {
                        Some(i) => final(self).buckets_view() == bs.update(i, (k, bs[i].1.push(surface))),
                        None => final(self).buckets_view() == bs.push((k, seq![surface])),
                    }
                }
            }),
    {
        if self.opts.max_pool_bytes == 0 || self.opts.max_surfaces_per_bucket == 0 {
            self.stats.dropped_on_release = if self.stats.dropped_on_release == u64::MAX { u64::MAX } else { self.stats.dropped_on_release + 1 };
            return;
        }
        let key = SurfaceKey::from_desc(desc);
        let bytes = key.byte_len();
        if bytes > self.opts.max_pool_bytes || self.stats.retained_bytes > self.opts.max_pool_bytes - bytes
            || self.stats.retained_surfaces == usize::MAX {
            self.stats.dropped_on_release = if self.stats.dropped_on_release == u64::MAX { u64::MAX } else { self.stats.dropped_on_release + 1 };
            return;
        }
        let ghost bs = self.buckets_view();
        let bi = match self.find_bucket(key) {
            Some(i) => {
                assert(bs[i as int].0 == key);
                i
            },
            None => {
                let i = self.buckets.len();
                proof {
                    lemma_upto_push(bs, key, bs.len() as int);
                }
                self.buckets.push(Bucket { key, surfaces: Vec::new() });
                proof {
                    assert(self.buckets_view() =~= bs.push((key, Seq::empty())));
                    assert forall|a: int, b: int| 0 <= a < b < self.buckets_view().len() implies self.buckets_view()[a].0 != self.buckets_view()[b].0 by {
                        if b == bs.len() {
                            assert(self.buckets_view()[a] == bs[a]);
                            assert(bs[a].0 != key);
                        }
                    }
                }
                i
            },
        };
        let ghost bs1 = self.buckets_view();
        if self.buckets[bi].surfaces.len() >= self.opts.max_surfaces_per_bucket {
            assert(bucket_of(bs, key) is Some);
            self.stats.dropped_on_release = if self.stats.dropped_on_release == u64::MAX { u64::MAX } else { self.stats.dropped_on_release + 1 };
            return;
        }
        let ghost old_s = bs1[bi as int].1;
        proof {
            lemma_upto_update(bs1, bi as int, old_s.push(surface), bs1.len() as int);
            let kb = key_bytes(key);
            let c = old_s.len();
            assert((c + 1) * kb == c * kb + kb) by (nonlinear_arith);
            assert(bs1[bi as int].0 == key);
        }
        self.buckets[bi].surfaces.push(surface);
        self.stats.retained_surfaces = self.stats.retained_surfaces + 1;
        self.stats.retained_bytes = self.stats.retained_bytes + bytes;
        proof {
            assert(self.buckets_view() =~= bs1.update(bi as int, (key, old_s.push(surface))));
            assert forall|i: int| 0 <= i < self.buckets_view().len() implies (#[trigger] self.buckets_view()[i]).1.len() <= self.opts.max_surfaces_per_bucket by {
                if i != bi { assert(self.buckets_view()[i] == bs1[i]); }
            }
        }
    }
}

/// The pool's bounds hold in every reachable state: kept bytes never exceed the byte cap, no
/// bucket holds more than the per-bucket cap, and the kept counts and bytes are the sums over
/// the kept surfaces.
pub proof fn law_pool_respects_caps<T>(p: &SurfacePool<T>)
    requires
        p.wf(),
    ensures
        p.stats_view().retained_bytes <= p.opts_view().max_pool_bytes,
        forall|i: int| 0 <= i < p.buckets_view().len() ==> (#[trigger] p.buckets_view()[i]).1.len() <= p.opts_view().max_surfaces_per_bucket,
        p.stats_view().retained_surfaces == count_upto(p.buckets_view(), p.buckets_view().len() as int),
        p.stats_view().retained_bytes == bytes_upto(p.buckets_view(), p.buckets_view().len() as int),
{
}

/// One call's effect as the contracts of `borrow` and `release` give it: from a well-formed
/// pool to a well-formed pool with the same options.
pub open spec fn pool_step<T>(a: SurfacePool<T>, b: SurfacePool<T>) -> bool {
    a.wf() ==> b.wf() && b.opts_view() == a.opts_view()
}

/// Over any run of `borrow` and `release` calls from a fresh pool (`states[k + 1]` the pool
/// after the `k`-th call), every state keeps the caps it was made with, and its kept counts and
/// bytes are the sums over the kept surfaces.
pub proof fn law_pool_run_respects_caps<T>(states: Seq<SurfacePool<T>>, k: int)
    requires
        states.len() > 0,
        states[0].wf(),
        forall|j: int| 0 <= j < states.len() - 1 ==> pool_step(#[trigger] states[j], states[j + 1]),
        0 <= k < states.len(),
    ensures
        states[k].wf(),
        states[k].opts_view() == states[0].opts_view(),
        states[k].stats_view().retained_bytes <= states[0].opts_view().max_pool_bytes,
        forall|i: int| 0 <= i < states[k].buckets_view().len() ==>
            (#[trigger] states[k].buckets_view()[i]).1.len() <= states[0].opts_view().max_surfaces_per_bucket,
        states[k].stats_view().retained_surfaces == count_upto(states[k].buckets_view(), states[k].buckets_view().len() as int),
        states[k].stats_view().retained_bytes == bytes_upto(states[k].buckets_view(), states[k].buckets_view().len() as int),
    decreases k,
{
    if k > 0 {
        law_pool_run_respects_caps(states, k - 1);
        assert(pool_step(states[k - 1], states[k]));
    }
    law_pool_respects_caps(&states[k]);
}

} // verus!
