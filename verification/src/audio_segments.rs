//! Scheduling audio over a render range: which leaves are heard on which frames, grouped
//! into contiguous runs that become mix segments.
//!
//! The frame loop (expression evaluation, decoding, probing) runs outside; each frame it
//! hands the tree's time and visibility to [`AudioRunBuilder::observe_frame`] and turns the
//! closed runs it gets back into segments.
use vstd::prelude::*;
use crate::audio::{frame_to_sample, spec_frame_to_sample};
use crate::error::WavyteError;
use crate::plan::NodeIdx;
use crate::schema::CollectionMode;
use crate::time::NodeTimeCtx;
use crate::timeline::{Fps, FrameRange};
use crate::tree::{asset_is_audio_capable, audio_capable, AssetKind, NodeIR, NodeKindIR, VisibilityState};

verus! {

/// The audio range must be non-empty and end within the composition.
pub fn check_audio_range(range: FrameRange, duration_frames: u64) -> (r: Result<(), WavyteError>)
    ensures
        range.end.0 <= range.start.0 ==> (r matches Err(WavyteError::Validation(m)) && m@ == "audio manifest range must be non-empty"@),
        range.start.0 < range.end.0 && range.end.0 > duration_frames ==> (r matches Err(WavyteError::Validation(m)) && m@ == "audio manifest range must be within composition duration"@),
        range.start.0 < range.end.0 && range.end.0 <= duration_frames ==> r is Ok,
{
    if range.is_empty() {
        return Err(WavyteError::validation("audio manifest range must be non-empty"));
    }
    if range.end.0 > duration_frames {
        return Err(WavyteError::validation("audio manifest range must be within composition duration"));
    }
    Ok(())
}

/// A run of frames in which a leaf was heard: first and last global frame, and the leaf's
/// local frame at each.
#[derive(Debug, Clone, Copy, PartialEq, Eq)]
pub struct SegState {
    /// First global frame of the run.
    pub start_global_frame: u64,
    /// Local frame of the leaf at the first frame.
    pub start_local_frame: u64,
    /// Last global frame of the run.
    pub last_global_frame: u64,
    /// Local frame of the leaf at the last frame.
    pub last_local_frame: u64,
}

/// A finished run of one leaf.
#[derive(Debug, Clone, Copy, PartialEq, Eq)]
pub struct ClosedRun {
    /// The leaf.
    pub node: NodeIdx,
    /// Its run.
    pub run: SegState,
}

/// Timeline sample span `[start, end)` of a run inside a render range starting at
/// `range_start`: the run's first frame and one past its last, relative to the range start
/// (saturating at `0`), converted to samples.
pub fn run_sample_span(run: SegState, range_start: u64, fps: Fps, sample_rate: u32) -> (r: (u64, u64))
    requires
        fps.num > 0,
        run.last_global_frame < u64::MAX,
    ensures
        r.0 == spec_frame_to_sample(if run.start_global_frame >= range_start { (run.start_global_frame - range_start) as u64 } else { 0 }, fps, sample_rate),
        r.1 == spec_frame_to_sample(if run.last_global_frame + 1 >= range_start { (run.last_global_frame + 1 - range_start) as u64 } else { 0 }, fps, sample_rate),
{
    let s = frame_to_sample(run.start_global_frame.saturating_sub(range_start), fps, sample_rate);
    let e = frame_to_sample((run.last_global_frame + 1).saturating_sub(range_start), fps, sample_rate);
    (s, e)
}

/// The run continues when the frame and the local frame both advance by one.
pub open spec fn continues(st: SegState, gf: u64, local: u64) -> bool {
    st.last_global_frame + 1 == gf && st.last_local_frame + 1 == local
}

/// A run that starts at `gf` with local frame `local`.
pub open spec fn fresh(gf: u64, local: u64) -> SegState {
    SegState { start_global_frame: gf, start_local_frame: local, last_global_frame: gf, last_local_frame: local }
}

/// State of one leaf after a frame in which it was heard at `h` (or not heard).
pub open spec fn next_state(old: Option<SegState>, h: Option<u64>, gf: u64) -> Option<SegState> {
    match h {
        Some(l) => match old {
            Some(st) => if continues(st, gf, l) {
                Some(SegState { last_global_frame: gf, last_local_frame: l, ..st })
            } else {
                Some(fresh(gf, l))
            },
            None => Some(fresh(gf, l)),
        },
        None => match old {
            Some(st) => if st.last_global_frame == gf { old } else { None },
            None => None,
        },
    }
}

/// The leaf was heard but its run broke: the old run closes before the new one starts.
pub open spec fn broken(old: Option<SegState>, h: Option<u64>, gf: u64) -> bool {
    old is Some && h is Some && !continues(old->0, gf, h->0)
}

/// The leaf was not heard this frame: its run closes.
pub open spec fn stale(old: Option<SegState>, h: Option<u64>, gf: u64) -> bool {
    old is Some && h is None && old->0.last_global_frame != gf
}

/// Runs closed among leaves `0..k` because they broke, in leaf order.
pub open spec fn broken_runs(olds: Seq<Option<SegState>>, hs: Seq<Option<u64>>, gf: u64, k: int) -> Seq<ClosedRun>
    decreases k,
{
    if k <= 0 {
        Seq::empty()
    } else {
        let prev = broken_runs(olds, hs, gf, k - 1);
        if broken(olds[k - 1], hs[k - 1], gf) {
            prev.push(ClosedRun { node: NodeIdx((k - 1) as u32), run: olds[k - 1]->0 })
        } else {
            prev
        }
    }
}

/// Runs closed among leaves `0..k` because the leaf went silent, in leaf order.
pub open spec fn stale_runs(olds: Seq<Option<SegState>>, hs: Seq<Option<u64>>, gf: u64, k: int) -> Seq<ClosedRun>
    decreases k,
{
    if k <= 0 {
        Seq::empty()
    } else {
        let prev = stale_runs(olds, hs, gf, k - 1);
        if stale(olds[k - 1], hs[k - 1], gf) {
            prev.push(ClosedRun { node: NodeIdx((k - 1) as u32), run: olds[k - 1]->0 })
        } else {
            prev
        }
    }
}

/// Open runs among leaves `0..k`, in leaf order.
pub open spec fn open_runs(sts: Seq<Option<SegState>>, k: int) -> Seq<ClosedRun>
    decreases k,
{
    if k <= 0 {
        Seq::empty()
    } else {
        let prev = open_runs(sts, k - 1);
        match sts[k - 1] {
            Some(st) => prev.push(ClosedRun { node: NodeIdx((k - 1) as u32), run: st }),
            None => prev,
        }
    }
}

/// Whether node `i` is a switch with an audio-capable descendant.
pub open spec fn audio_switch(nodes: Seq<NodeIR>, has_audio: Seq<bool>, i: int) -> bool {
    &&& nodes[i].kind matches NodeKindIR::Collection { mode, .. }
    &&& mode == CollectionMode::Switch
    &&& has_audio[i]
}

/// What a visible leaf contributes this frame: its sampling frame if its asset can carry
/// audio, else nothing.
pub open spec fn heard(nodes: Seq<NodeIR>, assets: Seq<AssetKind>, vis: Seq<bool>, tc: Seq<NodeTimeCtx>, i: int) -> Option<u64> {
    if vis[i] {
        match nodes[i].kind {
            NodeKindIR::Leaf { asset } => if audio_capable(assets, asset) {
                Some(sample_frame(tc[i]))
            } else {
                None
            },
            _ => None,
        }
    } else {
        None
    }
}

/// Sampling frame: the local frame clamped to `[0, duration - 1]` (`0` for no duration).
pub open spec fn sample_frame(t: NodeTimeCtx) -> u64 {
    if t.duration_frames == 0 {
        0
    } else if t.local_frame_i64 < 0 {
        0
    } else if t.local_frame_i64 > t.duration_frames - 1 {
        (t.duration_frames - 1) as u64
    } else {
        t.local_frame_i64 as u64
    }
}

/// A run advances the leaf's clock and the timeline together: as many local as global frames.
pub open spec fn run_ok(st: SegState) -> bool {
    st.start_global_frame <= st.last_global_frame
        && st.last_global_frame - st.start_global_frame == st.last_local_frame - st.start_local_frame
}

/// Every open run is in lockstep.
pub open spec fn runs_ok(sts: Seq<Option<SegState>>) -> bool {
    forall|i: int| 0 <= i < sts.len() && (#[trigger] sts[i]) is Some ==> run_ok(sts[i]->0)
}

proof fn lemma_closed_from_open(olds: Seq<Option<SegState>>, hs: Seq<Option<u64>>, gf: u64, k: int)
    requires
        runs_ok(olds),
        0 <= k <= olds.len(),
        hs.len() == olds.len(),
    ensures
        forall|j: int| 0 <= j < broken_runs(olds, hs, gf, k).len() ==> run_ok(#[trigger] broken_runs(olds, hs, gf, k)[j].run),
        forall|j: int| 0 <= j < stale_runs(olds, hs, gf, k).len() ==> run_ok(#[trigger] stale_runs(olds, hs, gf, k)[j].run),
    decreases k,
{
    if k > 0 {
        lemma_closed_from_open(olds, hs, gf, k - 1);
        assert(olds[k - 1] is Some ==> run_ok(olds[k - 1]->0));
        let b0 = broken_runs(olds, hs, gf, k - 1);
        let b1 = broken_runs(olds, hs, gf, k);
        assert forall|j: int| 0 <= j < b1.len() implies run_ok(#[trigger] b1[j].run) by {
            if j < b0.len() {
                assert(b1[j] == b0[j]);
            }
        }
        let s0 = stale_runs(olds, hs, gf, k - 1);
        let s1 = stale_runs(olds, hs, gf, k);
        assert forall|j: int| 0 <= j < s1.len() implies run_ok(#[trigger] s1[j].run) by {
            if j < s0.len() {
                assert(s1[j] == s0[j]);
            }
        }
    }
}

/// Law: whatever each leaf contributes on a frame, runs stay in lockstep (a run covers as
/// many local frames as global frames), both the runs that stay open and those that close.
pub proof fn law_runs_advance_in_lockstep(olds: Seq<Option<SegState>>, hs: Seq<Option<u64>>, gf: u64)
    requires
        runs_ok(olds),
        hs.len() == olds.len(),
    ensures
        runs_ok(Seq::new(olds.len(), |i: int| next_state(olds[i], hs[i], gf))),
        forall|j: int| 0 <= j < broken_runs(olds, hs, gf, olds.len() as int).len()
            ==> run_ok(#[trigger] broken_runs(olds, hs, gf, olds.len() as int)[j].run),
        forall|j: int| 0 <= j < stale_runs(olds, hs, gf, olds.len() as int).len()
            ==> run_ok(#[trigger] stale_runs(olds, hs, gf, olds.len() as int)[j].run),
{
    lemma_closed_from_open(olds, hs, gf, olds.len() as int);
    let ns = Seq::new(olds.len(), |i: int| next_state(olds[i], hs[i], gf));
    assert forall|i: int| 0 <= i < ns.len() && (#[trigger] ns[i]) is Some implies run_ok(ns[i]->0) by {
        assert(olds[i] is Some ==> run_ok(olds[i]->0));
    }
}

/// Per-leaf audio runs and, per audio-carrying switch, the active child first seen.
pub struct AudioRunBuilder {
    states: Vec<Option<SegState>>,
    seen: Vec<Option<NodeIdx>>,
}

impl AudioRunBuilder {
    /// Open runs, one slot per node.
    pub closed spec fn states(&self) -> Seq<Option<SegState>> {
        self.states@
    }

    /// First active child seen per switch.
    pub closed spec fn seen(&self) -> Seq<Option<NodeIdx>> {
        self.seen@
    }

    /// A builder for `n` nodes with nothing heard yet.
    pub fn new(n: usize) -> (b: Self)
        ensures
            b.states() == Seq::new(n as nat, |_i: int| None::<SegState>),
            b.seen() == Seq::new(n as nat, |_i: int| None::<NodeIdx>),
    {
        let mut states: Vec<Option<SegState>> = Vec::new();
        let mut seen: Vec<Option<NodeIdx>> = Vec::new();
        let mut k: usize = 0;
        while k < n
            invariant
                k <= n,
                states@ == Seq::new(k as nat, |_i: int| None::<SegState>),
                seen@ == Seq::new(k as nat, |_i: int| None::<NodeIdx>),
            decreases n - k,
        {
            states.push(None);
            seen.push(None);
            k = k + 1;
            assert(states@ =~= Seq::new(k as nat, |_i: int| None::<SegState>));
            assert(seen@ =~= Seq::new(k as nat, |_i: int| None::<NodeIdx>));
        }
        AudioRunBuilder { states, seen }
    }

    /// Check that every visible switch carrying audio keeps the active child it first
    /// showed; record the first one seen.
    fn check_switches(&mut self, nodes: &[NodeIR], has_audio: &[bool], vis: &VisibilityState) -> (r: Result<(), WavyteError>)
        requires
            old(self).seen().len() == nodes@.len(),
            has_audio@.len() == nodes@.len(),
            vis.node_visible@.len() == nodes@.len(),
            vis.switch_active_child@.len() == nodes@.len(),
        ensures
            final(self).states() == old(self).states(),
            final(self).seen().len() == nodes@.len(),
            r is Ok <==> (forall|i: int| 0 <= i < nodes@.len() && vis.node_visible@[i] && audio_switch(nodes@, has_audio@, i)
                && old(self).seen()[i] is Some ==> vis.switch_active_child@[i] == old(self).seen()[i]),
            r is Ok ==> forall|i: int| 0 <= i < nodes@.len() ==> #[trigger] final(self).seen()[i] == (
                if vis.node_visible@[i] && audio_switch(nodes@, has_audio@, i) && old(self).seen()[i] is None {
                    vis.switch_active_child@[i]
                } else {
                    old(self).seen()[i]
                }),
            r matches Err(e) ==> e matches WavyteError::Validation(m) && m@ == "audio mixing requires switch.active to be constant over the render range"@,
    {
        let n = nodes.len();
        let mut i: usize = 0;
        while i < n
            invariant
                i <= n,
                n == nodes@.len(),
                has_audio@.len() == n,
                vis.node_visible@.len() == n,
                vis.switch_active_child@.len() == n,
                self.states() == old(self).states(),
                self.seen().len() == n,
                forall|j: int| i <= j < n ==> self.seen()[j] == old(self).seen()[j],
                forall|j: int| 0 <= j < i && vis.node_visible@[j] && audio_switch(nodes@, has_audio@, j)
                    && old(self).seen()[j] is Some ==> vis.switch_active_child@[j] == old(self).seen()[j],
                forall|j: int| 0 <= j < i ==> #[trigger] self.seen()[j] == (
                    if vis.node_visible@[j] && audio_switch(nodes@, has_audio@, j) && old(self).seen()[j] is None {
                        vis.switch_active_child@[j]
                    } else {
                        old(self).seen()[j]
                    }),
            decreases n - i,
        {
            if vis.node_visible[i] && has_audio[i] {
                let is_switch = match &nodes[i].kind {
                    NodeKindIR::Collection { mode, .. } => match mode {
                        CollectionMode::Switch => true,
                        _ => false,
                    },
                    _ => false,
                };
                if is_switch {
                    let active = vis.switch_active_child[i];
                    match self.seen[i] {
                        Some(prev) => {
                            let same = match active {
                                Some(a) => a.0 == prev.0,
                                None => false,
                            };
                            if !same {
                                return Err(WavyteError::validation("audio mixing requires switch.active to be constant over the render range"));
                            }
                        },
                        None => {
                            if let Some(a) = active {
                                self.seen.set(i, Some(a));
                            }
                        },
                    }
                }
            }
            i = i + 1;
        }
        Ok(())
    }

    /// Advance every leaf's run by one frame given what each node contributes (`h[i]`):
    /// returns the runs that closed, first those that broke, then those that went silent,
    /// each group in node order.
    fn step(&mut self, gf: u64, h: &Vec<Option<u64>>) -> (closed: Vec<ClosedRun>)
        requires
            h@.len() == old(self).states().len(),
            old(self).states().len() <= 0x1_0000_0000,
        ensures
            final(self).seen() == old(self).seen(),
            final(self).states().len() == old(self).states().len(),
            forall|i: int| 0 <= i < h@.len() ==> #[trigger] final(self).states()[i] == next_state(old(self).states()[i], h@[i], gf),
            closed@ == broken_runs(old(self).states(), h@, gf, h@.len() as int) + stale_runs(old(self).states(), h@, gf, h@.len() as int),
    {
        let n = h.len();
        let ghost olds = self.states@;
        let mut closed: Vec<ClosedRun> = Vec::new();
        let mut i: usize = 0;
        while i < n
            invariant
                i <= n,
                n == h@.len(),
                n == olds.len(),
                n <= 0x1_0000_0000,
                self.seen() == old(self).seen(),
                olds == old(self).states(),
                self.states@.len() == n,
                forall|j: int| i <= j < n ==> self.states@[j] == olds[j],
                forall|j: int| 0 <= j < i ==> #[trigger] self.states@[j] == (if h@[j] is Some { next_state(olds[j], h@[j], gf) } else { olds[j] }),
                closed@ == broken_runs(olds, h@, gf, i as int),
            decreases n - i,
        {
            if let Some(l) = h[i] {
                let ns = match self.states[i] {
                    Some(st) => {
                        let cont = st.last_global_frame < gf && gf - st.last_global_frame == 1
                            && st.last_local_frame < l && l - st.last_local_frame == 1;
                        if cont {
                            SegState { last_global_frame: gf, last_local_frame: l, ..st }
                        } else {
                            closed.push(ClosedRun { node: NodeIdx(i as u32), run: st });
                            SegState { start_global_frame: gf, start_local_frame: l, last_global_frame: gf, last_local_frame: l }
                        }
                    },
                    None => SegState { start_global_frame: gf, start_local_frame: l, last_global_frame: gf, last_local_frame: l },
                };
                self.states.set(i, Some(ns));
            }
            i = i + 1;
        }
        let ghost mid = self.states@;
        let mut i: usize = 0;
        while i < n
            invariant
                i <= n,
                n == h@.len(),
                n == olds.len(),
                n <= 0x1_0000_0000,
                self.seen() == old(self).seen(),
                olds == old(self).states(),
                self.states@.len() == n,
                forall|j: int| 0 <= j < n ==> #[trigger] mid[j] == (if h@[j] is Some { next_state(olds[j], h@[j], gf) } else { olds[j] }),
                forall|j: int| i <= j < n ==> self.states@[j] == mid[j],
                forall|j: int| 0 <= j < i ==> #[trigger] self.states@[j] == next_state(olds[j], h@[j], gf),
                closed@ == broken_runs(olds, h@, gf, n as int) + stale_runs(olds, h@, gf, i as int),
            decreases n - i,
        {
            assert(self.states@[i as int] == mid[i as int]);
            assert(mid[i as int] == (if h@[i as int] is Some { next_state(olds[i as int], h@[i as int], gf) } else { olds[i as int] }));
            if h[i].is_none() {
                if let Some(st) = self.states[i] {
                    if st.last_global_frame != gf {
                        closed.push(ClosedRun { node: NodeIdx(i as u32), run: st });
                        self.states.set(i, None);
                    }
                }
            }
            proof {
                assert(stale_runs(olds, h@, gf, i + 1) == (if stale(olds[i as int], h@[i as int], gf) {
                    stale_runs(olds, h@, gf, i as int).push(ClosedRun { node: NodeIdx(i as u32), run: olds[i as int]->0 })
                } else {
                    stale_runs(olds, h@, gf, i as int)
                }));
                assert(broken_runs(olds, h@, gf, n as int) + stale_runs(olds, h@, gf, i + 1)
                    =~= closed@);
                assert(self.states@[i as int] == next_state(olds[i as int], h@[i as int], gf));
            }
            i = i + 1;
        }
        closed
    }

    /// One frame of the render range: check the switch constraint, then advance every
    /// audio leaf's run with what it contributes (`heard`) and return the runs that closed.
    pub fn observe_frame(&mut self, gf: u64, nodes: &[NodeIR], assets: &[AssetKind], has_audio: &[bool], vis: &VisibilityState, tc: &[NodeTimeCtx]) -> (r: Result<Vec<ClosedRun>, WavyteError>)
        requires
            old(self).states().len() == nodes@.len(),
            old(self).seen().len() == nodes@.len(),
            nodes@.len() <= 0x1_0000_0000,
            has_audio@.len() == nodes@.len(),
            vis.node_visible@.len() == nodes@.len(),
            vis.switch_active_child@.len() == nodes@.len(),
            tc@.len() == nodes@.len(),
        ensures
            r is Ok <==> (forall|i: int| 0 <= i < nodes@.len() && vis.node_visible@[i] && audio_switch(nodes@, has_audio@, i)
                && old(self).seen()[i] is Some ==> vis.switch_active_child@[i] == old(self).seen()[i]),
            r matches Err(e) ==> e matches WavyteError::Validation(m) && m@ == "audio mixing requires switch.active to be constant over the render range"@,
            final(self).states().len() == nodes@.len(),
            final(self).seen().len() == nodes@.len(),
            r matches Ok(closed) ==> {
                let hs = Seq::new(nodes@.len(), |i: int| heard(nodes@, assets@, vis.node_visible@, tc@, i));
                &&& closed@ == broken_runs(old(self).states(), hs, gf, hs.len() as int) + stale_runs(old(self).states(), hs, gf, hs.len() as int)
                &&& forall|i: int| 0 <= i < nodes@.len() ==> #[trigger] final(self).states()[i] == next_state(old(self).states()[i], hs[i], gf)
                &&& forall|i: int| 0 <= i < nodes@.len() ==> #[trigger] final(self).seen()[i] == (
                    if vis.node_visible@[i] && audio_switch(nodes@, has_audio@, i) && old(self).seen()[i] is None {
                        vis.switch_active_child@[i]
                    } else {
                        old(self).seen()[i]
                    })
            },
    {
        match self.check_switches(nodes, has_audio, vis) {
            Ok(()) => {},
            Err(e) => return Err(e),
        }
        let ghost seen1 = self.seen();
        let n = nodes.len();
        let mut hs: Vec<Option<u64>> = Vec::new();
        let mut i: usize = 0;
        while i < n
            invariant
                i <= n,
                n == nodes@.len(),
                vis.node_visible@.len() == n,
                tc@.len() == n,
                hs@.len() == i,
                forall|j: int| 0 <= j < i ==> #[trigger] hs@[j] == heard(nodes@, assets@, vis.node_visible@, tc@, j),
            decreases n - i,
        {
            let v: Option<u64> = if vis.node_visible[i] {
                match &nodes[i].kind {
                    NodeKindIR::Leaf { asset } => if asset_is_audio_capable(assets, *asset) {
                        Some(tc[i].sample_frame_u64())
                    } else {
                        None
                    },
                    _ => None,
                }
            } else {
                None
            };
            hs.push(v);
            i = i + 1;
        }
        proof {
            assert(hs@ =~= Seq::new(nodes@.len(), |i: int| heard(nodes@, assets@, vis.node_visible@, tc@, i)));
        }
        let closed = self.step(gf, &hs);
        Ok(closed)
    }

    /// Close every run still open at the end of the range, in node order.
    pub fn finish(self) -> (closed: Vec<ClosedRun>)
        requires
            self.states().len() <= 0x1_0000_0000,
        ensures
            closed@ == open_runs(self.states(), self.states().len() as int),
    {
        let n = self.states.len();
        let mut closed: Vec<ClosedRun> = Vec::new();
        let mut i: usize = 0;
        while i < n
            invariant
                i <= n,
                n == self.states@.len(),
                n <= 0x1_0000_0000,
                closed@ == open_runs(self.states@, i as int),
            decreases n - i,
        {
            if let Some(st) = self.states[i] {
                closed.push(ClosedRun { node: NodeIdx(i as u32), run: st });
            }
            i = i + 1;
        }
        closed
    }
}

} // verus!
