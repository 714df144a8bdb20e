//! The evaluated frame graph: which leaves are drawn, in painter order, how they group
//! into isolated groups, and the render units the plan compiler consumes.
//!
//! Transforms and opacities are sampled by the renderer alongside; this module decides the
//! structure of the frame from the tree, its time contexts and its visibility.
use vstd::prelude::*;
use crate::error::WavyteError;
use crate::plan::{InternId, NodeIdx};
use crate::schema::CollectionMode;
use crate::time::NodeTimeCtx;
use crate::tree::{children_of, tree_wf, AssetIdx, NodeIR, NodeKindIR, TransitionSpecIR, VisibilityState};
use crate::audio_segments::sample_frame;

verus! {

/// Where a frame falls inside a transition: the transition's kind, the frame's offset from
/// the transition's start and the last offset (`0` for a one-frame transition). The eased
/// progress is `offset / denom` (`1` when `denom == 0`) passed through the easing curve.
#[derive(Debug, Clone, Copy, PartialEq, Eq)]
pub struct TransitionWindow {
    /// Transition kind.
    pub kind: InternId,
    /// Frames since the transition started.
    pub offset: u64,
    /// Last offset of the transition.
    pub denom: u64,
}

/// Entry transition window: the first `d = min(duration, node duration)` frames.
pub open spec fn window_in(spec: TransitionSpecIR, local: u64, dur: u64) -> Option<TransitionWindow> {
    let d: u64 = if (spec.duration_frames as u64) < dur { spec.duration_frames as u64 } else { dur };
    if dur == 0 || d == 0 || local >= d {
        None
    } else {
        Some(TransitionWindow { kind: spec.kind, offset: local, denom: (d - 1) as u64 })
    }
}

/// Exit transition window: the last `d = min(duration, node duration)` frames.
pub open spec fn window_out(spec: TransitionSpecIR, local: u64, dur: u64) -> Option<TransitionWindow> {
    let d: u64 = if (spec.duration_frames as u64) < dur { spec.duration_frames as u64 } else { dur };
    let start: u64 = (dur - d) as u64;
    if dur == 0 || d == 0 || local < start {
        None
    } else {
        Some(TransitionWindow { kind: spec.kind, offset: (local - start) as u64, denom: (d - 1) as u64 })
    }
}

/// The entry transition window of a node at local frame `local` of `dur` frames.
pub fn resolve_transition_in(spec: TransitionSpecIR, local: u64, dur: u64) -> (r: Option<TransitionWindow>)
    ensures
        r == window_in(spec, local, dur),
{
    if dur == 0 {
        return None;
    }
    let d = if (spec.duration_frames as u64) < dur { spec.duration_frames as u64 } else { dur };
    if d == 0 || local >= d {
        return None;
    }
    Some(TransitionWindow { kind: spec.kind, offset: local, denom: d - 1 })
}

/// The exit transition window of a node at local frame `local` of `dur` frames.
pub fn resolve_transition_out(spec: TransitionSpecIR, local: u64, dur: u64) -> (r: Option<TransitionWindow>)
    ensures
        r == window_out(spec, local, dur),
{
    if dur == 0 {
        return None;
    }
    let d = if (spec.duration_frames as u64) < dur { spec.duration_frames as u64 } else { dur };
    if d == 0 {
        return None;
    }
    let start = dur - d;
    if local < start {
        return None;
    }
    Some(TransitionWindow { kind: spec.kind, offset: local - start, denom: d - 1 })
}

/// Both transition windows of a node at its sampling frame.
pub open spec fn windows(n: NodeIR, t: NodeTimeCtx) -> (Option<TransitionWindow>, Option<TransitionWindow>) {
    (
        match n.transition_in { Some(s) => window_in(s, sample_frame(t), t.duration_frames as u64), None => None },
        match n.transition_out { Some(s) => window_out(s, sample_frame(t), t.duration_frames as u64), None => None },
    )
}

/// The transition windows of a node at its time context.
pub fn resolve_transitions(n: &NodeIR, t: NodeTimeCtx) -> (r: (Option<TransitionWindow>, Option<TransitionWindow>))
    ensures
        r == windows(*n, t),
{
    let local = t.sample_frame_u64();
    let dur = t.duration_frames_u64();
    let tin = match n.transition_in {
        Some(s) => resolve_transition_in(s, local, dur),
        None => None,
    };
    let tout = match n.transition_out {
        Some(s) => resolve_transition_out(s, local, dur),
        None => None,
    };
    (tin, tout)
}

/// A group is drawn in isolation when it has a mask, effects or a transition.
pub open spec fn requires_isolation(n: NodeIR) -> bool {
    n.mask is Some || n.has_effects || n.transition_in is Some || n.transition_out is Some
}

/// Whether a group node must be rendered into its own surface.
pub fn group_requires_isolation(n: &NodeIR) -> (r: bool)
    ensures
        r == requires_isolation(*n),
{
    n.mask.is_some() || n.has_effects || n.transition_in.is_some() || n.transition_out.is_some()
}

/// A drawn leaf: its node, asset and the group nodes enclosing it (outermost first).
#[derive(Debug, Clone)]
pub struct EvaluatedLeaf {
    /// The leaf node.
    pub node: NodeIdx,
    /// Its asset.
    pub asset: AssetIdx,
    /// Enclosing group nodes, outermost first.
    pub group_stack: Vec<NodeIdx>,
}

/// An isolated group and its leaves `leaf_start..leaf_end`.
#[derive(Debug, Clone, Copy, PartialEq, Eq)]
pub struct EvaluatedGroup {
    /// The group node.
    pub node: NodeIdx,
    /// First leaf.
    pub leaf_start: usize,
    /// One past the last leaf.
    pub leaf_end: usize,
}

/// What a render unit draws.
#[derive(Debug, Clone, Copy, PartialEq, Eq)]
pub enum RenderUnitKind {
    /// A single leaf.
    Leaf(NodeIdx),
    /// An isolated group.
    Group(NodeIdx),
}

/// A unit of top-level painting: a leaf outside isolated groups or an outermost isolated group.
#[derive(Debug, Clone, Copy, PartialEq, Eq)]
pub struct RenderUnit {
    /// What is drawn.
    pub kind: RenderUnitKind,
    /// First leaf.
    pub leaf_start: usize,
    /// One past the last leaf.
    pub leaf_end: usize,
    /// Entry transition window this frame.
    pub transition_in: Option<TransitionWindow>,
    /// Exit transition window this frame.
    pub transition_out: Option<TransitionWindow>,
}

/// The structure of one evaluated frame.
#[derive(Debug, Clone)]
pub struct EvaluatedGraph {
    /// Global frame.
    pub frame: u64,
    /// Drawn leaves in painter order.
    pub leaves: Vec<EvaluatedLeaf>,
    /// Isolated groups, in the order they close.
    pub groups: Vec<EvaluatedGroup>,
    /// Render units in painter order.
    pub units: Vec<RenderUnit>,
    /// Per node: the leaves emitted inside it this frame (`0..0` when not drawn).
    pub node_leaf_ranges: Vec<(usize, usize)>,
}

/// Abstract view of a leaf.
pub type LeafV = (NodeIdx, AssetIdx, Seq<NodeIdx>);

/// Abstract state of the emission.
pub struct EmitV {
    /// Leaves.
    pub leaves: Seq<LeafV>,
    /// Groups.
    pub groups: Seq<EvaluatedGroup>,
    /// Units.
    pub units: Seq<RenderUnit>,
    /// Per-node leaf ranges.
    pub ranges: Seq<(usize, usize)>,
}

/// Why an emission stopped.
pub enum EmitFail {
    /// Sampling the transform or opacity of this node failed.
    Sample(int),
    /// A composition reference was reached.
    CompRef,
}

/// The inputs an emission reads.
pub struct EmitIn {
    /// The tree.
    pub nodes: Seq<NodeIR>,
    /// Time contexts.
    pub tc: Seq<NodeTimeCtx>,
    /// Visibility.
    pub vis: Seq<bool>,
    /// Active switch children.
    pub sw: Seq<Option<NodeIdx>>,
    /// Per node: whether sampling its transform and opacity failed.
    pub fail: Seq<bool>,
}

/// Emission state after visiting node `idx` with enclosing groups `gs` and `iso` enclosing
/// isolated groups: an invisible node emits nothing; a leaf is appended with `gs` and, outside
/// isolated groups, becomes a unit; a group node joins `gs` for its children and, when it
/// needs isolation, is recorded as a group and (if outermost) a unit once its children are
/// done; a switch visits only its active child; other collections visit their visible
/// children in order. Every visited node records the leaves emitted inside it.
pub open spec fn emit_node(e: EmitIn, idx: int, gs: Seq<NodeIdx>, iso: nat, st: EmitV) -> Result<EmitV, EmitFail>
    decreases e.nodes.len() - idx + 1, 0int,
{
    if !(0 <= idx < e.nodes.len()) || !e.vis[idx] {
        Ok(st)
    } else if e.fail[idx] {
        Err(EmitFail::Sample(idx))
    } else {
        let n = e.nodes[idx];
        let (tin, tout) = windows(n, e.tc[idx]);
        match n.kind {
            NodeKindIR::Leaf { asset } => {
                let li = st.leaves.len();
                let unit = RenderUnit { kind: RenderUnitKind::Leaf(NodeIdx(idx as u32)), leaf_start: li as usize, leaf_end: (li + 1) as usize, transition_in: tin, transition_out: tout };
                Ok(EmitV {
                    leaves: st.leaves.push((NodeIdx(idx as u32), asset, gs)),
                    units: if iso == 0 { st.units.push(unit) } else { st.units },
                    ranges: st.ranges.update(idx, (li as usize, (li + 1) as usize)),
                    ..st
                })
            },
            NodeKindIR::CompRef => Err(EmitFail::CompRef),
            NodeKindIR::Collection { mode, children, .. } => {
                let is_group = mode == CollectionMode::Group;
                let isolate = is_group && requires_isolation(n);
                let gs2 = if is_group { gs.push(NodeIdx(idx as u32)) } else { gs };
                let iso2: nat = if isolate { iso + 1 } else { iso };
                let start = st.leaves.len();
                let sel: Option<Option<NodeIdx>> = if mode == CollectionMode::Switch { Some(e.sw[idx]) } else { None };
                match emit_children(e, idx, sel, gs2, iso2, 0, st) {
                    Ok(s2) => {
                        let end = s2.leaves.len();
                        let g = EvaluatedGroup { node: NodeIdx(idx as u32), leaf_start: start as usize, leaf_end: end as usize };
                        let u = RenderUnit { kind: RenderUnitKind::Group(NodeIdx(idx as u32)), leaf_start: start as usize, leaf_end: end as usize, transition_in: tin, transition_out: tout };
                        Ok(EmitV {
                            groups: if isolate { s2.groups.push(g) } else { s2.groups },
                            units: if isolate && iso == 0 { s2.units.push(u) } else { s2.units },
                            ranges: s2.ranges.update(idx, (start as usize, end as usize)),
                            ..s2
                        })
                    },
                    Err(f) => Err(f),
                }
            },
        }
    }
}

/// Visit children `k..` of node `p`: for a switch (`sel` is `Some`) only the active child,
/// otherwise each visible child in order.
pub open spec fn emit_children(e: EmitIn, p: int, sel: Option<Option<NodeIdx>>, gs: Seq<NodeIdx>, iso: nat, k: int, st: EmitV) -> Result<EmitV, EmitFail>
    decreases e.nodes.len() - p, children_of(e.nodes, p).len() - k,
{
    if p < 0 || p >= e.nodes.len() || k < 0 || k >= children_of(e.nodes, p).len() {
        Ok(st)
    } else {
        match sel {
            Some(active) => {
                // Only one visit: at the first step.
                if k > 0 {
                    Ok(st)
                } else {
                    match active {
                        Some(c) => if p < c.0 < e.nodes.len() { emit_node(e, c.0 as int, gs, iso, st) } else { Ok(st) },
                        None => Ok(st),
                    }
                }
            },
            None => {
                let c = children_of(e.nodes, p)[k];
                if !(p < c.0 < e.nodes.len()) {
                    Ok(st)
                } else if !e.vis[c.0 as int] {
                    emit_children(e, p, sel, gs, iso, k + 1, st)
                } else {
                    match emit_node(e, c.0 as int, gs, iso, st) {
                        Ok(s2) => emit_children(e, p, sel, gs, iso, k + 1, s2),
                        Err(f) => Err(f),
                    }
                }
            },
        }
    }
}

/// The emission inputs read from the tree, time contexts, visibility and sampling failures.
pub open spec fn emit_in(nodes: Seq<NodeIR>, tc: Seq<NodeTimeCtx>, vis: VisibilityState, fail: Seq<Option<WavyteError>>) -> EmitIn {
    EmitIn {
        nodes,
        tc,
        vis: vis.node_visible@,
        sw: vis.switch_active_child@,
        fail: Seq::new(fail.len(), |i: int| fail[i] is Some),
    }
}

/// Abstract view of emitted leaves.
pub open spec fn leaves_view(ls: Seq<EvaluatedLeaf>) -> Seq<LeafV> {
    Seq::new(ls.len(), |i: int| (ls[i].node, ls[i].asset, ls[i].group_stack@))
}

/// Every active switch child is one of the switch's children (as visibility produces).
pub open spec fn switch_children_ok(nodes: Seq<NodeIR>, sw: Seq<Option<NodeIdx>>) -> bool {
    forall|i: int| 0 <= i < nodes.len() && i < sw.len() && (#[trigger] sw[i]) is Some ==>
        exists|j: int| 0 <= j < children_of(nodes, i).len() && children_of(nodes, i)[j] == sw[i]->0
}

fn copy_stack(gs: &Vec<NodeIdx>) -> (r: Vec<NodeIdx>)
    ensures
        r@ == gs@,
{
    let mut r: Vec<NodeIdx> = Vec::new();
    let mut i: usize = 0;
    while i < gs.len()
        invariant
            i <= gs@.len(),
            r@ == gs@.subrange(0, i as int),
        decreases gs@.len() - i,
    {
        r.push(gs[i]);
        i = i + 1;
        assert(r@ =~= gs@.subrange(0, i as int));
    }
    assert(r@ =~= gs@);
    r
}

/// The error an emission failure stands for.
pub open spec fn emit_error_ok(f: Result<EmitV, EmitFail>, fail: Seq<Option<WavyteError>>, e: WavyteError) -> bool {
    match f {
        Err(EmitFail::Sample(i)) => 0 <= i < fail.len() && fail[i] == Some(e),
        Err(EmitFail::CompRef) => e matches WavyteError::Evaluation(m) && m@ == "CompRef is not implemented in v0.3 evaluator yet"@,
        Ok(_) => false,
    }
}

#[verifier::rlimit(50)]
fn rec_emit(
    nodes: &[NodeIR], tc: &[NodeTimeCtx], vis: &VisibilityState, fail: &[Option<WavyteError>],
    idx: NodeIdx, gs: &mut Vec<NodeIdx>, iso: usize,
    leaves: &mut Vec<EvaluatedLeaf>, groups: &mut Vec<EvaluatedGroup>, units: &mut Vec<RenderUnit>, ranges: &mut Vec<(usize, usize)>,
) -> (r: Result<(), WavyteError>)
    requires
        tree_wf(nodes@),
        idx.0 < nodes@.len(),
        iso <= idx.0,
        tc@.len() == nodes@.len(),
        vis.node_visible@.len() == nodes@.len(),
        vis.switch_active_child@.len() == nodes@.len(),
        switch_children_ok(nodes@, vis.switch_active_child@),
        fail@.len() == nodes@.len(),
        old(ranges)@.len() == nodes@.len(),
    ensures
        final(gs)@ == old(gs)@,
        final(ranges)@.len() == nodes@.len(),
        ({
            let s = emit_node(emit_in(nodes@, tc@, *vis, fail@), idx.0 as int, old(gs)@, iso as nat,
                EmitV { leaves: leaves_view(old(leaves)@), groups: old(groups)@, units: old(units)@, ranges: old(ranges)@ });
            match r {
                Ok(_) => s == Ok::<EmitV, EmitFail>(EmitV { leaves: leaves_view(final(leaves)@), groups: final(groups)@, units: final(units)@, ranges: final(ranges)@ }),
                Err(e) => emit_error_ok(s, fail@, e),
            }
        }),
    decreases nodes@.len() - idx.0,
{
    let ghost e = emit_in(nodes@, tc@, *vis, fail@);
    let i = idx.0 as usize;
    if !vis.node_visible[i] {
        return Ok(());
    }
    match &fail[i] {
        Some(err) => return Err(err.duplicate()),
        None => {},
    }
    assert(!e.fail[i as int]);
    let n = &nodes[i];
    let (tin, tout) = resolve_transitions(n, tc[i]);
    match &n.kind {
        NodeKindIR::Leaf { asset } => {
            let li = leaves.len();
            let stack = copy_stack(gs);
            leaves.push(EvaluatedLeaf { node: idx, asset: *asset, group_stack: stack });
            let le = leaves.len();
            if iso == 0 {
                units.push(RenderUnit { kind: RenderUnitKind::Leaf(idx), leaf_start: li, leaf_end: le, transition_in: tin, transition_out: tout });
            }
            ranges.set(i, (li, le));
            proof {
                assert(leaves_view(leaves@) =~= leaves_view(old(leaves)@).push((idx, *asset, old(gs)@)));
            }
            Ok(())
        },
        NodeKindIR::CompRef => Err(WavyteError::evaluation("CompRef is not implemented in v0.3 evaluator yet")),
        NodeKindIR::Collection { mode, children, .. } => {
            let is_group = match mode { CollectionMode::Group => true, _ => false };
            let is_switch = match mode { CollectionMode::Switch => true, _ => false };
            let isolate = is_group && group_requires_isolation(n);
            let start = leaves.len();
            if is_group {
                gs.push(idx);
            }
            let iso2: usize = if isolate { iso + 1 } else { iso };
            let ghost gs2 = gs@;
            let ghost sel: Option<Option<NodeIdx>> = if is_switch { Some(vis.switch_active_child@[i as int]) } else { None };
            let ghost st0 = EmitV { leaves: leaves_view(leaves@), groups: groups@, units: units@, ranges: ranges@ };
            let ghost st_old = EmitV { leaves: leaves_view(old(leaves)@), groups: old(groups)@, units: old(units)@, ranges: old(ranges)@ };
            assert(st0 == st_old);
            assert(emit_children(e, i as int, sel, gs2, iso2 as nat, 0, st0) is Err ==>
                emit_node(e, i as int, old(gs)@, iso as nat, st_old) == emit_children(e, i as int, sel, gs2, iso2 as nat, 0, st0));
            if is_switch {
                if children.len() > 0 {
                    match vis.switch_active_child[i] {
                        Some(c) => {
                            proof {
                                let j = choose|j: int| 0 <= j < children_of(nodes@, i as int).len() && children_of(nodes@, i as int)[j] == vis.switch_active_child@[i as int]->0;
                                assert(children_of(nodes@, i as int)[j] == c);
                            }
                            match rec_emit(nodes, tc, vis, fail, c, gs, iso2, leaves, groups, units, ranges) {
                                Ok(()) => {},
                                Err(err) => {
                                    if is_group { gs.pop(); }
                                    return Err(err);
                                },
                            }
                        },
                        None => {},
                    }
                }
            } else {
                let mut k: usize = 0;
                while k < children.len()
                    invariant
                        k <= children@.len(),
                        tree_wf(nodes@),
                        i < nodes@.len(),
                        i == idx.0,
                        iso2 <= idx.0 + 1,
                        tc@.len() == nodes@.len(),
                        vis.node_visible@.len() == nodes@.len(),
                        vis.switch_active_child@.len() == nodes@.len(),
                        switch_children_ok(nodes@, vis.switch_active_child@),
                        fail@.len() == nodes@.len(),
                        ranges@.len() == nodes@.len(),
                        children_of(nodes@, i as int) == children@,
                        gs@ == gs2,
                        is_group ==> gs2 == old(gs)@.push(idx),
                        !is_group ==> gs2 == old(gs)@,
                        emit_children(e, i as int, sel, gs2, iso2 as nat, 0, st0) is Err ==>
                            emit_node(e, i as int, old(gs)@, iso as nat, st_old) == emit_children(e, i as int, sel, gs2, iso2 as nat, 0, st0),
                        sel is None,
                        st_old == (EmitV { leaves: leaves_view(old(leaves)@), groups: old(groups)@, units: old(units)@, ranges: old(ranges)@ }),
                        e == emit_in(nodes@, tc@, *vis, fail@),
                        emit_children(e, i as int, sel, gs2, iso2 as nat, 0, st0)
                            == emit_children(e, i as int, sel, gs2, iso2 as nat, k as int,
                                EmitV { leaves: leaves_view(leaves@), groups: groups@, units: units@, ranges: ranges@ }),
                    decreases children@.len() - k,
                {
                    let c = children[k];
                    assert(i < c.0 < nodes@.len()) by {
                        assert(children_of(nodes@, i as int)[k as int] == c);
                    }
                    if vis.node_visible[c.0 as usize] {
                        let ghost cur = EmitV { leaves: leaves_view(leaves@), groups: groups@, units: units@, ranges: ranges@ };
                        proof {
                            assert(emit_children(e, i as int, sel, gs2, iso2 as nat, k as int, cur) == (match emit_node(e, c.0 as int, gs2, iso2 as nat, cur) {
                                Ok(s2) => emit_children(e, i as int, sel, gs2, iso2 as nat, k + 1, s2),
                                Err(f) => Err(f),
                            }));
                        }
                        match rec_emit(nodes, tc, vis, fail, c, gs, iso2, leaves, groups, units, ranges) {
                            Ok(()) => {},
                            Err(err) => {
                                proof {
                                    let sc = emit_node(e, c.0 as int, gs2, iso2 as nat, cur);
                                    assert(sc is Err);
                                    assert(emit_children(e, i as int, sel, gs2, iso2 as nat, k as int, cur) == sc);
                                    assert(emit_children(e, i as int, sel, gs2, iso2 as nat, 0, st0) == sc);
                                    assert(emit_node(e, i as int, old(gs)@, iso as nat, st_old) == sc);
                                    assert(emit_error_ok(sc, fail@, err));
                                }
                                if is_group {
                                    gs.pop();
                                    assert(gs@ =~= old(gs)@);
                                }
                                return Err(err);
                            },
                        }
                    }
                    k = k + 1;
                }
            }
            if is_group {
                gs.pop();
                assert(gs@ =~= old(gs)@);
            }
            let end = leaves.len();
            if isolate {
                groups.push(EvaluatedGroup { node: idx, leaf_start: start, leaf_end: end });
                if iso == 0 {
                    units.push(RenderUnit { kind: RenderUnitKind::Group(idx), leaf_start: start, leaf_end: end, transition_in: tin, transition_out: tout });
                }
            }
            ranges.set(i, (start, end));
            Ok(())
        },
    }
}

/// The structure of a frame: starting from the root with no enclosing group, emit the
/// visible tree (see [`emit_node`]). `sample_failures[i]` is the error of sampling node
/// `i`'s transform or opacity, if any; the first one met in painter order is returned.
pub fn emit_frame_graph(
    nodes: &[NodeIR], root: NodeIdx, frame: u64, tc: &[NodeTimeCtx], vis: &VisibilityState,
    sample_failures: &[Option<WavyteError>],
) -> (r: Result<EvaluatedGraph, WavyteError>)
    requires
        tree_wf(nodes@),
        root.0 < nodes@.len(),
        tc@.len() == nodes@.len(),
        vis.node_visible@.len() == nodes@.len(),
        vis.switch_active_child@.len() == nodes@.len(),
        switch_children_ok(nodes@, vis.switch_active_child@),
        sample_failures@.len() == nodes@.len(),
    ensures
        ({
            let s = emit_node(emit_in(nodes@, tc@, *vis, sample_failures@), root.0 as int, Seq::empty(), 0,
                EmitV { leaves: Seq::empty(), groups: Seq::empty(), units: Seq::empty(), ranges: Seq::new(nodes@.len(), |_i: int| (0usize, 0usize)) });
            match r {
                Ok(g) => g.frame == frame && s == Ok::<EmitV, EmitFail>(EmitV { leaves: leaves_view(g.leaves@), groups: g.groups@, units: g.units@, ranges: g.node_leaf_ranges@ }),
                Err(e) => emit_error_ok(s, sample_failures@, e),
            }
        }),
{
    let mut leaves: Vec<EvaluatedLeaf> = Vec::new();
    let mut groups: Vec<EvaluatedGroup> = Vec::new();
    let mut units: Vec<RenderUnit> = Vec::new();
    let mut ranges: Vec<(usize, usize)> = Vec::new();
    let mut gs: Vec<NodeIdx> = Vec::new();
    let n = nodes.len();
    let mut k: usize = 0;
    while k < n
        invariant
            k <= n,
            n == nodes@.len(),
            ranges@ == Seq::new(k as nat, |_i: int| (0usize, 0usize)),
        decreases n - k,
    {
        ranges.push((0, 0));
        k = k + 1;
        assert(ranges@ =~= Seq::new(k as nat, |_i: int| (0usize, 0usize)));
    }
    assert(leaves_view(leaves@) =~= Seq::empty());
    match rec_emit(nodes, tc, vis, sample_failures, root, &mut gs, 0, &mut leaves, &mut groups, &mut units, &mut ranges) {
        Ok(()) => Ok(EvaluatedGraph { frame, leaves, groups, units, node_leaf_ranges: ranges }),
        Err(e) => Err(e),
    }
}

/// Every emitted leaf is a visible leaf node of the tree, carrying that node's asset.
pub open spec fn leaves_drawn_ok(e: EmitIn, ls: Seq<LeafV>) -> bool {
    forall|k: int| 0 <= k < ls.len() ==> {
        let n = (#[trigger] ls[k]).0.0 as int;
        &&& 0 <= n < e.nodes.len()
        &&& n < e.vis.len() && e.vis[n]
        &&& e.nodes[n].kind == (NodeKindIR::Leaf { asset: ls[k].1 })
    }
}

proof fn lemma_emit_node_leaves(e: EmitIn, idx: int, gs: Seq<NodeIdx>, iso: nat, st: EmitV)
    requires
        leaves_drawn_ok(e, st.leaves),
        e.nodes.len() <= 0x1_0000_0000,
        e.vis.len() == e.nodes.len(),
    ensures
        emit_node(e, idx, gs, iso, st) matches Ok(s2) ==> leaves_drawn_ok(e, s2.leaves),
    decreases e.nodes.len() - idx + 1, 0int,
{
    if (0 <= idx < e.nodes.len()) && e.vis[idx] && !e.fail[idx] {
        let n = e.nodes[idx];
        match n.kind {
            NodeKindIR::Leaf { asset } => {
                let ls2 = st.leaves.push((NodeIdx(idx as u32), asset, gs));
                assert forall|k: int| 0 <= k < ls2.len() implies {
                    let m = (#[trigger] ls2[k]).0.0 as int;
                    &&& 0 <= m < e.nodes.len()
                    &&& m < e.vis.len() && e.vis[m]
                    &&& e.nodes[m].kind == (NodeKindIR::Leaf { asset: ls2[k].1 })
                } by {
                    if k < st.leaves.len() {
                        assert(ls2[k] == st.leaves[k]);
                    } else {
                        assert(ls2[k].0.0 as int == idx);
                    }
                }
            },
            NodeKindIR::Collection { mode, children, .. } => {
                let is_group = mode == CollectionMode::Group;
                let isolate = is_group && requires_isolation(n);
                let gs2 = if is_group { gs.push(NodeIdx(idx as u32)) } else { gs };
                let iso2: nat = if isolate { iso + 1 } else { iso };
                let sel: Option<Option<NodeIdx>> = if mode == CollectionMode::Switch { Some(e.sw[idx]) } else { None };
                lemma_emit_children_leaves(e, idx, sel, gs2, iso2, 0, st);
            },
            _ => {},
        }
    }
}

proof fn lemma_emit_children_leaves(e: EmitIn, p: int, sel: Option<Option<NodeIdx>>, gs: Seq<NodeIdx>, iso: nat, k: int, st: EmitV)
    requires
        leaves_drawn_ok(e, st.leaves),
        e.nodes.len() <= 0x1_0000_0000,
        e.vis.len() == e.nodes.len(),
    ensures
        emit_children(e, p, sel, gs, iso, k, st) matches Ok(s2) ==> leaves_drawn_ok(e, s2.leaves),
    decreases e.nodes.len() - p, children_of(e.nodes, p).len() - k,
{
    if !(p < 0 || p >= e.nodes.len() || k < 0 || k >= children_of(e.nodes, p).len()) {
        match sel {
            Some(active) => {
                if k <= 0 {
                    if let Some(c) = active {
                        if p < c.0 < e.nodes.len() {
                            lemma_emit_node_leaves(e, c.0 as int, gs, iso, st);
                        }
                    }
                }
            },
            None => {
                let c = children_of(e.nodes, p)[k];
                if p < c.0 < e.nodes.len() {
                    if !e.vis[c.0 as int] {
                        lemma_emit_children_leaves(e, p, sel, gs, iso, k + 1, st);
                    } else {
                        lemma_emit_node_leaves(e, c.0 as int, gs, iso, st);
                        if let Ok(s2) = emit_node(e, c.0 as int, gs, iso, st) {
                            lemma_emit_children_leaves(e, p, sel, gs, iso, k + 1, s2);
                        }
                    }
                }
            },
        }
    }
}

/// Law: every leaf a frame draws is a leaf node of the tree that the visibility pass marked
/// visible, drawn with that node's own asset.
pub proof fn law_drawn_leaves_are_visible_leaves(e: EmitIn, root: int, ranges: Seq<(usize, usize)>)
    requires
        e.nodes.len() <= 0x1_0000_0000,
        e.vis.len() == e.nodes.len(),
    ensures
        emit_node(e, root, Seq::empty(), 0, EmitV { leaves: Seq::empty(), groups: Seq::empty(), units: Seq::empty(), ranges })
            matches Ok(s) ==> leaves_drawn_ok(e, s.leaves),
{
    lemma_emit_node_leaves(e, root, Seq::empty(), 0, EmitV { leaves: Seq::empty(), groups: Seq::empty(), units: Seq::empty(), ranges });
}

} // verus!
