//! The normalized node tree: node time, visibility and audio reachability.
//!
//! Nodes live in an arena in pre-order, so every child index is larger than its
//! parent's; the recursive definitions below descend along that order.
use vstd::prelude::*;
pub use crate::plan::AssetIdx;
use crate::plan::{BlendMode, InternId, MaskMode, NodeIdx, PassFx, ShapeIR};
use crate::schema::CollectionMode;
use crate::time::NodeTimeCtx;
use crate::error::WavyteError;

verus! {

/// Kind of an asset, as far as the tree logic needs it.
#[derive(Debug, Clone, Copy, PartialEq, Eq)]
pub enum AssetKind {
    /// Raster image.
    Image,
    /// SVG document.
    Svg,
    /// SVG path data.
    Path,
    /// Laid-out text.
    Text,
    /// Video (may carry an audio stream).
    Video,
    /// Audio clip.
    Audio,
    /// Invisible placeholder.
    Null,
}

/// What a node is.
#[derive(Debug, Clone)]
pub enum NodeKindIR {
    /// Draws one asset.
    Leaf { asset: AssetIdx },
    /// Arranges children.
    Collection {
        mode: CollectionMode,
        children: Vec<NodeIdx>,
        /// For a sequence: start offset of each child (running sum of child range ends).
        sequence_prefix_starts: Option<Vec<u64>>,
    },
    /// Reference to a nested composition.
    CompRef,
}

/// What a mask is drawn from.
#[derive(Debug, Clone, Copy, PartialEq, Eq)]
pub enum MaskSourceIR {
    /// Another node, by id.
    Node(InternId),
    /// An asset, by key.
    Asset(InternId),
    /// A procedural shape.
    Shape(ShapeIR),
}

/// A node's mask.
#[derive(Debug, Clone, Copy, PartialEq, Eq)]
pub struct MaskIR {
    /// What the mask is drawn from.
    pub source: MaskSourceIR,
    /// How the mask weighs the node.
    pub mode: MaskMode,
    /// Whether the mask is inverted.
    pub inverted: bool,
}

/// A node's entry or exit transition (its easing curve is applied by the renderer).
#[derive(Debug, Clone, Copy, PartialEq, Eq)]
pub struct TransitionSpecIR {
    /// Transition kind (interned name).
    pub kind: InternId,
    /// Length in frames.
    pub duration_frames: u32,
}

/// A node of the normalized tree (the parts that time, visibility, audio, evaluation and
/// plan compilation read).
#[derive(Debug, Clone)]
pub struct NodeIR {
    /// First frame of the node in its parent's local time.
    pub range_start: u64,
    /// One past the last frame.
    pub range_end: u64,
    /// What the node is.
    pub kind: NodeKindIR,
    /// The node's mask, if any.
    pub mask: Option<MaskIR>,
    /// Whether the node has effects.
    pub has_effects: bool,
    /// The offscreen passes its effects resolve to, in order.
    pub effect_passes: Vec<PassFx>,
    /// How the node is blended over what lies below it.
    pub blend: BlendMode,
    /// Entry transition.
    pub transition_in: Option<TransitionSpecIR>,
    /// Exit transition.
    pub transition_out: Option<TransitionSpecIR>,
}

/// Children of node `i` (empty for non-collections).
pub open spec fn children_of(nodes: Seq<NodeIR>, i: int) -> Seq<NodeIdx> {
    match nodes[i].kind {
        NodeKindIR::Collection { children, .. } => children@,
        _ => Seq::empty(),
    }
}

/// The arena is in pre-order: every child index lies after its parent and inside the arena.
pub open spec fn tree_wf(nodes: Seq<NodeIR>) -> bool {
    forall|i: int, j: int|
        0 <= i < nodes.len() && 0 <= j < children_of(nodes, i).len() ==>
            i < (#[trigger] children_of(nodes, i)[j]).0 < nodes.len()
}

/// Whether the arena is in pre-order: every child index lies after its parent and inside the
/// arena.
pub fn is_tree_wf(nodes: &[NodeIR]) -> (r: bool)
    ensures
        r == tree_wf(nodes@),
{
    let n = nodes.len();
    let mut i: usize = 0;
    while i < n
        invariant
            n == nodes@.len(),
            i <= n,
            forall|a: int, j: int| 0 <= a < i && 0 <= j < children_of(nodes@, a).len() ==>
                a < (#[trigger] children_of(nodes@, a)[j]).0 < n,
        decreases n - i,
    {
        match &nodes[i].kind {
            NodeKindIR::Collection { children, .. } => {
                let m = children.len();
                let mut j: usize = 0;
                while j < m
                    invariant
                        n == nodes@.len(),
                        i < n,
                        m == children@.len(),
                        children_of(nodes@, i as int) == children@,
                        j <= m,
                        forall|q: int| 0 <= q < j ==> i < (#[trigger] children@[q]).0 < n,
                    decreases m - j,
                {
                    let c = children[j].0 as usize;
                    if c <= i || c >= n {
                        assert(!(i < children_of(nodes@, i as int)[j as int].0 < n));
                        return false;
                    }
                    j = j + 1;
                }
            },
            _ => {},
        }
        i = i + 1;
    }
    true
}

/// Whether an asset can contribute audio (audio clips and videos).
pub open spec fn audio_capable(assets: Seq<AssetKind>, a: AssetIdx) -> bool {
    a.0 < assets.len() && (assets[a.0 as int] == AssetKind::Audio || assets[a.0 as int] == AssetKind::Video)
}

/// Whether an asset index names an audio clip or a video.
pub fn asset_is_audio_capable(assets: &[AssetKind], a: AssetIdx) -> (r: bool)
    ensures
        r == audio_capable(assets@, a),
{
    if (a.0 as usize) < assets.len() {
        match assets[a.0 as usize] {
            AssetKind::Audio | AssetKind::Video => true,
            _ => false,
        }
    } else {
        false
    }
}

/// Whether node `i` is, or has below it, a leaf whose asset can contribute audio.
pub open spec fn audio_desc(nodes: Seq<NodeIR>, assets: Seq<AssetKind>, i: int) -> bool
    decreases nodes.len() - i + 1, 0int,
{
    if 0 <= i < nodes.len() {
        match nodes[i].kind {
            NodeKindIR::Leaf { asset } => audio_capable(assets, asset),
            NodeKindIR::Collection { children, .. } => any_child_audio(nodes, assets, i, children@.len() as int),
            NodeKindIR::CompRef => false,
        }
    } else {
        false
    }
}

/// Whether one of the first `k` children of node `p` has an audio descendant.
pub open spec fn any_child_audio(nodes: Seq<NodeIR>, assets: Seq<AssetKind>, p: int, k: int) -> bool
    decreases nodes.len() - p, k,
{
    if k <= 0 || p < 0 || p >= nodes.len() || k > children_of(nodes, p).len() {
        false
    } else {
        let c = children_of(nodes, p)[k - 1].0 as int;
        any_child_audio(nodes, assets, p, k - 1) || (p < c < nodes.len() && audio_desc(nodes, assets, c))
    }
}

/// For every node, whether it is or contains an audio-capable leaf.
pub fn audio_descendant_flags(nodes: &[NodeIR], assets: &[AssetKind]) -> (r: Vec<bool>)
    requires
        tree_wf(nodes@),
    ensures
        r@.len() == nodes@.len(),
        forall|i: int| 0 <= i < nodes@.len() ==> r@[i] == audio_desc(nodes@, assets@, i),
{
    let n = nodes.len();
    let mut flags: Vec<bool> = Vec::new();
    let mut k: usize = 0;
    while k < n
        invariant
            k <= n,
            n == nodes@.len(),
            flags@.len() == k as int,
        decreases n - k,
    {
        flags.push(false);
        k = k + 1;
    }
    let mut i: usize = n;
    while i > 0
        invariant
            i <= n,
            n == nodes@.len(),
            flags@.len() == n as int,
            tree_wf(nodes@),
            forall|j: int| i <= j < n ==> flags@[j] == audio_desc(nodes@, assets@, j),
        decreases i,
    {
        i = i - 1;
        let v = match &nodes[i].kind {
            NodeKindIR::Leaf { asset } => asset_is_audio_capable(assets, *asset),
            NodeKindIR::Collection { children, .. } => {
                let mut found = false;
                let mut c: usize = 0;
                while c < children.len()
                    invariant
                        c <= children@.len(),
                        i < n,
                        n == nodes@.len(),
                        flags@.len() == n as int,
                        tree_wf(nodes@),
                        children_of(nodes@, i as int) == children@,
                        forall|j: int| i < j < n ==> flags@[j] == audio_desc(nodes@, assets@, j),
                        found == any_child_audio(nodes@, assets@, i as int, c as int),
                    decreases children@.len() - c,
                {
                    let ch = children[c];
                    assert(i < ch.0 < n) by {
                        assert(children_of(nodes@, i as int)[c as int] == ch);
                    }
                    found = found || flags[ch.0 as usize];
                    c = c + 1;
                }
                found
            }
            NodeKindIR::CompRef => false,
        };
        flags.set(i, v);
    }
    flags
}

/// `x` clamped into `u32`.
pub open spec fn sat_u32(x: int) -> u32 {
    if x > u32::MAX { u32::MAX } else if x < 0 { 0 } else { x as u32 }
}

/// Time contexts after visiting node `idx` whose parent's local frame is `pl`, starting from
/// `out`: the node's local frame is `pl - start` and its duration `max(end - start, 0)`
/// (saturated to `u32`); then its children are visited (a sequence's child `i` at
/// `local - prefix[i]`; a sequence without prefix table visits none). Range bounds are read
/// as `i64` by two's-complement reinterpretation. `None` when a subtraction leaves `i64`.
pub open spec fn time_node(nodes: Seq<NodeIR>, idx: int, pl: int, out: Seq<NodeTimeCtx>) -> Option<Seq<NodeTimeCtx>>
    decreases nodes.len() - idx + 1, 0int,
{
    if 0 <= idx < nodes.len() && idx < out.len() {
        let start = nodes[idx].range_start as i64 as int;
        let end = nodes[idx].range_end as i64 as int;
        let local = pl - start;
        if !(i64::MIN <= end - start <= i64::MAX) || !(i64::MIN <= local <= i64::MAX) {
            None
        } else {
            let ctx = NodeTimeCtx { local_frame_i64: local as i64, duration_frames: sat_u32(end - start) };
            let out1 = out.update(idx, ctx);
            match nodes[idx].kind {
                NodeKindIR::Collection { mode, children, sequence_prefix_starts } => {
                    if mode == CollectionMode::Sequence {
                        match sequence_prefix_starts {
                            Some(pre) => time_children(nodes, idx, local, Some(pre@), 0, out1),
                            None => Some(out1),
                        }
                    } else {
                        time_children(nodes, idx, local, None, 0, out1)
                    }
                },
                _ => Some(out1),
            }
        }
    } else {
        None
    }
}

/// Visit children `k..` of node `p` (local frame `local`), in order.
pub open spec fn time_children(nodes: Seq<NodeIR>, p: int, local: int, pre: Option<Seq<u64>>, k: int, out: Seq<NodeTimeCtx>) -> Option<Seq<NodeTimeCtx>>
    decreases nodes.len() - p, children_of(nodes, p).len() - k,
{
    if p < 0 || p >= nodes.len() || k < 0 || k >= children_of(nodes, p).len() {
        Some(out)
    } else {
        let c = children_of(nodes, p)[k].0 as int;
        let off: int = match pre {
            Some(ps) => if k < ps.len() { ps[k] as i64 as int } else { 0 },
            None => 0,
        };
        let cl = local - off;
        if !(i64::MIN <= cl <= i64::MAX) || !(p < c < nodes.len()) {
            None
        } else {
            match time_node(nodes, c, cl, out) {
                Some(o2) => time_children(nodes, p, local, pre, k + 1, o2),
                None => None,
            }
        }
    }
}

fn rec_time(nodes: &[NodeIR], idx: NodeIdx, parent_local: i64, out: &mut Vec<NodeTimeCtx>) -> (ok: bool)
    requires
        tree_wf(nodes@),
        idx.0 < nodes@.len(),
        old(out)@.len() == nodes@.len(),
    ensures
        ok == time_node(nodes@, idx.0 as int, parent_local as int, old(out)@) is Some,
        ok ==> final(out)@ == time_node(nodes@, idx.0 as int, parent_local as int, old(out)@).unwrap(),
        final(out)@.len() == nodes@.len(),
    decreases nodes@.len() - idx.0,
{
    let i = idx.0 as usize;
    let node = &nodes[i];
    let start = node.range_start as i64;
    let end = node.range_end as i64;
    let dur_i = match end.checked_sub(start) {
        Some(d) => d,
        None => return false,
    };
    let local = match parent_local.checked_sub(start) {
        Some(l) => l,
        None => return false,
    };
    let dur: u64 = if dur_i > 0 { dur_i as u64 } else { 0 };
    let dur_u32: u32 = if dur > 0xffff_ffffu64 { u32::MAX } else { dur as u32 };
    out.set(i, NodeTimeCtx { local_frame_i64: local, duration_frames: dur_u32 });
    let ghost out1 = out@;
    match &node.kind {
        NodeKindIR::Collection { mode, children, sequence_prefix_starts } => {
            let is_seq = match mode {
                CollectionMode::Sequence => true,
                _ => false,
            };
            let pre: Option<&Vec<u64>> = if is_seq {
                match sequence_prefix_starts {
                    Some(p) => Some(p),
                    None => return true,
                }
            } else {
                None
            };
            let ghost pre_v: Option<Seq<u64>> = match pre { Some(p) => Some(p@), None => None };
            let mut k: usize = 0;
            while k < children.len()
                invariant
                    k <= children@.len(),
                    tree_wf(nodes@),
                    i < nodes@.len(),
                    i == idx.0,
                    children_of(nodes@, i as int) == children@,
                    out@.len() == nodes@.len(),
                    time_node(nodes@, i as int, parent_local as int, old(out)@)
                        == time_children(nodes@, i as int, local as int, pre_v, k as int, out@),
                    pre_v == (match pre { Some(p) => Some(p@), None => None::<Seq<u64>> }),
                decreases children@.len() - k,
            {
                let c = children[k];
                assert(i < c.0 < nodes@.len()) by {
                    assert(children_of(nodes@, i as int)[k as int] == c);
                }
                let off: i64 = match pre {
                    Some(ps) => if k < ps.len() { ps[k] as i64 } else { 0 },
                    None => 0,
                };
                let cl = match local.checked_sub(off) {
                    Some(v) => v,
                    None => return false,
                };
                let ok = rec_time(nodes, c, cl, out);
                if !ok {
                    return false;
                }
                k = k + 1;
            }
            true
        },
        _ => true,
    }
}

/// Default (all-zero) time contexts for `n` nodes.
pub open spec fn zero_ctxs(n: nat) -> Seq<NodeTimeCtx> {
    Seq::new(n, |_i: int| NodeTimeCtx { local_frame_i64: 0, duration_frames: 0 })
}

/// Time context of every node at `global_frame`: the root's parent local frame is the global
/// frame (as `i64`), nodes not reached keep a zero context. `None` when the frame arithmetic
/// leaves `i64`.
pub fn compute_node_time_ctxs(nodes: &[NodeIR], root: NodeIdx, global_frame: u64) -> (r: Option<Vec<NodeTimeCtx>>)
    requires
        tree_wf(nodes@),
        root.0 < nodes@.len(),
    ensures
        r is Some <==> time_node(nodes@, root.0 as int, global_frame as i64 as int, zero_ctxs(nodes@.len())) is Some,
        r matches Some(v) ==> v@ == time_node(nodes@, root.0 as int, global_frame as i64 as int, zero_ctxs(nodes@.len())).unwrap(),
{
    let mut out: Vec<NodeTimeCtx> = Vec::new();
    let n = nodes.len();
    let mut k: usize = 0;
    while k < n
        invariant
            k <= n,
            n == nodes@.len(),
            out@ == zero_ctxs(k as nat),
        decreases n - k,
    {
        out.push(NodeTimeCtx { local_frame_i64: 0, duration_frames: 0 });
        k = k + 1;
        assert(out@ =~= zero_ctxs(k as nat));
    }
    if rec_time(nodes, root, global_frame as i64, &mut out) {
        Some(out)
    } else {
        None
    }
}

/// Why a visibility pass stopped.
pub enum VisFail {
    /// A node had no time context.
    MissingCtx,
    /// The active index of this switch node could not be evaluated.
    Switch(int),
}

/// Visibility flags and active switch children.
pub type VisView = (Seq<bool>, Seq<Option<NodeIdx>>);

/// Child `k` of `children`, if there is one at index `a`.
pub open spec fn child_at(children: Seq<NodeIdx>, a: u64) -> Option<NodeIdx> {
    if a < children.len() { Some(children[a as int]) } else { None }
}

/// Visibility after visiting node `idx` under a parent of visibility `pv`: the node is
/// visible when its parent is and its local frame is in range; a visible switch picks the
/// child at its active index (`act`), an invisible one child `0`; a switch's children are
/// visible only if the switch is and they are the active child. Children are visited in order.
pub open spec fn vis_node(nodes: Seq<NodeIR>, tc: Seq<NodeTimeCtx>, act: Seq<Result<u64, WavyteError>>, idx: int, pv: bool, st: VisView) -> Result<VisView, VisFail>
    decreases nodes.len() - idx + 1, 0int,
{
    if !(0 <= idx < nodes.len()) || idx >= st.0.len() || idx >= st.1.len() || idx >= act.len() {
        Ok(st)
    } else if idx >= tc.len() {
        Err(VisFail::MissingCtx)
    } else {
        let t = tc[idx];
        let here = pv && 0 <= t.local_frame_i64 < t.duration_frames;
        let st1 = (st.0.update(idx, here), st.1);
        match nodes[idx].kind {
            NodeKindIR::Collection { mode, children, .. } => {
                if mode == CollectionMode::Switch {
                    let a: Result<u64, VisFail> = if here {
                        match act[idx] { Ok(v) => Ok(v), Err(_) => Err(VisFail::Switch(idx)) }
                    } else {
                        Ok(0u64)
                    };
                    match a {
                        Ok(ai) => {
                            let ac = child_at(children@, ai);
                            vis_children(nodes, tc, act, idx, here, Some(ac), 0, (st1.0, st1.1.update(idx, ac)))
                        },
                        Err(f) => Err(f),
                    }
                } else {
                    vis_children(nodes, tc, act, idx, here, None, 0, st1)
                }
            },
            _ => Ok(st1),
        }
    }
}

/// Visit children `k..` of node `p` (visibility `here`; for a switch, `sw` holds the active child).
pub open spec fn vis_children(nodes: Seq<NodeIR>, tc: Seq<NodeTimeCtx>, act: Seq<Result<u64, WavyteError>>, p: int, here: bool, sw: Option<Option<NodeIdx>>, k: int, st: VisView) -> Result<VisView, VisFail>
    decreases nodes.len() - p, children_of(nodes, p).len() - k,
{
    if p < 0 || p >= nodes.len() || k < 0 || k >= children_of(nodes, p).len() {
        Ok(st)
    } else {
        let c = children_of(nodes, p)[k];
        let cv = match sw { Some(ac) => here && ac == Some(c), None => here };
        if !(p < c.0 < nodes.len()) {
            Ok(st)
        } else {
            match vis_node(nodes, tc, act, c.0 as int, cv, st) {
                Ok(s2) => vis_children(nodes, tc, act, p, here, sw, k + 1, s2),
                Err(f) => Err(f),
            }
        }
    }
}

/// Per-node visibility and, for switch nodes, the active child.
pub struct VisibilityState {
    /// Whether each node is visible this frame.
    pub node_visible: Vec<bool>,
    /// For switch nodes: the active child (`None` when the index is past the children).
    pub switch_active_child: Vec<Option<NodeIdx>>,
}

fn rec_vis(nodes: &[NodeIR], tc: &[NodeTimeCtx], act: &[Result<u64, WavyteError>], idx: NodeIdx, pv: bool, vis: &mut Vec<bool>, sw: &mut Vec<Option<NodeIdx>>) -> (r: Result<(), WavyteError>)
    requires
        tree_wf(nodes@),
        idx.0 < nodes@.len(),
        old(vis)@.len() == nodes@.len(),
        old(sw)@.len() == nodes@.len(),
        act@.len() == nodes@.len(),
    ensures
        final(vis)@.len() == nodes@.len(),
        final(sw)@.len() == nodes@.len(),
        ({
            let s = vis_node(nodes@, tc@, act@, idx.0 as int, pv, (old(vis)@, old(sw)@));
            match r {
                Ok(_) => s == Ok::<VisView, VisFail>((final(vis)@, final(sw)@)),
                Err(e) => match s {
                    Err(VisFail::MissingCtx) => e matches WavyteError::Evaluation(m) && m@ == "node time ctx out of range"@,
                    Err(VisFail::Switch(i)) => 0 <= i < act@.len() && act@[i] == Err::<u64, WavyteError>(e),
                    Ok(_) => false,
                },
            }
        }),
    decreases nodes@.len() - idx.0,
{
    let i = idx.0 as usize;
    if i >= tc.len() {
        return Err(WavyteError::evaluation("node time ctx out of range"));
    }
    let t = tc[i];
    let here = pv && t.is_in_range();
    vis.set(i, here);
    match &nodes[i].kind {
        NodeKindIR::Collection { mode, children, .. } => {
            let is_switch = match mode {
                CollectionMode::Switch => true,
                _ => false,
            };
            let swc: Option<Option<NodeIdx>> = if is_switch {
                let ai: u64 = if here {
                    match &act[i] {
                        Ok(v) => *v,
                        Err(e) => return Err(e.duplicate()),
                    }
                } else {
                    0
                };
                let ac: Option<NodeIdx> = if ai < children.len() as u64 { Some(children[ai as usize]) } else { None };
                sw.set(i, ac);
                Some(ac)
            } else {
                None
            };
            let ghost st1: VisView = (vis@, sw@);
            let mut k: usize = 0;
            while k < children.len()
                invariant
                    k <= children@.len(),
                    tree_wf(nodes@),
                    i < nodes@.len(),
                    i == idx.0,
                    act@.len() == nodes@.len(),
                    children_of(nodes@, i as int) == children@,
                    vis@.len() == nodes@.len(),
                    sw@.len() == nodes@.len(),
                    vis_node(nodes@, tc@, act@, i as int, pv, (old(vis)@, old(sw)@))
                        == vis_children(nodes@, tc@, act@, i as int, here, swc, k as int, (vis@, sw@)),
                decreases children@.len() - k,
            {
                let c = children[k];
                assert(i < c.0 < nodes@.len()) by {
                    assert(children_of(nodes@, i as int)[k as int] == c);
                }
                let cv = match swc {
                    Some(ac) => here && match ac { Some(a) => a.0 == c.0, None => false },
                    None => here,
                };
                assert(cv == match swc { Some(ac) => here && ac == Some(c), None => here });
                match rec_vis(nodes, tc, act, c, cv, vis, sw) {
                    Ok(()) => {},
                    Err(e) => return Err(e),
                }
                k = k + 1;
            }
            Ok(())
        },
        _ => Ok(()),
    }
}

/// Visibility of every node (from the root, which sees a visible parent) and the active child
/// of every visible switch, given each node's time context and each switch's evaluated active
/// index (`switch_active[i]`, read only for visible switch nodes).
pub fn compute_visibility(nodes: &[NodeIR], root: NodeIdx, time_ctxs: &[NodeTimeCtx], switch_active: &[Result<u64, WavyteError>]) -> (r: Result<VisibilityState, WavyteError>)
    requires
        tree_wf(nodes@),
        root.0 < nodes@.len(),
        switch_active@.len() == nodes@.len(),
    ensures
        ({
            let s = vis_node(nodes@, time_ctxs@, switch_active@, root.0 as int, true,
                (Seq::new(nodes@.len(), |_i: int| false), Seq::new(nodes@.len(), |_i: int| None::<NodeIdx>)));
            match r {
                Ok(v) => s == Ok::<VisView, VisFail>((v.node_visible@, v.switch_active_child@)),
                Err(e) => match s {
                    Err(VisFail::MissingCtx) => e matches WavyteError::Evaluation(m) && m@ == "node time ctx out of range"@,
                    Err(VisFail::Switch(i)) => 0 <= i < switch_active@.len() && switch_active@[i] == Err::<u64, WavyteError>(e),
                    Ok(_) => false,
                },
            }
        }),
{
    let n = nodes.len();
    let mut vis: Vec<bool> = Vec::new();
    let mut sw: Vec<Option<NodeIdx>> = Vec::new();
    let mut k: usize = 0;
    while k < n
        invariant
            k <= n,
            n == nodes@.len(),
            vis@ == Seq::new(k as nat, |_i: int| false),
            sw@ == Seq::new(k as nat, |_i: int| None::<NodeIdx>),
        decreases n - k,
    {
        vis.push(false);
        sw.push(None);
        k = k + 1;
        assert(vis@ =~= Seq::new(k as nat, |_i: int| false));
        assert(sw@ =~= Seq::new(k as nat, |_i: int| None::<NodeIdx>));
    }
    match rec_vis(nodes, time_ctxs, switch_active, root, true, &mut vis, &mut sw) {
        Ok(()) => Ok(VisibilityState { node_visible: vis, switch_active_child: sw }),
        Err(e) => Err(e),
    }
}

/// Every node marked visible has its local frame inside its range.
pub open spec fn visible_in_range(tc: Seq<NodeTimeCtx>, vis: Seq<bool>) -> bool {
    forall|i: int| 0 <= i < vis.len() && #[trigger] vis[i] ==>
        i < tc.len() && 0 <= tc[i].local_frame_i64 < tc[i].duration_frames
}

proof fn lemma_vis_node_in_range(nodes: Seq<NodeIR>, tc: Seq<NodeTimeCtx>, act: Seq<Result<u64, WavyteError>>, idx: int, pv: bool, st: VisView)
    requires
        visible_in_range(tc, st.0),
    ensures
        vis_node(nodes, tc, act, idx, pv, st) matches Ok(s2) ==> visible_in_range(tc, s2.0),
    decreases nodes.len() - idx + 1, 0int,
{
    if !(!(0 <= idx < nodes.len()) || idx >= st.0.len() || idx >= st.1.len() || idx >= act.len()) && idx < tc.len() {
        let t = tc[idx];
        let here = pv && 0 <= t.local_frame_i64 < t.duration_frames;
        let st1: VisView = (st.0.update(idx, here), st.1);
        assert(visible_in_range(tc, st1.0));
        match nodes[idx].kind {
            NodeKindIR::Collection { mode, children, .. } => {
                if mode == CollectionMode::Switch {
                    let a: Result<u64, VisFail> = if here {
                        match act[idx] { Ok(v) => Ok(v), Err(_) => Err(VisFail::Switch(idx)) }
                    } else {
                        Ok(0u64)
                    };
                    if let Ok(ai) = a {
                        let ac = child_at(children@, ai);
                        lemma_vis_children_in_range(nodes, tc, act, idx, here, Some(ac), 0, (st1.0, st1.1.update(idx, ac)));
                    }
                } else {
                    lemma_vis_children_in_range(nodes, tc, act, idx, here, None, 0, st1);
                }
            },
            _ => {},
        }
    }
}

proof fn lemma_vis_children_in_range(nodes: Seq<NodeIR>, tc: Seq<NodeTimeCtx>, act: Seq<Result<u64, WavyteError>>, p: int, here: bool, sw: Option<Option<NodeIdx>>, k: int, st: VisView)
    requires
        visible_in_range(tc, st.0),
    ensures
        vis_children(nodes, tc, act, p, here, sw, k, st) matches Ok(s2) ==> visible_in_range(tc, s2.0),
    decreases nodes.len() - p, children_of(nodes, p).len() - k,
{
    if !(p < 0 || p >= nodes.len() || k < 0 || k >= children_of(nodes, p).len()) {
        let c = children_of(nodes, p)[k];
        let cv = match sw { Some(ac) => here && ac == Some(c), None => here };
        if p < c.0 < nodes.len() {
            lemma_vis_node_in_range(nodes, tc, act, c.0 as int, cv, st);
            if let Ok(s2) = vis_node(nodes, tc, act, c.0 as int, cv, st) {
                lemma_vis_children_in_range(nodes, tc, act, p, here, sw, k + 1, s2);
            }
        }
    }
}

/// Law: a node the visibility pass marks visible is inside its own frame range at this frame
/// (and so are all its visible ancestors, which is how it was reached).
pub proof fn law_visible_nodes_are_in_range(nodes: Seq<NodeIR>, tc: Seq<NodeTimeCtx>, act: Seq<Result<u64, WavyteError>>, root: int)
    ensures
        vis_node(nodes, tc, act, root, true,
            (Seq::new(nodes.len(), |_i: int| false), Seq::new(nodes.len(), |_i: int| None::<NodeIdx>))) matches Ok(s)
            ==> visible_in_range(tc, s.0),
{
    lemma_vis_node_in_range(nodes, tc, act, root, true,
        (Seq::new(nodes.len(), |_i: int| false), Seq::new(nodes.len(), |_i: int| None::<NodeIdx>)));
}

} // verus!
