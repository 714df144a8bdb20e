//! Compiling an evaluated frame into a render plan.
//!
//! Ops are appended in painter order; each op depends on the ops that last wrote the
//! surfaces it reads and the surface it writes, which is all the scheduler needs.
use vstd::prelude::*;
use crate::plan::{
    AssetIdx, BlendMode, CompositeOp, IrisShape, MaskGenSource, MaskMode, NodeIdx, Op, OpId, OpKind, PassFx,
    PixelFormat, RenderPlan, SlideDir, SurfaceDesc, SurfaceId, UnitKey, WipeDir,
};
use crate::graph::{EvaluatedGraph, RenderUnit, RenderUnitKind};
use crate::tree::{MaskSourceIR, NodeIR};

verus! {

/// The last op before op `i` that writes surface `s`.
pub open spec fn last_writer(ops: Seq<Op>, i: int, s: SurfaceId) -> Option<OpId>
    decreases i,
{
    if i <= 0 {
        None
    } else if ops[i - 1].output == s {
        Some(OpId((i - 1) as u32))
    } else {
        last_writer(ops, i - 1, s)
    }
}

/// `deps` extended with writer `w`, unless absent or already present.
pub open spec fn add_dep(deps: Seq<OpId>, w: Option<OpId>) -> Seq<OpId> {
    match w {
        Some(x) => if deps.contains(x) { deps } else { deps.push(x) },
        None => deps,
    }
}

/// Last writers (before op `i`) of the first `k` surfaces of `ins`, without repeats, in order.
pub open spec fn input_deps(ops: Seq<Op>, i: int, ins: Seq<SurfaceId>, k: int) -> Seq<OpId>
    decreases k,
{
    if k <= 0 {
        Seq::empty()
    } else {
        add_dep(input_deps(ops, i, ins, k - 1), last_writer(ops, i, ins[k - 1]))
    }
}

/// The dependencies op `i` must have: the last writers of its inputs, then of its output.
pub open spec fn expected_deps(ops: Seq<Op>, i: int) -> Seq<OpId> {
    add_dep(input_deps(ops, i, ops[i].inputs@, ops[i].inputs@.len() as int), last_writer(ops, i, ops[i].output))
}

/// Every op is numbered by its position and depends exactly on its last writers.
pub open spec fn deps_ok(ops: Seq<Op>) -> bool {
    forall|i: int| 0 <= i < ops.len() ==> (#[trigger] ops[i]).id == OpId(i as u32) && ops[i].deps@ == expected_deps(ops, i)
}

/// `lw` records, per surface, the last writer among all of `ops`.
pub open spec fn last_write_ok(ops: Seq<Op>, lw: Seq<Option<OpId>>) -> bool {
    forall|s: int| 0 <= s < lw.len() ==> #[trigger] lw[s] == last_writer(ops, ops.len() as int, SurfaceId(s as u32))
}

/// Every surface an op reads or writes is below `n`.
pub open spec fn surfaces_in(ops: Seq<Op>, n: int) -> bool {
    forall|i: int| 0 <= i < ops.len() ==> (#[trigger] ops[i]).output.0 < n
        && forall|j: int| 0 <= j < ops[i].inputs@.len() ==> (#[trigger] ops[i].inputs@[j]).0 < n
}

proof fn lemma_last_writer_prefix(ops: Seq<Op>, more: Seq<Op>, i: int, s: SurfaceId)
    requires
        0 <= i <= ops.len(),
    ensures
        last_writer(ops + more, i, s) == last_writer(ops, i, s),
    decreases i,
{
    if i > 0 {
        assert((ops + more)[i - 1] == ops[i - 1]);
        lemma_last_writer_prefix(ops, more, i - 1, s);
    }
}

proof fn lemma_input_deps_prefix(ops: Seq<Op>, more: Seq<Op>, i: int, ins: Seq<SurfaceId>, k: int)
    requires
        0 <= i <= ops.len(),
    ensures
        input_deps(ops + more, i, ins, k) == input_deps(ops, i, ins, k),
    decreases k,
{
    if k > 0 {
        lemma_input_deps_prefix(ops, more, i, ins, k - 1);
        lemma_last_writer_prefix(ops, more, i, ins[k - 1]);
    }
}

/// Appending ops keeps earlier ops' dependencies right.
proof fn lemma_deps_ok_push(ops: Seq<Op>, op: Op)
    requires
        deps_ok(ops),
        op.id == OpId(ops.len() as u32),
        op.deps@ == add_dep(input_deps(ops, ops.len() as int, op.inputs@, op.inputs@.len() as int), last_writer(ops, ops.len() as int, op.output)),
    ensures
        deps_ok(ops.push(op)),
{
    let ops2 = ops.push(op);
    assert forall|i: int| 0 <= i < ops2.len() implies (#[trigger] ops2[i]).id == OpId(i as u32) && ops2[i].deps@ == expected_deps(ops2, i) by {
        if i < ops.len() {
            assert(ops2 == ops + seq![op]);
            lemma_input_deps_prefix(ops, seq![op], i, ops[i].inputs@, ops[i].inputs@.len() as int);
            lemma_last_writer_prefix(ops, seq![op], i, ops[i].output);
            assert(ops2[i] == ops[i]);
        } else {
            assert(ops2 == ops + seq![op]);
            lemma_input_deps_prefix(ops, seq![op], i, op.inputs@, op.inputs@.len() as int);
            lemma_last_writer_prefix(ops, seq![op], i, op.output);
        }
    }
}

/// Append an op writing `output` from `inputs`: it gets the next id and depends on the last
/// writers of its inputs and of its output (without repeats); `last_write` then names it as
/// the output's writer.
pub fn push_op(ops: &mut Vec<Op>, last_write: &mut Vec<Option<OpId>>, kind: OpKind, inputs: Vec<SurfaceId>, output: SurfaceId) -> (id: OpId)
    requires
        old(ops)@.len() < 0x1_0000_0000,
        deps_ok(old(ops)@),
        last_write_ok(old(ops)@, old(last_write)@),
        surfaces_in(old(ops)@, old(last_write)@.len() as int),
        old(last_write)@.len() <= 0x1_0000_0000,
        output.0 < old(last_write)@.len(),
        forall|j: int| 0 <= j < inputs@.len() ==> (#[trigger] inputs@[j]).0 < old(last_write)@.len(),
    ensures
        id == OpId(old(ops)@.len() as u32),
        final(ops)@.len() == old(ops)@.len() + 1,
        final(ops)@.subrange(0, old(ops)@.len() as int) == old(ops)@,
        final(ops)@.last().id == id,
        final(ops)@.last().kind == kind,
        final(ops)@.last().inputs@ == inputs@,
        final(ops)@.last().output == output,
        deps_ok(final(ops)@),
        last_write_ok(final(ops)@, final(last_write)@),
        final(last_write)@.len() == old(last_write)@.len(),
        surfaces_in(final(ops)@, final(last_write)@.len() as int),
{
    let ghost ops0 = ops@;
    let n = ops.len();
    let id = OpId(n as u32);
    let mut deps: Vec<OpId> = Vec::new();
    let mut k: usize = 0;
    while k < inputs.len()
        invariant
            k <= inputs@.len(),
            ops@ == ops0,
            n == ops0.len(),
            last_write_ok(ops0, last_write@),
            forall|j: int| 0 <= j < inputs@.len() ==> (#[trigger] inputs@[j]).0 < last_write@.len(),
            last_write@.len() <= 0x1_0000_0000,
            deps@ == input_deps(ops0, n as int, inputs@, k as int),
        decreases inputs@.len() - k,
    {
        let s = inputs[k];
        assert(last_write@[s.0 as int] == last_writer(ops0, n as int, SurfaceId(s.0 as u32)));
        if let Some(w) = last_write[s.0 as usize] {
            if !vec_contains_op(&deps, w) {
                deps.push(w);
            }
        }
        k = k + 1;
    }
    assert(last_write@[output.0 as int] == last_writer(ops0, n as int, SurfaceId(output.0 as u32)));
    if let Some(w) = last_write[output.0 as usize] {
        if !vec_contains_op(&deps, w) {
            deps.push(w);
        }
    }
    let op = Op { id, kind, inputs, output, deps };
    proof {
        lemma_deps_ok_push(ops0, op);
    }
    ops.push(op);
    last_write.set(output.0 as usize, Some(id));
    proof {
        let ops1 = ops@;
        assert(ops1 == ops0.push(op));
        assert forall|s: int| 0 <= s < last_write@.len() implies #[trigger] last_write@[s] == last_writer(ops1, ops1.len() as int, SurfaceId(s as u32)) by {
            assert(ops1[n as int] == op);
            assert(ops1 == ops0 + seq![op]);
            lemma_last_writer_prefix(ops0, seq![op], n as int, SurfaceId(s as u32));
            if s != output.0 {
                assert(SurfaceId(s as u32) != output);
                assert(last_write@[s] == old(last_write)@[s]);
            }
        }
        assert(ops@.subrange(0, n as int) =~= ops0);
    }
    id
}

fn vec_contains_op(v: &Vec<OpId>, x: OpId) -> (r: bool)
    ensures
        r == v@.contains(x),
{
    let mut i: usize = 0;
    while i < v.len()
        invariant
            i <= v@.len(),
            forall|j: int| 0 <= j < i ==> v@[j] != x,
        decreases v@.len() - i,
    {
        if v[i].0 == x.0 {
            assert(v@[i as int] == x);
            return true;
        }
        i = i + 1;
    }
    false
}

proof fn lemma_no_writer(ops: Seq<Op>, i: int, s: SurfaceId, bound: int)
    requires
        0 <= i <= ops.len(),
        surfaces_in(ops, bound),
        s.0 >= bound,
    ensures
        last_writer(ops, i, s) is None,
    decreases i,
{
    if i > 0 {
        assert(ops[i - 1].output.0 < bound);
        lemma_no_writer(ops, i - 1, s, bound);
    }
}

/// A fresh surface has no writer yet.
proof fn lemma_fresh_surface(ops: Seq<Op>, lw: Seq<Option<OpId>>)
    requires
        last_write_ok(ops, lw),
        surfaces_in(ops, lw.len() as int),
        lw.len() < 0x1_0000_0000,
    ensures
        last_write_ok(ops, lw.push(None)),
        surfaces_in(ops, lw.len() as int + 1),
{
    let lw2 = lw.push(None);
    assert forall|s: int| 0 <= s < lw2.len() implies #[trigger] lw2[s] == last_writer(ops, ops.len() as int, SurfaceId(s as u32)) by {
        if s == lw.len() {
            lemma_no_writer(ops, ops.len() as int, SurfaceId(s as u32), lw.len() as int);
        } else {
            assert(lw2[s] == lw[s]);
        }
    }
}

/// Append a surface shaped like `template`, with no writer yet.
pub fn alloc_surface_like(surfaces: &mut Vec<SurfaceDesc>, last_write: &mut Vec<Option<OpId>>, template: SurfaceId) -> (id: SurfaceId)
    requires
        template.0 < old(surfaces)@.len(),
        old(surfaces)@.len() < 0x1_0000_0000,
    ensures
        id == SurfaceId(old(surfaces)@.len() as u32),
        final(surfaces)@ == old(surfaces)@.push(old(surfaces)@[template.0 as int]),
        final(last_write)@ == old(last_write)@.push(None),
{
    let desc = surfaces[template.0 as usize];
    let id = SurfaceId(surfaces.len() as u32);
    surfaces.push(desc);
    last_write.push(None);
    id
}

/// Bits of the `f32` value `1.0`.
pub const F32_ONE_BITS: u32 = 0x3F80_0000;

/// Bits of the `f64` value `1.0`.
pub const F64_ONE_BITS: u64 = 0x3FF0_0000_0000_0000;

/// The identity affine `[1, 0, 0, 1, 0, 0]` as `f64` bits.
pub open spec fn identity_affine() -> Seq<u64> {
    seq![F64_ONE_BITS, 0u64, 0u64, F64_ONE_BITS, 0u64, 0u64]
}

/// How a transition mixes the outgoing surface `a` into the incoming surface `b`
/// (parameters as bit patterns).
#[derive(Debug, Clone, Copy, PartialEq, Eq)]
pub enum TransitionMix {
    /// Crossfade.
    Crossfade,
    /// Wipe.
    Wipe { dir: WipeDir, soft_edge_bits: u32 },
    /// Slide.
    Slide { dir: SlideDir, push: bool },
    /// Zoom.
    Zoom { origin_x_bits: u64, origin_y_bits: u64, from_scale_bits: u32 },
    /// Iris.
    Iris { origin_x_bits: u64, origin_y_bits: u64, shape: IrisShape, soft_edge_bits: u32 },
}

/// What sampling a unit's transitions gives for this frame (values as `f32` bits).
#[derive(Debug, Clone, Copy, PartialEq, Eq)]
pub struct UnitLook {
    /// Opacity when the unit is composited alone: its entry progress times one minus its exit
    /// progress (`1.0` without transitions).
    pub opacity_bits: u32,
    /// Eased entry progress: the mix position when the unit pairs with the unit before it.
    pub progress_in_bits: u32,
    /// The mix of the unit's exit transition, when its kind is known.
    pub exit_mix: Option<TransitionMix>,
    /// Whether the unit's exit progress and the next unit's entry progress agree within
    /// `1/1024`.
    pub aligned_with_next: bool,
}

/// The composite step that mixes `a` into `b` at position `t`.
pub open spec fn mix_op(m: TransitionMix, a: SurfaceId, b: SurfaceId, t: u32) -> CompositeOp {
    match m {
        TransitionMix::Crossfade => CompositeOp::Crossfade { a, b, t_bits: t },
        TransitionMix::Wipe { dir, soft_edge_bits } => CompositeOp::Wipe { a, b, t_bits: t, dir, soft_edge_bits },
        TransitionMix::Slide { dir, push } => CompositeOp::Slide { a, b, t_bits: t, dir, push },
        TransitionMix::Zoom { origin_x_bits, origin_y_bits, from_scale_bits } =>
            CompositeOp::Zoom { a, b, t_bits: t, origin_x_bits, origin_y_bits, from_scale_bits },
        TransitionMix::Iris { origin_x_bits, origin_y_bits, shape, soft_edge_bits } =>
            CompositeOp::Iris { a, b, t_bits: t, origin_x_bits, origin_y_bits, shape, soft_edge_bits },
    }
}

/// The outgoing surface, incoming surface and position of a transition step (nothing for an
/// over step).
pub open spec fn step_ends(c: CompositeOp) -> Option<(SurfaceId, SurfaceId, u32)> {
    match c {
        CompositeOp::Over { .. } => None,
        CompositeOp::Crossfade { a, b, t_bits } => Some((a, b, t_bits)),
        CompositeOp::Wipe { a, b, t_bits, .. } => Some((a, b, t_bits)),
        CompositeOp::Slide { a, b, t_bits, .. } => Some((a, b, t_bits)),
        CompositeOp::Zoom { a, b, t_bits, .. } => Some((a, b, t_bits)),
        CompositeOp::Iris { a, b, t_bits, .. } => Some((a, b, t_bits)),
    }
}

/// A transition step of the kind `m` names.
pub open spec fn step_is_kind(m: TransitionMix, c: CompositeOp) -> bool {
    match m {
        TransitionMix::Crossfade => c is Crossfade,
        TransitionMix::Wipe { dir, soft_edge_bits } => c matches CompositeOp::Wipe { dir: d, soft_edge_bits: e, .. } && d == dir && e == soft_edge_bits,
        TransitionMix::Slide { dir, push } => c matches CompositeOp::Slide { dir: d, push: p, .. } && d == dir && p == push,
        TransitionMix::Zoom { origin_x_bits, origin_y_bits, from_scale_bits } => c matches CompositeOp::Zoom { origin_x_bits: x, origin_y_bits: y, from_scale_bits: f, .. }
            && x == origin_x_bits && y == origin_y_bits && f == from_scale_bits,
        TransitionMix::Iris { origin_x_bits, origin_y_bits, shape, soft_edge_bits } => c matches CompositeOp::Iris { origin_x_bits: x, origin_y_bits: y, shape: sh, soft_edge_bits: e, .. }
            && x == origin_x_bits && y == origin_y_bits && sh == shape && e == soft_edge_bits,
    }
}

/// Every transition step goes from the outgoing surface `a` to the incoming surface `b` at
/// position `t`, with the kind and parameters of its mix, whatever the mix.
pub proof fn law_mix_goes_from_outgoing_to_incoming(m: TransitionMix, a: SurfaceId, b: SurfaceId, t: u32)
    ensures
        step_ends(mix_op(m, a, b, t)) == Some((a, b, t)),
        step_is_kind(m, mix_op(m, a, b, t)),
{
}

fn mix_step(m: TransitionMix, a: SurfaceId, b: SurfaceId, t: u32) -> (c: CompositeOp)
    ensures
        c == mix_op(m, a, b, t),
        step_ends(c) == Some((a, b, t)),
        step_is_kind(m, c),
{
    match m {
        TransitionMix::Crossfade => CompositeOp::Crossfade { a, b, t_bits: t },
        TransitionMix::Wipe { dir, soft_edge_bits } => CompositeOp::Wipe { a, b, t_bits: t, dir, soft_edge_bits },
        TransitionMix::Slide { dir, push } => CompositeOp::Slide { a, b, t_bits: t, dir, push },
        TransitionMix::Zoom { origin_x_bits, origin_y_bits, from_scale_bits } =>
            CompositeOp::Zoom { a, b, t_bits: t, origin_x_bits, origin_y_bits, from_scale_bits },
        TransitionMix::Iris { origin_x_bits, origin_y_bits, shape, soft_edge_bits } =>
            CompositeOp::Iris { a, b, t_bits: t, origin_x_bits, origin_y_bits, shape, soft_edge_bits },
    }
}

/// What an op of a compiled frame does, without its id and dependencies.
pub enum AbsOp {
    /// Draw leaves `start..end` of `unit` with the identity transform at full opacity.
    Draw { unit: UnitKey, start: usize, end: usize, clear: bool, inputs: Seq<SurfaceId>, output: SurfaceId },
    /// Generate a mask.
    MaskGen { source: MaskGenSource, output: SurfaceId },
    /// Apply mask `mask` to `src`.
    MaskApply { mode: MaskMode, inverted: bool, src: SurfaceId, mask: SurfaceId, output: SurfaceId },
    /// An effect pass from `src` into `output`.
    Effect { fx: PassFx, src: SurfaceId, output: SurfaceId },
    /// Composite `src` over the canvas with an opacity and a blend mode.
    Over { clear: bool, inputs: Seq<SurfaceId>, src: SurfaceId, opacity_bits: u32, blend: BlendMode },
    /// Mix `a` into `b` with one transition step, into a cleared `output`.
    Mix { a: SurfaceId, b: SurfaceId, step: CompositeOp, output: SurfaceId },
}

/// Whether `op` carries out `a`.
pub open spec fn realizes(op: Op, a: AbsOp) -> bool {
    match a {
        AbsOp::Draw { unit, start, end, clear, inputs, output } => {
            &&& op.kind matches OpKind::Draw { unit: u2, leaves_start: s2, leaves_end: e2, clear_to_transparent: c2, transform_post_bits: t2, opacity_mul_bits: o2 }
            &&& u2 == unit && s2 == start && e2 == end && c2 == clear && t2@ == identity_affine() && o2 == F32_ONE_BITS
            &&& op.inputs@ == inputs && op.output == output
        },
        AbsOp::MaskGen { source, output } => {
            op.kind == OpKind::MaskGen { source } && op.inputs@.len() == 0 && op.output == output
        },
        AbsOp::MaskApply { mode, inverted, src, mask, output } => {
            op.kind == OpKind::Pass { fx: PassFx::MaskApply { mode, inverted } } && op.inputs@ == seq![src, mask] && op.output == output
        },
        AbsOp::Effect { fx, src, output } => {
            op.kind == OpKind::Pass { fx } && op.inputs@ == seq![src] && op.output == output
        },
        AbsOp::Over { clear, inputs, src, opacity_bits, blend } => {
            &&& op.kind matches OpKind::Composite { clear_to_transparent: c2, ops: v }
            &&& c2 == clear && v@ == seq![CompositeOp::Over { src, opacity_bits, blend }]
            &&& op.inputs@ == inputs && op.output == SurfaceId(0)
        },
        AbsOp::Mix { a, b, step, output } => {
            &&& op.kind matches OpKind::Composite { clear_to_transparent: c2, ops: v }
            &&& c2 && v@ == seq![step]
            &&& op.inputs@ == seq![a, b] && op.output == output
        },
    }
}

/// `m[k]`, or nothing when `k` is past the end.
pub open spec fn lookup<T>(m: Seq<Option<T>>, k: u32) -> Option<T> {
    if k < m.len() { m[k as int] } else { None }
}

/// The draw that stands in for a mask whose source cannot be found: nothing, into `out`.
pub open spec fn empty_mask(out: SurfaceId) -> AbsOp {
    AbsOp::Draw { unit: UnitKey::MaskNode(NodeIdx(0)), start: 0, end: 0, clear: true, inputs: Seq::empty(), output: out }
}

/// The op that produces a mask into `out`: a node's leaves (its range this frame), an
/// asset's mask, or a shape.
pub open spec fn mask_abs(src: MaskSourceIR, out: SurfaceId, nmap: Seq<Option<NodeIdx>>, amap: Seq<Option<AssetIdx>>, ranges: Seq<(usize, usize)>) -> AbsOp {
    match src {
        MaskSourceIR::Node(id) => match lookup(nmap, id.0) {
            Some(n) => {
                let r = if n.0 < ranges.len() { ranges[n.0 as int] } else { (0usize, 0usize) };
                AbsOp::Draw { unit: UnitKey::MaskNode(n), start: r.0, end: r.1, clear: true, inputs: Seq::empty(), output: out }
            },
            None => empty_mask(out),
        },
        MaskSourceIR::Asset(key) => match lookup(amap, key.0) {
            Some(a) => AbsOp::MaskGen { source: MaskGenSource::Asset(a), output: out },
            None => empty_mask(out),
        },
        MaskSourceIR::Shape(sh) => AbsOp::MaskGen { source: MaskGenSource::Shape(sh), output: out },
    }
}

/// The node a unit draws.
pub open spec fn unit_node(k: RenderUnitKind) -> NodeIdx {
    match k {
        RenderUnitKind::Leaf(n) => n,
        RenderUnitKind::Group(n) => n,
    }
}

/// The plan's key for a unit.
pub open spec fn unit_key(k: RenderUnitKind) -> UnitKey {
    match k {
        RenderUnitKind::Leaf(n) => UnitKey::Leaf(n),
        RenderUnitKind::Group(n) => UnitKey::Group(n),
    }
}

/// A unit is drawn into its own surface when it is a group, or its node has a mask, effects
/// or a blend other than normal, or it is inside a transition window this frame.
pub open spec fn isolated(u: RenderUnit, n: NodeIR) -> bool {
    u.kind is Group || n.mask is Some || n.has_effects || n.blend != BlendMode::Normal
        || u.transition_in is Some || u.transition_out is Some
}

/// First surface of a unit's effect chain: its own surface, or the masked one.
pub open spec fn chain_start(n: NodeIR, s: nat) -> nat {
    if n.mask is Some { s + 2 } else { s }
}

/// The surface holding an isolated unit once drawn, masked and through its effects.
pub open spec fn unit_final(n: NodeIR, s: nat) -> nat {
    chain_start(n, s) + n.effect_passes@.len()
}

/// Surfaces a unit adds in the first pass: none when drawn straight into the canvas; else its
/// own, two more with a mask (mask, masked), and one per effect pass.
pub open spec fn unit_new_surfaces(u: RenderUnit, n: NodeIR) -> nat {
    if !isolated(u, n) { 0 } else { unit_final(n, 0) + 1 }
}

/// The first `k` effect passes of a chain that starts at surface `c0`: pass `j` reads
/// surface `c0 + j` and writes `c0 + j + 1`.
pub open spec fn effect_ops(fxs: Seq<PassFx>, c0: nat, k: int) -> Seq<AbsOp>
    decreases k,
{
    if k <= 0 {
        Seq::empty()
    } else {
        effect_ops(fxs, c0, k - 1).push(AbsOp::Effect { fx: fxs[k - 1], src: SurfaceId((c0 + k - 1) as u32), output: SurfaceId((c0 + k) as u32) })
    }
}

/// Inputs of a composite onto the canvas: the canvas itself once something was drawn on it.
pub open spec fn root_inputs(r: bool, s: SurfaceId) -> Seq<SurfaceId> {
    if r { seq![SurfaceId(0), s] } else { seq![s] }
}

/// First-pass ops of one unit whose surfaces start at `s`: none when it is not isolated; else
/// its draw, the mask and its application, and its effect passes.
pub open spec fn unit_pass1(u: RenderUnit, n: NodeIR, s: nat, nmap: Seq<Option<NodeIdx>>, amap: Seq<Option<AssetIdx>>, ranges: Seq<(usize, usize)>) -> Seq<AbsOp> {
    if !isolated(u, n) {
        Seq::empty()
    } else {
        let us = SurfaceId(s as u32);
        let draw = AbsOp::Draw { unit: unit_key(u.kind), start: u.leaf_start, end: u.leaf_end, clear: true, inputs: Seq::empty(), output: us };
        let head = match n.mask {
            None => seq![draw],
            Some(m) => {
                let ms = SurfaceId((s + 1) as u32);
                let mk = SurfaceId((s + 2) as u32);
                seq![draw, mask_abs(m.source, ms, nmap, amap, ranges),
                    AbsOp::MaskApply { mode: m.mode, inverted: m.inverted, src: us, mask: ms, output: mk }]
            },
        };
        head + effect_ops(n.effect_passes@, chain_start(n, s), n.effect_passes@.len() as int)
    }
}

/// The node of unit `k`.
pub open spec fn node_of(units: Seq<RenderUnit>, nodes: Seq<NodeIR>, k: int) -> NodeIR {
    nodes[unit_node(units[k].kind).0 as int]
}

/// Surfaces after the first pass over the first `k` units (the canvas is surface `0`).
pub open spec fn surf_count(units: Seq<RenderUnit>, nodes: Seq<NodeIR>, k: int) -> nat
    decreases k,
{
    if k <= 0 {
        1
    } else {
        surf_count(units, nodes, k - 1) + unit_new_surfaces(units[k - 1], node_of(units, nodes, k - 1))
    }
}

/// The surface that holds isolated unit `k` after the first pass.
pub open spec fn unit_surf(units: Seq<RenderUnit>, nodes: Seq<NodeIR>, k: int) -> SurfaceId {
    SurfaceId(unit_final(node_of(units, nodes, k), surf_count(units, nodes, k)) as u32)
}

/// First-pass ops of the first `k` units, in painter order.
pub open spec fn pass1_ops(units: Seq<RenderUnit>, nodes: Seq<NodeIR>, nmap: Seq<Option<NodeIdx>>, amap: Seq<Option<AssetIdx>>, ranges: Seq<(usize, usize)>, k: int) -> Seq<AbsOp>
    decreases k,
{
    if k <= 0 {
        Seq::empty()
    } else {
        pass1_ops(units, nodes, nmap, amap, ranges, k - 1)
            + unit_pass1(units[k - 1], node_of(units, nodes, k - 1), surf_count(units, nodes, k - 1), nmap, amap, ranges)
    }
}

/// Units `i` and `i + 1` are composited together through one transition step: both are
/// isolated with the same blend, the exit of `i` and the entry of `i + 1` are windows of the
/// same transition kind, their progress agrees and the exit's mix is known.
pub open spec fn pairs_at(units: Seq<RenderUnit>, nodes: Seq<NodeIR>, looks: Seq<UnitLook>, i: int) -> bool {
    &&& 0 <= i && i + 1 < units.len()
    &&& isolated(units[i], node_of(units, nodes, i))
    &&& isolated(units[i + 1], node_of(units, nodes, i + 1))
    &&& node_of(units, nodes, i).blend == node_of(units, nodes, i + 1).blend
    &&& units[i].transition_out matches Some(o) && units[i + 1].transition_in matches Some(x) && o.kind == x.kind
    &&& looks[i].aligned_with_next
    &&& looks[i].exit_mix is Some
}

/// Second-pass ops from unit `i` on, given whether the canvas was written and the next free
/// surface, and the surface count after them: a pair is mixed into a fresh surface which is
/// composited over the canvas at full opacity with the second unit's blend; an isolated unit
/// is composited over the canvas with its opacity and blend; any other unit is drawn straight
/// into the canvas.
pub open spec fn pass2(units: Seq<RenderUnit>, nodes: Seq<NodeIR>, looks: Seq<UnitLook>, i: int, r: bool, s: nat) -> (Seq<AbsOp>, nat)
    decreases units.len() - i,
{
    if i < 0 || i >= units.len() {
        (Seq::empty(), s)
    } else if pairs_at(units, nodes, looks, i) {
        let a = unit_surf(units, nodes, i);
        let b = unit_surf(units, nodes, i + 1);
        let out = SurfaceId(s as u32);
        let rest = pass2(units, nodes, looks, i + 2, true, s + 1);
        (seq![AbsOp::Mix { a, b, step: mix_op(looks[i].exit_mix->0, a, b, looks[i + 1].progress_in_bits), output: out },
            AbsOp::Over { clear: !r, inputs: root_inputs(r, out), src: out, opacity_bits: F32_ONE_BITS, blend: node_of(units, nodes, i + 1).blend }]
            + rest.0, rest.1)
    } else if isolated(units[i], node_of(units, nodes, i)) {
        let us = unit_surf(units, nodes, i);
        let rest = pass2(units, nodes, looks, i + 1, true, s);
        (seq![AbsOp::Over { clear: !r, inputs: root_inputs(r, us), src: us, opacity_bits: looks[i].opacity_bits, blend: node_of(units, nodes, i).blend }]
            + rest.0, rest.1)
    } else {
        let u = units[i];
        let rest = pass2(units, nodes, looks, i + 1, true, s);
        (seq![AbsOp::Draw { unit: unit_key(u.kind), start: u.leaf_start, end: u.leaf_end, clear: !r,
            inputs: if r { seq![SurfaceId(0)] } else { Seq::empty() }, output: SurfaceId(0) }] + rest.0, rest.1)
    }
}

/// All ops of a frame: the first pass, then the second.
pub open spec fn frame_ops(units: Seq<RenderUnit>, nodes: Seq<NodeIR>, looks: Seq<UnitLook>, nmap: Seq<Option<NodeIdx>>, amap: Seq<Option<AssetIdx>>, ranges: Seq<(usize, usize)>) -> Seq<AbsOp> {
    pass1_ops(units, nodes, nmap, amap, ranges, units.len() as int)
        + pass2(units, nodes, looks, 0, false, surf_count(units, nodes, units.len() as int)).0
}

/// Surfaces of a frame.
pub open spec fn frame_surfaces(units: Seq<RenderUnit>, nodes: Seq<NodeIR>, looks: Seq<UnitLook>) -> nat {
    pass2(units, nodes, looks, 0, false, surf_count(units, nodes, units.len() as int)).1
}

proof fn lemma_counts_monotone(units: Seq<RenderUnit>, nodes: Seq<NodeIR>, nmap: Seq<Option<NodeIdx>>, amap: Seq<Option<AssetIdx>>, ranges: Seq<(usize, usize)>, j: int, k: int)
    requires
        0 <= j <= k,
    ensures
        surf_count(units, nodes, j) <= surf_count(units, nodes, k),
        pass1_ops(units, nodes, nmap, amap, ranges, j).len() <= pass1_ops(units, nodes, nmap, amap, ranges, k).len(),
    decreases k - j,
{
    if j < k {
        lemma_counts_monotone(units, nodes, nmap, amap, ranges, j, k - 1);
    }
}

/// `a` mixes units `j` and `j + 1` with the step their transitions call for.
pub open spec fn mixes_pair(units: Seq<RenderUnit>, nodes: Seq<NodeIR>, looks: Seq<UnitLook>, a: AbsOp, j: int) -> bool {
    &&& pairs_at(units, nodes, looks, j)
    &&& a matches AbsOp::Mix { a: sa, b: sb, step, .. }
    &&& sa == unit_surf(units, nodes, j) && sb == unit_surf(units, nodes, j + 1)
    &&& step == mix_op(looks[j].exit_mix->0, sa, sb, looks[j + 1].progress_in_bits)
}

proof fn lemma_pass2_mixes(units: Seq<RenderUnit>, nodes: Seq<NodeIR>, looks: Seq<UnitLook>, i: int, r: bool, s: nat)
    requires
        0 <= i,
    ensures
        forall|k: int| 0 <= k < pass2(units, nodes, looks, i, r, s).0.len() && (#[trigger] pass2(units, nodes, looks, i, r, s).0[k] is Mix) ==>
            exists|j: int| i <= j && mixes_pair(units, nodes, looks, pass2(units, nodes, looks, i, r, s).0[k], j),
    decreases units.len() - i,
{
    if i < units.len() {
        let p = pass2(units, nodes, looks, i, r, s).0;
        if pairs_at(units, nodes, looks, i) {
            let rest = pass2(units, nodes, looks, i + 2, true, s + 1).0;
            lemma_pass2_mixes(units, nodes, looks, i + 2, true, s + 1);
            assert forall|k: int| 0 <= k < p.len() && (#[trigger] p[k] is Mix) implies
                exists|j: int| i <= j && mixes_pair(units, nodes, looks, p[k], j) by {
                if k == 0 {
                    assert(mixes_pair(units, nodes, looks, p[k], i));
                } else if k >= 2 {
                    assert(p[k] == rest[k - 2]);
                    assert(rest[k - 2] is Mix);
                }
            }
        } else {
            let rest = pass2(units, nodes, looks, i + 1, true, s).0;
            lemma_pass2_mixes(units, nodes, looks, i + 1, true, s);
            assert forall|k: int| 0 <= k < p.len() && (#[trigger] p[k] is Mix) implies
                exists|j: int| i <= j && mixes_pair(units, nodes, looks, p[k], j) by {
                if k >= 1 {
                    assert(p[k] == rest[k - 1]);
                    assert(rest[k - 1] is Mix);
                }
            }
        }
    }
}

proof fn lemma_pass1_no_mix(units: Seq<RenderUnit>, nodes: Seq<NodeIR>, nmap: Seq<Option<NodeIdx>>, amap: Seq<Option<AssetIdx>>, ranges: Seq<(usize, usize)>, k: int)
    ensures
        forall|t: int| 0 <= t < pass1_ops(units, nodes, nmap, amap, ranges, k).len() ==>
            !(#[trigger] pass1_ops(units, nodes, nmap, amap, ranges, k)[t] is Mix),
    decreases k,
{
    if k > 0 {
        lemma_pass1_no_mix(units, nodes, nmap, amap, ranges, k - 1);
        let pre = pass1_ops(units, nodes, nmap, amap, ranges, k - 1);
        let n = node_of(units, nodes, k - 1);
        let sc = surf_count(units, nodes, k - 1);
        let u = unit_pass1(units[k - 1], n, sc, nmap, amap, ranges);
        if isolated(units[k - 1], n) {
            lemma_effect_ops_no_mix(n.effect_passes@, chain_start(n, sc), n.effect_passes@.len() as int);
        }
        let all = pass1_ops(units, nodes, nmap, amap, ranges, k);
        assert(all == pre + u);
        assert forall|t: int| 0 <= t < all.len() implies !(#[trigger] all[t] is Mix) by {
            if t < pre.len() {
                assert(all[t] == pre[t]);
            } else {
                assert(all[t] == u[t - pre.len()]);
            }
        }
    }
}

proof fn lemma_effect_ops_no_mix(fxs: Seq<PassFx>, c0: nat, k: int)
    ensures
        forall|t: int| 0 <= t < effect_ops(fxs, c0, k).len() ==> (#[trigger] effect_ops(fxs, c0, k)[t]) is Effect,
    decreases k,
{
    if k > 0 {
        lemma_effect_ops_no_mix(fxs, c0, k - 1);
        let pre = effect_ops(fxs, c0, k - 1);
        assert forall|t: int| 0 <= t < effect_ops(fxs, c0, k).len() implies (#[trigger] effect_ops(fxs, c0, k)[t]) is Effect by {
            if t < pre.len() {
                assert(effect_ops(fxs, c0, k)[t] == pre[t]);
            }
        }
    }
}

/// Every transition mix in a compiled frame joins two adjacent units whose transitions meet
/// (same transition kind and blend, both isolated, progress aligned, exit mix known): it mixes
/// their surfaces with the exit's mix at the entering unit's progress, from the earlier
/// (outgoing) unit's surface to the later (incoming) one's.
pub proof fn law_mixes_join_meeting_transitions(units: Seq<RenderUnit>, nodes: Seq<NodeIR>, looks: Seq<UnitLook>,
    nmap: Seq<Option<NodeIdx>>, amap: Seq<Option<AssetIdx>>, ranges: Seq<(usize, usize)>, k: int)
    requires
        0 <= k < frame_ops(units, nodes, looks, nmap, amap, ranges).len(),
        frame_ops(units, nodes, looks, nmap, amap, ranges)[k] is Mix,
    ensures
        exists|j: int| mixes_pair(units, nodes, looks, frame_ops(units, nodes, looks, nmap, amap, ranges)[k], j),
        exists|j: int| #![trigger pairs_at(units, nodes, looks, j)] pairs_at(units, nodes, looks, j)
            && (frame_ops(units, nodes, looks, nmap, amap, ranges)[k] matches AbsOp::Mix { step, .. }
            && step_ends(step) == Some((unit_surf(units, nodes, j), unit_surf(units, nodes, j + 1), looks[j + 1].progress_in_bits))),
{
    let p1 = pass1_ops(units, nodes, nmap, amap, ranges, units.len() as int);
    let p2 = pass2(units, nodes, looks, 0, false, surf_count(units, nodes, units.len() as int)).0;
    let f = frame_ops(units, nodes, looks, nmap, amap, ranges);
    assert(f == p1 + p2);
    lemma_pass1_no_mix(units, nodes, nmap, amap, ranges, units.len() as int);
    lemma_pass2_mixes(units, nodes, looks, 0, false, surf_count(units, nodes, units.len() as int));
    if k < p1.len() {
        assert(f[k] == p1[k]);
    } else {
        assert(f[k] == p2[k - p1.len()]);
        assert(p2[k - p1.len()] is Mix);
    }
    let j = choose|j: int| mixes_pair(units, nodes, looks, f[k], j);
    law_mix_goes_from_outgoing_to_incoming(looks[j].exit_mix->0, unit_surf(units, nodes, j), unit_surf(units, nodes, j + 1), looks[j + 1].progress_in_bits);
    assert(pairs_at(units, nodes, looks, j));
}

proof fn lemma_pass2_surfaces(units: Seq<RenderUnit>, nodes: Seq<NodeIR>, looks: Seq<UnitLook>, i: int, r: bool, s: nat)
    ensures
        pass2(units, nodes, looks, i, r, s).1 >= s,
        pairs_at(units, nodes, looks, i) ==> pass2(units, nodes, looks, i, r, s).1 >= s + 1,
    decreases units.len() - i,
{
    if 0 <= i < units.len() {
        if pairs_at(units, nodes, looks, i) {
            lemma_pass2_surfaces(units, nodes, looks, i + 2, true, s + 1);
        } else {
            lemma_pass2_surfaces(units, nodes, looks, i + 1, true, s);
        }
    }
}

proof fn lemma_effect_ops_len(fxs: Seq<PassFx>, c0: nat, k: int)
    requires
        0 <= k,
    ensures
        effect_ops(fxs, c0, k).len() == k,
    decreases k,
{
    if k > 0 {
        lemma_effect_ops_len(fxs, c0, k - 1);
    }
}

/// Append the op that draws or generates a mask from `src` into a fresh surface.
fn compile_mask_source(
    surfaces: &mut Vec<SurfaceDesc>, ops: &mut Vec<Op>, last_write: &mut Vec<Option<OpId>>, root: SurfaceId, src: MaskSourceIR,
    nmap: &[Option<NodeIdx>], amap: &[Option<AssetIdx>], ranges: &[(usize, usize)],
) -> (ms: SurfaceId)
    requires
        root.0 < old(surfaces)@.len(),
        old(surfaces)@.len() < 0x1_0000_0000,
        old(ops)@.len() < 0x1_0000_0000,
        old(last_write)@.len() == old(surfaces)@.len(),
        deps_ok(old(ops)@),
        last_write_ok(old(ops)@, old(last_write)@),
        surfaces_in(old(ops)@, old(last_write)@.len() as int),
    ensures
        ms == SurfaceId(old(surfaces)@.len() as u32),
        final(surfaces)@ == old(surfaces)@.push(old(surfaces)@[root.0 as int]),
        final(last_write)@.len() == final(surfaces)@.len(),
        final(ops)@.len() == old(ops)@.len() + 1,
        final(ops)@.subrange(0, old(ops)@.len() as int) == old(ops)@,
        realizes(final(ops)@.last(), mask_abs(src, ms, nmap@, amap@, ranges@)),
        deps_ok(final(ops)@),
        last_write_ok(final(ops)@, final(last_write)@),
        surfaces_in(final(ops)@, final(last_write)@.len() as int),
{
    proof {
        lemma_fresh_surface(ops@, last_write@);
    }
    let ms = alloc_surface_like(surfaces, last_write, root);
    let empty_draw = OpKind::Draw {
        unit: UnitKey::MaskNode(NodeIdx(0)), leaves_start: 0, leaves_end: 0, clear_to_transparent: true,
        transform_post_bits: [F64_ONE_BITS, 0, 0, F64_ONE_BITS, 0, 0], opacity_mul_bits: F32_ONE_BITS,
    };
    let kind = match src {
        MaskSourceIR::Node(id) => {
            let found: Option<NodeIdx> = if (id.0 as usize) < nmap.len() { nmap[id.0 as usize] } else { None };
            match found {
                Some(n) => {
                    let r: (usize, usize) = if (n.0 as usize) < ranges.len() { ranges[n.0 as usize] } else { (0, 0) };
                    OpKind::Draw {
                        unit: UnitKey::MaskNode(n), leaves_start: r.0, leaves_end: r.1, clear_to_transparent: true,
                        transform_post_bits: [F64_ONE_BITS, 0, 0, F64_ONE_BITS, 0, 0], opacity_mul_bits: F32_ONE_BITS,
                    }
                },
                None => empty_draw,
            }
        },
        MaskSourceIR::Asset(key) => {
            let found: Option<AssetIdx> = if (key.0 as usize) < amap.len() { amap[key.0 as usize] } else { None };
            match found {
                Some(a) => OpKind::MaskGen { source: MaskGenSource::Asset(a) },
                None => empty_draw,
            }
        },
        MaskSourceIR::Shape(sh) => OpKind::MaskGen { source: MaskGenSource::Shape(sh) },
    };
    push_op(ops, last_write, kind, Vec::new(), ms);
    proof {
        assert(seq![F64_ONE_BITS, 0u64, 0u64, F64_ONE_BITS, 0u64, 0u64] =~= identity_affine());
    }
    ms
}

/// `ops` extends `old` by ops that carry out `abs`, one each.
pub open spec fn extends_by(ops: Seq<Op>, old: Seq<Op>, abs: Seq<AbsOp>) -> bool {
    &&& ops.len() == old.len() + abs.len()
    &&& ops.subrange(0, old.len() as int) == old
    &&& forall|j: int| 0 <= j < abs.len() ==> realizes(#[trigger] ops[old.len() + j], abs[j])
}

proof fn lemma_extends_chain(ops2: Seq<Op>, ops1: Seq<Op>, ops0: Seq<Op>, a: Seq<AbsOp>, b: Seq<AbsOp>)
    requires
        extends_by(ops1, ops0, a),
        extends_by(ops2, ops1, b),
    ensures
        extends_by(ops2, ops0, a + b),
{
    assert(ops2.subrange(0, ops0.len() as int) =~= ops0) by {
        assert forall|q: int| 0 <= q < ops0.len() implies ops2[q] == ops0[q] by {
            assert(ops2.subrange(0, ops1.len() as int)[q] == ops2[q]);
            assert(ops1.subrange(0, ops0.len() as int)[q] == ops1[q]);
        }
    }
    assert forall|j: int| 0 <= j < (a + b).len() implies realizes(#[trigger] ops2[ops0.len() + j], (a + b)[j]) by {
        if j < a.len() {
            assert(realizes(ops1[ops0.len() + j], a[j]));
            assert(ops2.subrange(0, ops1.len() as int)[ops0.len() + j] == ops2[ops0.len() + j]);
        } else {
            assert(realizes(ops2[ops1.len() + (j - a.len())], b[j - a.len()]));
        }
    }
}

proof fn lemma_extends_one(ops: Seq<Op>, old: Seq<Op>, a: AbsOp)
    requires
        ops.len() == old.len() + 1,
        ops.subrange(0, old.len() as int) == old,
        realizes(ops.last(), a),
    ensures
        extends_by(ops, old, seq![a]),
{
}

fn draw_kind(unit: UnitKey, start: usize, end: usize, clear: bool) -> (k: OpKind)
    ensures
        k matches OpKind::Draw { unit: u2, leaves_start: s2, leaves_end: e2, clear_to_transparent: c2, transform_post_bits: t2, opacity_mul_bits: o2 }
            && u2 == unit && s2 == start && e2 == end && c2 == clear && t2@ == identity_affine() && o2 == F32_ONE_BITS,
{
    let k = OpKind::Draw {
        unit, leaves_start: start, leaves_end: end, clear_to_transparent: clear,
        transform_post_bits: [F64_ONE_BITS, 0, 0, F64_ONE_BITS, 0, 0], opacity_mul_bits: F32_ONE_BITS,
    };
    proof {
        assert(seq![F64_ONE_BITS, 0u64, 0u64, F64_ONE_BITS, 0u64, 0u64] =~= identity_affine());
    }
    k
}

fn over_root(src: SurfaceId, clear: bool, opacity_bits: u32, blend: BlendMode) -> (k: OpKind)
    ensures
        k matches OpKind::Composite { clear_to_transparent: c2, ops: v } && c2 == clear
            && v@ == seq![CompositeOp::Over { src, opacity_bits, blend }],
{
    let mut v: Vec<CompositeOp> = Vec::new();
    v.push(CompositeOp::Over { src, opacity_bits, blend });
    OpKind::Composite { clear_to_transparent: clear, ops: v }
}

fn root_input_vec(rw: bool, s: SurfaceId) -> (v: Vec<SurfaceId>)
    ensures
        v@ == root_inputs(rw, s),
{
    let mut v: Vec<SurfaceId> = Vec::new();
    if rw {
        v.push(SurfaceId(0));
    }
    v.push(s);
    proof {
        if rw { assert(v@ =~= seq![SurfaceId(0), s]); } else { assert(v@ =~= seq![s]); }
    }
    v
}

/// Surfaces of a frame: all shaped like the canvas.
pub open spec fn canvas_surfaces(d: SurfaceDesc, n: nat) -> Seq<SurfaceDesc> {
    Seq::new(n, |_i: int| d)
}

/// The bookkeeping every compile step keeps.
pub open spec fn state_ok(surfaces: Seq<SurfaceDesc>, ops: Seq<Op>, lw: Seq<Option<OpId>>, d: SurfaceDesc) -> bool {
    &&& surfaces.len() >= 1
    &&& surfaces == canvas_surfaces(d, surfaces.len())
    &&& lw.len() == surfaces.len()
    &&& deps_ok(ops)
    &&& last_write_ok(ops, lw)
    &&& surfaces_in(ops, lw.len() as int)
}

/// Run the effect passes of a unit over `current`, one fresh surface each.
fn compile_effects(
    surfaces: &mut Vec<SurfaceDesc>, ops: &mut Vec<Op>, last_write: &mut Vec<Option<OpId>>, fxs: &Vec<PassFx>, current: SurfaceId,
    Ghost(d): Ghost<SurfaceDesc>,
) -> (out: SurfaceId)
    requires
        state_ok(old(surfaces)@, old(ops)@, old(last_write)@, d),
        current.0 + 1 == old(surfaces)@.len(),
        old(surfaces)@.len() + fxs@.len() <= 0x1_0000_0000,
        old(ops)@.len() + fxs@.len() <= 0x1_0000_0000,
    ensures
        state_ok(final(surfaces)@, final(ops)@, final(last_write)@, d),
        final(surfaces)@.len() == old(surfaces)@.len() + fxs@.len(),
        out.0 == current.0 + fxs@.len(),
        extends_by(final(ops)@, old(ops)@, effect_ops(fxs@, current.0 as nat, fxs@.len() as int)),
{
    let ghost ops0 = ops@;
    let ghost c0 = current.0 as nat;
    let mut cur = current;
    let n = fxs.len();
    let mut j: usize = 0;
    assert(ops@.subrange(0, ops0.len() as int) =~= ops0);
    while j < n
        invariant
            n == fxs@.len(),
            j <= n,
            state_ok(surfaces@, ops@, last_write@, d),
            surfaces@.len() == c0 + 1 + j,
            cur.0 == c0 + j,
            c0 + 1 + n <= 0x1_0000_0000,
            ops0.len() + n <= 0x1_0000_0000,
            extends_by(ops@, ops0, effect_ops(fxs@, c0, j as int)),
        decreases n - j,
    {
        proof {
            lemma_fresh_surface(ops@, last_write@);
            lemma_effect_ops_len(fxs@, c0, j as int);
        }
        let ghost opsj = ops@;
        let out = alloc_surface_like(surfaces, last_write, SurfaceId(0));
        let mut ins: Vec<SurfaceId> = Vec::new();
        ins.push(cur);
        assert(ins@ =~= seq![cur]);
        push_op(ops, last_write, OpKind::Pass { fx: fxs[j] }, ins, out);
        proof {
            assert(surfaces@ =~= canvas_surfaces(d, surfaces@.len()));
            lemma_extends_one(ops@, opsj, AbsOp::Effect { fx: fxs@[j as int], src: cur, output: out });
            lemma_extends_chain(ops@, opsj, ops0, effect_ops(fxs@, c0, j as int), seq![AbsOp::Effect { fx: fxs@[j as int], src: cur, output: out }]);
            assert(effect_ops(fxs@, c0, j + 1) == effect_ops(fxs@, c0, j as int).push(AbsOp::Effect { fx: fxs@[j as int], src: SurfaceId((c0 + j) as u32), output: SurfaceId((c0 + j + 1) as u32) }));
            assert(effect_ops(fxs@, c0, j as int) + seq![AbsOp::Effect { fx: fxs@[j as int], src: cur, output: out }] =~= effect_ops(fxs@, c0, j + 1));
        }
        cur = out;
        j = j + 1;
    }
    cur
}

/// First pass for one unit: when it is isolated, draw it into a fresh surface, mask it and run
/// its effects; returns the surface that holds it.
#[verifier::rlimit(60)]
fn compile_unit_pass1(
    surfaces: &mut Vec<SurfaceDesc>, ops: &mut Vec<Op>, last_write: &mut Vec<Option<OpId>>, unit: RenderUnit, node: &NodeIR,
    nmap: &[Option<NodeIdx>], amap: &[Option<AssetIdx>], ranges: &[(usize, usize)], Ghost(d): Ghost<SurfaceDesc>,
) -> (r: Option<SurfaceId>)
    requires
        state_ok(old(surfaces)@, old(ops)@, old(last_write)@, d),
        old(surfaces)@.len() + unit_new_surfaces(unit, *node) <= 0x1_0000_0000,
        old(ops)@.len() + unit_pass1(unit, *node, old(surfaces)@.len(), nmap@, amap@, ranges@).len() <= 0x1_0000_0000,
    ensures
        state_ok(final(surfaces)@, final(ops)@, final(last_write)@, d),
        final(surfaces)@.len() == old(surfaces)@.len() + unit_new_surfaces(unit, *node),
        r == (if isolated(unit, *node) { Some(SurfaceId(unit_final(*node, old(surfaces)@.len()) as u32)) } else { None::<SurfaceId> }),
        extends_by(final(ops)@, old(ops)@, unit_pass1(unit, *node, old(surfaces)@.len(), nmap@, amap@, ranges@)),
{
    let ghost ops0 = ops@;
    let ghost s0 = surfaces@.len();
    let ghost abs = unit_pass1(unit, *node, s0, nmap@, amap@, ranges@);
    let root = SurfaceId(0);
    let key = match unit.kind {
        RenderUnitKind::Leaf(n) => UnitKey::Leaf(n),
        RenderUnitKind::Group(n) => UnitKey::Group(n),
    };
    let is_group = match unit.kind {
        RenderUnitKind::Group(_) => true,
        _ => false,
    };
    let has_transition = unit.transition_in.is_some() || unit.transition_out.is_some();
    let needs_isolation = is_group || node.mask.is_some() || node.has_effects || node.blend != BlendMode::Normal || has_transition;
    if !needs_isolation {
        assert(ops@.subrange(0, ops0.len() as int) =~= ops0);
        return None;
    }
    proof {
        lemma_fresh_surface(ops@, last_write@);
        lemma_effect_ops_len(node.effect_passes@, chain_start(*node, s0), node.effect_passes@.len() as int);
    }
    let us = alloc_surface_like(surfaces, last_write, root);
    push_op(ops, last_write, draw_kind(key, unit.leaf_start, unit.leaf_end, true), Vec::new(), us);
    proof {
        assert(surfaces@ =~= canvas_surfaces(d, surfaces@.len()));
    }
    let ghost draw = AbsOp::Draw { unit: unit_key(unit.kind), start: unit.leaf_start, end: unit.leaf_end, clear: true, inputs: Seq::empty(), output: us };
    let ghost ops1 = ops@;
    proof {
        lemma_extends_one(ops1, ops0, draw);
    }
    let mut current = us;
    let ghost head: Seq<AbsOp>;
    match node.mask {
        Some(m) => {
            let ms = compile_mask_source(surfaces, ops, last_write, root, m.source, nmap, amap, ranges);
            proof { assert(surfaces@ =~= canvas_surfaces(d, surfaces@.len())); }
            let ghost ops2 = ops@;
            proof {
                lemma_fresh_surface(ops@, last_write@);
                lemma_extends_one(ops2, ops1, mask_abs(m.source, ms, nmap@, amap@, ranges@));
            }
            let masked = alloc_surface_like(surfaces, last_write, root);
            let mut ins: Vec<SurfaceId> = Vec::new();
            ins.push(current);
            ins.push(ms);
            assert(ins@ =~= seq![current, ms]);
            push_op(ops, last_write, OpKind::Pass { fx: PassFx::MaskApply { mode: m.mode, inverted: m.inverted } }, ins, masked);
            proof {
                assert(surfaces@ =~= canvas_surfaces(d, surfaces@.len()));
                let ma = AbsOp::MaskApply { mode: m.mode, inverted: m.inverted, src: us, mask: ms, output: masked };
                lemma_extends_one(ops@, ops2, ma);
                lemma_extends_chain(ops2, ops1, ops0, seq![draw], seq![mask_abs(m.source, ms, nmap@, amap@, ranges@)]);
                lemma_extends_chain(ops@, ops2, ops0, seq![draw] + seq![mask_abs(m.source, ms, nmap@, amap@, ranges@)], seq![ma]);
                head = seq![draw, mask_abs(m.source, ms, nmap@, amap@, ranges@), ma];
                assert(seq![draw] + seq![mask_abs(m.source, ms, nmap@, amap@, ranges@)] + seq![ma] =~= head);
            }
            current = masked;
        },
        None => {
            proof {
                head = seq![draw];
            }
        },
    }
    let ghost opsh = ops@;
    let out = compile_effects(surfaces, ops, last_write, &node.effect_passes, current, Ghost(d));
    proof {
        lemma_extends_chain(ops@, opsh, ops0, head, effect_ops(node.effect_passes@, current.0 as nat, node.effect_passes@.len() as int));
        assert(abs == head + effect_ops(node.effect_passes@, chain_start(*node, s0), node.effect_passes@.len() as int));
    }
    Some(out)
}

/// Mix units `a` and `b` into a fresh surface and composite it over the canvas.
fn compile_pair(
    surfaces: &mut Vec<SurfaceDesc>, ops: &mut Vec<Op>, last_write: &mut Vec<Option<OpId>>, a: SurfaceId, b: SurfaceId,
    step: CompositeOp, rw: bool, blend: BlendMode, Ghost(d): Ghost<SurfaceDesc>,
) -> (u: ())
    requires
        state_ok(old(surfaces)@, old(ops)@, old(last_write)@, d),
        a.0 < old(surfaces)@.len(),
        b.0 < old(surfaces)@.len(),
        old(surfaces)@.len() < 0x1_0000_0000,
        old(ops)@.len() + 2 <= 0x1_0000_0000,
    ensures
        state_ok(final(surfaces)@, final(ops)@, final(last_write)@, d),
        final(surfaces)@.len() == old(surfaces)@.len() + 1,
        extends_by(final(ops)@, old(ops)@, seq![
            AbsOp::Mix { a, b, step, output: SurfaceId(old(surfaces)@.len() as u32) },
            AbsOp::Over { clear: !rw, inputs: root_inputs(rw, SurfaceId(old(surfaces)@.len() as u32)),
                src: SurfaceId(old(surfaces)@.len() as u32), opacity_bits: F32_ONE_BITS, blend }]),
{
    let ghost ops0 = ops@;
    proof { lemma_fresh_surface(ops@, last_write@); }
    let out = alloc_surface_like(surfaces, last_write, SurfaceId(0));
    let mut ins: Vec<SurfaceId> = Vec::new();
    ins.push(a);
    ins.push(b);
    assert(ins@ =~= seq![a, b]);
    let mut v: Vec<CompositeOp> = Vec::new();
    v.push(step);
    assert(v@ =~= seq![step]);
    push_op(ops, last_write, OpKind::Composite { clear_to_transparent: true, ops: v }, ins, out);
    let ghost ops1 = ops@;
    let ghost m = AbsOp::Mix { a, b, step, output: out };
    proof { lemma_extends_one(ops1, ops0, m); }
    push_op(ops, last_write, over_root(out, !rw, F32_ONE_BITS, blend), root_input_vec(rw, out), SurfaceId(0));
    proof {
        assert(surfaces@ =~= canvas_surfaces(d, surfaces@.len()));
        let o = AbsOp::Over { clear: !rw, inputs: root_inputs(rw, out), src: out, opacity_bits: F32_ONE_BITS, blend };
        lemma_extends_one(ops@, ops1, o);
        lemma_extends_chain(ops@, ops1, ops0, seq![m], seq![o]);
        assert(seq![m] + seq![o] =~= seq![m, o]);
    }
}

/// The first pass over all units: every isolated unit is drawn into its own surfaces; returns,
/// per unit, the surface that holds it.
#[verifier::rlimit(60)]
fn compile_pass1(
    surfaces: &mut Vec<SurfaceDesc>, ops: &mut Vec<Op>, last_write: &mut Vec<Option<OpId>>, units: &Vec<RenderUnit>, nodes: &[NodeIR],
    nmap: &[Option<NodeIdx>], amap: &[Option<AssetIdx>], ranges: &[(usize, usize)], Ghost(d): Ghost<SurfaceDesc>,
) -> (unit_surfaces: Vec<Option<SurfaceId>>)
    requires
        state_ok(old(surfaces)@, old(ops)@, old(last_write)@, d),
        old(surfaces)@.len() == 1,
        old(ops)@.len() == 0,
        forall|j: int| 0 <= j < units@.len() ==> (#[trigger] unit_node(units@[j].kind)).0 < nodes@.len(),
        surf_count(units@, nodes@, units@.len() as int) <= 0x1_0000_0000,
        pass1_ops(units@, nodes@, nmap@, amap@, ranges@, units@.len() as int).len() <= 0x1_0000_0000,
    ensures
        state_ok(final(surfaces)@, final(ops)@, final(last_write)@, d),
        final(surfaces)@.len() == surf_count(units@, nodes@, units@.len() as int),
        extends_by(final(ops)@, Seq::empty(), pass1_ops(units@, nodes@, nmap@, amap@, ranges@, units@.len() as int)),
        unit_surfaces@.len() == units@.len(),
        forall|k: int| 0 <= k < units@.len() ==> #[trigger] unit_surfaces@[k]
            == (if isolated(units@[k], node_of(units@, nodes@, k)) { Some(unit_surf(units@, nodes@, k)) } else { None::<SurfaceId> }),
{
    let ghost us = units@;
    let ghost nu = us.len() as int;
    let mut unit_surfaces: Vec<Option<SurfaceId>> = Vec::new();
    let n = units.len();
    let mut i: usize = 0;
    proof {
        assert(ops@.subrange(0, 0) =~= Seq::<Op>::empty());
        assert(ops@ =~= Seq::<Op>::empty());
    }
    while i < n
        invariant
            n == us.len(),
            nu == n as int,
            i <= n,
            us == units@,
            forall|j: int| 0 <= j < us.len() ==> (#[trigger] unit_node(us[j].kind)).0 < nodes@.len(),
            surf_count(us, nodes@, nu) <= 0x1_0000_0000,
            pass1_ops(us, nodes@, nmap@, amap@, ranges@, nu).len() <= 0x1_0000_0000,
            state_ok(surfaces@, ops@, last_write@, d),
            surfaces@.len() == surf_count(us, nodes@, i as int),
            extends_by(ops@, Seq::empty(), pass1_ops(us, nodes@, nmap@, amap@, ranges@, i as int)),
            unit_surfaces@.len() == i,
            forall|k: int| 0 <= k < i ==> #[trigger] unit_surfaces@[k]
                == (if isolated(us[k], node_of(us, nodes@, k)) { Some(unit_surf(us, nodes@, k)) } else { None::<SurfaceId> }),
        decreases n - i,
    {
        let unit = units[i];
        let nd = match unit.kind {
            RenderUnitKind::Leaf(x) => x,
            RenderUnitKind::Group(x) => x,
        };
        assert(nd == unit_node(us[i as int].kind));
        let node = &nodes[nd.0 as usize];
        proof {
            lemma_counts_monotone(us, nodes@, nmap@, amap@, ranges@, i + 1, nu);
            assert(pass1_ops(us, nodes@, nmap@, amap@, ranges@, i + 1) == pass1_ops(us, nodes@, nmap@, amap@, ranges@, i as int)
                + unit_pass1(unit, *node, surf_count(us, nodes@, i as int), nmap@, amap@, ranges@));
        }
        let ghost ops1 = ops@;
        let r = compile_unit_pass1(surfaces, ops, last_write, unit, node, nmap, amap, ranges, Ghost(d));
        proof {
            lemma_extends_chain(ops@, ops1, Seq::empty(), pass1_ops(us, nodes@, nmap@, amap@, ranges@, i as int),
                unit_pass1(unit, *node, surf_count(us, nodes@, i as int), nmap@, amap@, ranges@));
        }
        unit_surfaces.push(r);
        i = i + 1;
    }
    unit_surfaces
}

proof fn lemma_unit_surf_bound(units: Seq<RenderUnit>, nodes: Seq<NodeIR>, nmap: Seq<Option<NodeIdx>>, amap: Seq<Option<AssetIdx>>, ranges: Seq<(usize, usize)>, k: int)
    requires
        0 <= k < units.len(),
        isolated(units[k], node_of(units, nodes, k)),
    ensures
        unit_final(node_of(units, nodes, k), surf_count(units, nodes, k)) < surf_count(units, nodes, units.len() as int),
{
    lemma_counts_monotone(units, nodes, nmap, amap, ranges, k + 1, units.len() as int);
}

/// Compile a frame in two passes. Surface `0` is the canvas. First, every isolated unit (a
/// group, or a unit whose node has a mask, effects or a non-normal blend, or that is inside a
/// transition window) is drawn into its own surface, masked through a mask surface and run
/// through one pass per effect. Then, in painter order, two adjacent units whose transitions
/// meet (see [`pairs_at`]) are mixed into a fresh surface that is composited over the canvas;
/// other isolated units are composited over the canvas with their opacity and blend; the rest
/// are drawn straight into the canvas (see [`frame_ops`]). Every op depends exactly on the last
/// writers of what it reads and writes.
#[verifier::rlimit(80)]
pub fn compile_frame(
    canvas_width: u32, canvas_height: u32, nodes: &[NodeIR], eval: &EvaluatedGraph, looks: &[UnitLook],
    node_idx_by_intern: &[Option<NodeIdx>], asset_idx_by_intern: &[Option<AssetIdx>],
) -> (plan: RenderPlan)
    requires
        looks@.len() == eval.units@.len(),
        forall|i: int| 0 <= i < eval.units@.len() ==> (#[trigger] unit_node(eval.units@[i].kind)).0 < nodes@.len(),
        frame_surfaces(eval.units@, nodes@, looks@) <= 0x1_0000_0000,
        frame_ops(eval.units@, nodes@, looks@, node_idx_by_intern@, asset_idx_by_intern@, eval.node_leaf_ranges@).len() <= 0x1_0000_0000,
    ensures
        plan.surfaces@ == canvas_surfaces(SurfaceDesc { width: canvas_width, height: canvas_height, format: PixelFormat::Rgba8Premul },
            frame_surfaces(eval.units@, nodes@, looks@)),
        plan.roots@ == seq![SurfaceId(0)],
        extends_by(plan.ops@, Seq::empty(),
            frame_ops(eval.units@, nodes@, looks@, node_idx_by_intern@, asset_idx_by_intern@, eval.node_leaf_ranges@)),
        deps_ok(plan.ops@),
        surfaces_in(plan.ops@, plan.surfaces@.len() as int),
{
    let ghost d = SurfaceDesc { width: canvas_width, height: canvas_height, format: PixelFormat::Rgba8Premul };
    let ghost us = eval.units@;
    let ghost lk = looks@;
    let ghost nmap = node_idx_by_intern@;
    let ghost amap = asset_idx_by_intern@;
    let ghost rg = eval.node_leaf_ranges@;
    let ghost nu = us.len() as int;
    let ghost s1 = surf_count(us, nodes@, nu);
    let ghost p2 = pass2(us, nodes@, lk, 0, false, s1);
    let mut surfaces: Vec<SurfaceDesc> = Vec::new();
    surfaces.push(SurfaceDesc { width: canvas_width, height: canvas_height, format: PixelFormat::Rgba8Premul });
    let mut ops: Vec<Op> = Vec::new();
    let mut last_write: Vec<Option<OpId>> = Vec::new();
    last_write.push(None);
    proof {
        assert(surfaces@ =~= canvas_surfaces(d, 1));
        assert(ops@.subrange(0, 0) =~= Seq::<Op>::empty());
        lemma_counts_monotone(us, nodes@, nmap, amap, rg, 0, nu);
        lemma_pass2_surfaces(us, nodes@, lk, 0, false, s1);
    }
    // First pass: isolated units into their own surfaces.
    let unit_surfaces = compile_pass1(&mut surfaces, &mut ops, &mut last_write, &eval.units, nodes,
        node_idx_by_intern, asset_idx_by_intern, &eval.node_leaf_ranges, Ghost(d));
    let n = eval.units.len();
    let mut i: usize;
    proof {
        assert forall|k: int| 0 <= k < n && isolated(us[k], node_of(us, nodes@, k)) implies #[trigger] unit_surf(us, nodes@, k).0 < s1 by {
            lemma_unit_surf_bound(us, nodes@, nmap, amap, rg, k);
        }
    }
    // Second pass: composite in painter order, pairing transitions.
    let mut root_written = false;
    let ghost mut done: Seq<AbsOp> = Seq::empty();
    let ghost p1 = pass1_ops(us, nodes@, nmap, amap, rg, nu);
    assert(done + pass2(us, nodes@, lk, 0, false, s1).0 =~= p2.0);
    i = 0;
    while i < n
        invariant
            n == us.len(),
            i <= n,
            us == eval.units@,
            lk == looks@,
            lk.len() == n,
            forall|j: int| 0 <= j < us.len() ==> (#[trigger] unit_node(us[j].kind)).0 < nodes@.len(),
            s1 == surf_count(us, nodes@, nu),
            p2 == pass2(us, nodes@, lk, 0, false, s1),
            p2.1 <= 0x1_0000_0000,
            (p1 + p2.0).len() <= 0x1_0000_0000,
            state_ok(surfaces@, ops@, last_write@, d),
            surfaces@.len() >= s1,
            extends_by(ops@, Seq::empty(), p1 + done),
            done + pass2(us, nodes@, lk, i as int, root_written, surfaces@.len()).0 == p2.0,
            pass2(us, nodes@, lk, i as int, root_written, surfaces@.len()).1 == p2.1,
            unit_surfaces@.len() == n,
            forall|k: int| 0 <= k < n ==> #[trigger] unit_surfaces@[k]
                == (if isolated(us[k], node_of(us, nodes@, k)) { Some(unit_surf(us, nodes@, k)) } else { None::<SurfaceId> }),
            forall|k: int| 0 <= k < n ==> isolated(us[k], node_of(us, nodes@, k)) ==> #[trigger] unit_surf(us, nodes@, k).0 < s1,
        decreases n - i,
    {
        let ghost sc = surfaces@.len();
        let ghost rest = pass2(us, nodes@, lk, i as int, root_written, sc);
        proof {
            lemma_pass2_surfaces(us, nodes@, lk, i as int, root_written, sc);
        }
        let unit = eval.units[i];
        let nd = match unit.kind {
            RenderUnitKind::Leaf(x) => x,
            RenderUnitKind::Group(x) => x,
        };
        assert(nd == unit_node(us[i as int].kind));
        let node = &nodes[nd.0 as usize];
        let mut paired = false;
        if i + 1 < n {
            let next = eval.units[i + 1];
            let nd2 = match next.kind {
                RenderUnitKind::Leaf(x) => x,
                RenderUnitKind::Group(x) => x,
            };
            assert(nd2 == unit_node(us[i + 1].kind));
            let node2 = &nodes[nd2.0 as usize];
            let look = looks[i];
            match (unit_surfaces[i], unit_surfaces[i + 1], unit.transition_out, next.transition_in, look.exit_mix) {
                (Some(a), Some(b), Some(o), Some(x), Some(mix)) => {
                    if o.kind.0 == x.kind.0 && node.blend == node2.blend && look.aligned_with_next {
                        assert(pairs_at(us, nodes@, lk, i as int));
                        proof {
                            lemma_pass2_surfaces(us, nodes@, lk, i as int, root_written, sc);
                            lemma_pass2_surfaces(us, nodes@, lk, i + 2, true, sc + 1);
                        }
                        let step = mix_step(mix, a, b, looks[i + 1].progress_in_bits);
                        let ghost opsb = ops@;
                        let ghost two = seq![
                            AbsOp::Mix { a, b, step, output: SurfaceId(sc as u32) },
                            AbsOp::Over { clear: !root_written, inputs: root_inputs(root_written, SurfaceId(sc as u32)),
                                src: SurfaceId(sc as u32), opacity_bits: F32_ONE_BITS, blend: node2.blend }];
                        proof {
                            assert(rest.0 == two + pass2(us, nodes@, lk, i + 2, true, sc + 1).0);
                            assert((p1 + done + two).len() <= (p1 + p2.0).len()) by {
                                assert(p2.0 == done + rest.0);
                            }
                        }
                        compile_pair(&mut surfaces, &mut ops, &mut last_write, a, b, step, root_written, node2.blend, Ghost(d));
                        proof {
                            lemma_extends_chain(ops@, opsb, Seq::empty(), p1 + done, two);
                            assert(p1 + done + two =~= p1 + (done + two));
                            assert(done + two + pass2(us, nodes@, lk, i + 2, true, sc + 1).0 =~= done + rest.0);
                            done = done + two;
                        }
                        paired = true;
                    }
                },
                _ => {},
            }
        }
        if paired {
            root_written = true;
            i = i + 2;
        } else {
            assert(!pairs_at(us, nodes@, lk, i as int));
            let ghost opsb = ops@;
            match unit_surfaces[i] {
                Some(s) => {
                    let ghost one = AbsOp::Over { clear: !root_written, inputs: root_inputs(root_written, s), src: s,
                        opacity_bits: looks@[i as int].opacity_bits, blend: node.blend };
                    proof {
                        assert(rest.0 == seq![one] + pass2(us, nodes@, lk, i + 1, true, sc).0);
                        assert(p2.0 == done + rest.0);
                    }
                    push_op(&mut ops, &mut last_write, over_root(s, !root_written, looks[i].opacity_bits, node.blend),
                        root_input_vec(root_written, s), SurfaceId(0));
                    proof {
                        lemma_extends_one(ops@, opsb, one);
                        lemma_extends_chain(ops@, opsb, Seq::empty(), p1 + done, seq![one]);
                        assert(p1 + done + seq![one] =~= p1 + (done + seq![one]));
                        assert(done + seq![one] + pass2(us, nodes@, lk, i + 1, true, sc).0 =~= done + rest.0);
                        done = done + seq![one];
                    }
                },
                None => {
                    let key = match unit.kind {
                        RenderUnitKind::Leaf(x) => UnitKey::Leaf(x),
                        RenderUnitKind::Group(x) => UnitKey::Group(x),
                    };
                    let mut ins: Vec<SurfaceId> = Vec::new();
                    if root_written {
                        ins.push(SurfaceId(0));
                    }
                    let ghost one = AbsOp::Draw { unit: unit_key(unit.kind), start: unit.leaf_start, end: unit.leaf_end, clear: !root_written,
                        inputs: if root_written { seq![SurfaceId(0)] } else { Seq::empty() }, output: SurfaceId(0) };
                    proof {
                        if root_written { assert(ins@ =~= seq![SurfaceId(0)]); } else { assert(ins@ =~= Seq::<SurfaceId>::empty()); }
                        assert(rest.0 == seq![one] + pass2(us, nodes@, lk, i + 1, true, sc).0);
                        assert(p2.0 == done + rest.0);
                    }
                    push_op(&mut ops, &mut last_write, draw_kind(key, unit.leaf_start, unit.leaf_end, !root_written), ins, SurfaceId(0));
                    proof {
                        lemma_extends_one(ops@, opsb, one);
                        lemma_extends_chain(ops@, opsb, Seq::empty(), p1 + done, seq![one]);
                        assert(p1 + done + seq![one] =~= p1 + (done + seq![one]));
                        assert(done + seq![one] + pass2(us, nodes@, lk, i + 1, true, sc).0 =~= done + rest.0);
                        done = done + seq![one];
                    }
                },
            }
            root_written = true;
            i = i + 1;
        }
    }
    proof {
        assert(pass2(us, nodes@, lk, i as int, root_written, surfaces@.len()).0 == Seq::<AbsOp>::empty());
        assert(done =~= p2.0);
    }
    let mut roots: Vec<SurfaceId> = Vec::new();
    roots.push(SurfaceId(0));
    proof {
        assert(roots@ =~= seq![SurfaceId(0)]);
    }
    RenderPlan { surfaces, ops, roots }
}

proof fn lemma_last_writer_before(ops: Seq<Op>, i: int, s: SurfaceId)
    requires
        0 <= i <= ops.len(),
        ops.len() <= 0x1_0000_0000,
    ensures
        last_writer(ops, i, s) matches Some(w) ==> w.0 < i && ops[w.0 as int].output == s,
    decreases i,
{
    if i > 0 {
        lemma_last_writer_before(ops, i - 1, s);
    }
}

proof fn lemma_input_deps_before(ops: Seq<Op>, i: int, ins: Seq<SurfaceId>, k: int)
    requires
        0 <= i <= ops.len(),
        ops.len() <= 0x1_0000_0000,
        0 <= k <= ins.len(),
    ensures
        forall|j: int| 0 <= j < input_deps(ops, i, ins, k).len() ==> (#[trigger] input_deps(ops, i, ins, k)[j]).0 < i,
    decreases k,
{
    if k > 0 {
        lemma_input_deps_before(ops, i, ins, k - 1);
        lemma_last_writer_before(ops, i, ins[k - 1]);
        let prev = input_deps(ops, i, ins, k - 1);
        let cur = input_deps(ops, i, ins, k);
        assert forall|j: int| 0 <= j < cur.len() implies (#[trigger] cur[j]).0 < i by {
            if j < prev.len() {
                assert(cur[j] == prev[j]);
            }
        }
    }
}

/// In a plan whose dependencies are the last writers, every op depends only on ops before
/// it, and on ops that wrote a surface it reads or writes, each at most once — so painter
/// order is a valid schedule.
pub proof fn law_deps_point_backwards(ops: Seq<Op>)
    requires
        deps_ok(ops),
        ops.len() <= 0x1_0000_0000,
    ensures
        forall|i: int, j: int| 0 <= i < ops.len() && 0 <= j < ops[i].deps@.len() ==> {
            let w = (#[trigger] ops[i].deps@[j]).0 as int;
            &&& w < i
            &&& (ops[w].output == ops[i].output || ops[i].inputs@.contains(ops[w].output))
        },
        forall|i: int| 0 <= i < ops.len() ==> (#[trigger] ops[i]).deps@.no_duplicates(),
{
    assert forall|i: int| 0 <= i < ops.len() implies (#[trigger] ops[i]).deps@.no_duplicates() by {
        let ins = ops[i].inputs@;
        lemma_input_deps_distinct(ops, i, ins, ins.len() as int);
        lemma_add_dep_distinct(input_deps(ops, i, ins, ins.len() as int), last_writer(ops, i, ops[i].output));
    }
    assert forall|i: int, j: int| 0 <= i < ops.len() && 0 <= j < ops[i].deps@.len() implies {
        let w = (#[trigger] ops[i].deps@[j]).0 as int;
        &&& w < i
        &&& (ops[w].output == ops[i].output || ops[i].inputs@.contains(ops[w].output))
    } by {
        let ins = ops[i].inputs@;
        lemma_input_deps_before(ops, i, ins, ins.len() as int);
        lemma_last_writer_before(ops, i, ops[i].output);
        lemma_input_deps_writers(ops, i, ins, ins.len() as int);
        let prev = input_deps(ops, i, ins, ins.len() as int);
        assert(ops[i].deps@ == add_dep(prev, last_writer(ops, i, ops[i].output)));
        if j < prev.len() {
            assert(ops[i].deps@[j] == prev[j]);
        }
    }
}

proof fn lemma_add_dep_distinct(deps: Seq<OpId>, w: Option<OpId>)
    requires
        deps.no_duplicates(),
    ensures
        add_dep(deps, w).no_duplicates(),
{
    match w {
        Some(x) => {
            if !deps.contains(x) {
                let d2 = deps.push(x);
                assert forall|a: int, b: int| 0 <= a < d2.len() && 0 <= b < d2.len() && a != b implies d2[a] != d2[b] by {
                    if a < deps.len() && b < deps.len() {
                        assert(d2[a] == deps[a] && d2[b] == deps[b]);
                    } else if a < deps.len() {
                        assert(d2[a] == deps[a]);
                    } else if b < deps.len() {
                        assert(d2[b] == deps[b]);
                    }
                }
            }
        },
        None => {},
    }
}

proof fn lemma_input_deps_distinct(ops: Seq<Op>, i: int, ins: Seq<SurfaceId>, k: int)
    ensures
        input_deps(ops, i, ins, k).no_duplicates(),
    decreases k,
{
    if k > 0 {
        lemma_input_deps_distinct(ops, i, ins, k - 1);
        lemma_add_dep_distinct(input_deps(ops, i, ins, k - 1), last_writer(ops, i, ins[k - 1]));
    }
}

proof fn lemma_input_deps_writers(ops: Seq<Op>, i: int, ins: Seq<SurfaceId>, k: int)
    requires
        0 <= i <= ops.len(),
        ops.len() <= 0x1_0000_0000,
        0 <= k <= ins.len(),
    ensures
        forall|j: int| 0 <= j < input_deps(ops, i, ins, k).len() ==>
            ins.subrange(0, k).contains(ops[(#[trigger] input_deps(ops, i, ins, k)[j]).0 as int].output),
    decreases k,
{
    if k > 0 {
        lemma_input_deps_writers(ops, i, ins, k - 1);
        lemma_last_writer_before(ops, i, ins[k - 1]);
        let prev = input_deps(ops, i, ins, k - 1);
        let cur = input_deps(ops, i, ins, k);
        assert forall|j: int| 0 <= j < cur.len() implies ins.subrange(0, k).contains(ops[(#[trigger] cur[j]).0 as int].output) by {
            if j < prev.len() {
                assert(cur[j] == prev[j]);
                let x = ops[prev[j].0 as int].output;
                let t = choose|t: int| 0 <= t < k - 1 && #[trigger] ins.subrange(0, k - 1)[t] == x;
                assert(ins.subrange(0, k)[t] == x);
            } else {
                assert(ins.subrange(0, k)[k - 1] == ins[k - 1]);
            }
        }
    }
}

} // verus!
