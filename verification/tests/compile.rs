use wavyte::compile::{alloc_surface_like, compile_frame, push_op, TransitionMix, UnitLook};
use wavyte::graph::{emit_frame_graph, EvaluatedGraph};
use wavyte::plan::{
    AssetIdx, BlendMode, CompositeOp, InternId, MaskGenSource, MaskMode, NodeIdx, OpId, OpKind, PassFx, PixelFormat,
    RenderPlan, SurfaceDesc, SurfaceId, UnitKey,
};
use wavyte::schema::CollectionMode;
use wavyte::tree::{compute_node_time_ctxs, compute_visibility, MaskIR, MaskSourceIR, NodeIR, NodeKindIR, TransitionSpecIR};

fn node(kind: NodeKindIR) -> NodeIR {
    NodeIR {
        range_start: 0,
        range_end: 10,
        kind,
        mask: None,
        has_effects: false,
        effect_passes: Vec::new(),
        blend: BlendMode::Normal,
        transition_in: None,
        transition_out: None,
    }
}

fn leaf() -> NodeIR {
    node(NodeKindIR::Leaf { asset: AssetIdx(0) })
}

fn group(children: Vec<u32>) -> NodeIR {
    node(NodeKindIR::Collection {
        mode: CollectionMode::Group,
        children: children.into_iter().map(NodeIdx).collect(),
        sequence_prefix_starts: None,
    })
}

fn eval_at(nodes: &[NodeIR], frame: u64) -> EvaluatedGraph {
    let t = compute_node_time_ctxs(nodes, NodeIdx(0), frame).unwrap();
    let active: Vec<_> = nodes.iter().map(|_| Ok(0)).collect();
    let vis = compute_visibility(nodes, NodeIdx(0), &t, &active).unwrap();
    emit_frame_graph(nodes, NodeIdx(0), frame, &t, &vis, &vec![None; nodes.len()]).unwrap()
}

fn eval(nodes: &[NodeIR]) -> EvaluatedGraph {
    eval_at(nodes, 0)
}

/// Linear progress of a transition window.
fn progress(w: &wavyte::graph::TransitionWindow) -> f32 {
    if w.denom == 0 { 1.0 } else { (w.offset as f32 / w.denom as f32).clamp(0.0, 1.0) }
}

/// What a renderer samples for each unit, with linear easing and crossfades.
fn looks(g: &EvaluatedGraph) -> Vec<UnitLook> {
    let n = g.units.len();
    (0..n)
        .map(|i| {
            let u = &g.units[i];
            let p_in = u.transition_in.as_ref().map(progress);
            let p_out = u.transition_out.as_ref().map(progress);
            let opacity = p_in.unwrap_or(1.0) * (1.0 - p_out.unwrap_or(0.0));
            let aligned = match (p_out, g.units.get(i + 1).and_then(|v| v.transition_in.as_ref()).map(progress)) {
                (Some(a), Some(b)) => (a - b).abs() <= 1.0 / 1024.0,
                _ => false,
            };
            UnitLook {
                opacity_bits: opacity.to_bits(),
                progress_in_bits: p_in.unwrap_or(1.0).to_bits(),
                exit_mix: u.transition_out.map(|_| TransitionMix::Crossfade),
                aligned_with_next: aligned,
            }
        })
        .collect()
}

fn compile_graph(nodes: &[NodeIR], g: &EvaluatedGraph, nmap: &[Option<NodeIdx>], amap: &[Option<AssetIdx>]) -> RenderPlan {
    compile_frame(1, 1, nodes, g, &looks(g), nmap, amap)
}

fn compile(nodes: &[NodeIR], nmap: &[Option<NodeIdx>], amap: &[Option<AssetIdx>]) -> (EvaluatedGraph, RenderPlan) {
    let g = eval(nodes);
    let plan = compile_graph(nodes, &g, nmap, amap);
    (g, plan)
}

#[test]
fn compiler_compile_emits_direct_root_draw_ops_for_simple_leaf_units() {
    let nodes = vec![group(vec![1, 2]), leaf(), leaf()];
    let (_, plan) = compile(&nodes, &[], &[]);
    assert_eq!(plan.surfaces.len(), 1);
    assert_eq!(plan.roots.len(), 1);
    assert_eq!(plan.roots[0], SurfaceId(0));
    assert_eq!(plan.ops.len(), 2);
    assert!(matches!(plan.ops[0].kind, OpKind::Draw { .. }));
    assert!(matches!(plan.ops[1].kind, OpKind::Draw { .. }));
}

#[test]
fn compiler_compile_allocates_isolation_surface_for_isolated_group_unit() {
    // A group with a blur effect (default radius 8, sigma 8 / 3).
    let mut fx_group = group(vec![2]);
    fx_group.has_effects = true;
    fx_group.effect_passes = vec![PassFx::Blur { radius_px: 8, sigma_bits: (8.0f32 / 3.0).to_bits() }];
    let nodes = vec![group(vec![1]), fx_group, leaf()];
    let (g, plan) = compile(&nodes, &[], &[]);
    assert_eq!(g.units.len(), 1);
    assert!(matches!(g.units[0].kind, wavyte::graph::RenderUnitKind::Group(_)));
    assert_eq!(plan.surfaces.len(), 3);
    assert_eq!(plan.ops.len(), 3);
    assert!(matches!(plan.ops[0].kind, OpKind::Draw { .. }));
    assert!(matches!(plan.ops[1].kind, OpKind::Pass { .. }));
    assert!(matches!(plan.ops[2].kind, OpKind::Composite { .. }));
}

fn crossfade_pair(b_start: u64) -> Vec<NodeIR> {
    let fade = TransitionSpecIR { kind: InternId(1), duration_frames: 2 };
    let mut a = leaf();
    a.transition_out = Some(fade);
    let mut b = leaf();
    b.range_start = b_start;
    b.range_end = b_start + 10;
    b.transition_in = Some(fade);
    let mut root = group(vec![1, 2]);
    root.range_end = 20;
    vec![root, a, b]
}

#[test]
fn compile_pairs_crossfade_when_progress_is_aligned() {
    // At frame 9, a is in its last two frames and b in its first two: both progress 1.
    let nodes = crossfade_pair(8);
    let g = eval_at(&nodes, 9);
    assert_eq!(g.units.len(), 2);
    let plan = compile_graph(&nodes, &g, &[], &[]);
    assert!(plan.ops.iter().any(|op| match &op.kind {
        OpKind::Composite { ops, .. } => ops.iter().any(|c| matches!(c, CompositeOp::Crossfade { .. })),
        _ => false,
    }));
}

#[test]
fn compile_does_not_pair_when_progress_is_not_aligned() {
    // At frame 9, a's exit progress is 1 while b's entry progress is 0.
    let nodes = crossfade_pair(9);
    let g = eval_at(&nodes, 9);
    assert_eq!(g.units.len(), 2);
    let plan = compile_graph(&nodes, &g, &[], &[]);
    assert!(!plan.ops.iter().any(|op| match &op.kind {
        OpKind::Composite { ops, .. } => ops.iter().any(|c| matches!(c, CompositeOp::Crossfade { .. })),
        _ => false,
    }));
}

#[test]
fn paired_units_mix_into_a_fresh_surface() {
    let nodes = crossfade_pair(8);
    let g = eval_at(&nodes, 9);
    let plan = compile_graph(&nodes, &g, &[], &[]);
    // Two unit surfaces, the mix surface and the canvas.
    assert_eq!(plan.surfaces.len(), 4);
    assert_eq!(plan.ops.len(), 4);
    assert_eq!(plan.ops[2].inputs, vec![SurfaceId(1), SurfaceId(2)]);
    assert_eq!(plan.ops[2].output, SurfaceId(3));
    match &plan.ops[3].kind {
        OpKind::Composite { clear_to_transparent, ops } => {
            assert!(*clear_to_transparent);
            assert_eq!(ops[0], CompositeOp::Over { src: SurfaceId(3), opacity_bits: 1.0f32.to_bits(), blend: BlendMode::Normal });
        }
        _ => panic!("expected composite"),
    }
}

#[test]
fn unpaired_transition_units_composite_with_their_opacity() {
    let nodes = crossfade_pair(9);
    let g = eval_at(&nodes, 9);
    let plan = compile_graph(&nodes, &g, &[], &[]);
    // Draw a, draw b, then a over the canvas at opacity 0 and b at opacity 0.
    assert_eq!(plan.ops.len(), 4);
    match &plan.ops[2].kind {
        OpKind::Composite { ops, .. } => {
            assert_eq!(ops[0], CompositeOp::Over { src: SurfaceId(1), opacity_bits: 0.0f32.to_bits(), blend: BlendMode::Normal });
        }
        _ => panic!("expected composite"),
    }
}

#[test]
fn a_non_normal_blend_isolates_the_unit() {
    let mut l = leaf();
    l.blend = BlendMode::Multiply;
    let nodes = vec![group(vec![1, 2]), leaf(), l];
    let (_, plan) = compile(&nodes, &[], &[]);
    assert_eq!(plan.surfaces.len(), 2);
    // Direct draw of the first leaf, isolated draw of the second, its composite.
    assert_eq!(plan.ops.len(), 3);
    assert!(matches!(plan.ops[0].kind, OpKind::Draw { clear_to_transparent: true, .. }));
    match &plan.ops[2].kind {
        OpKind::Composite { clear_to_transparent, ops } => {
            assert!(!*clear_to_transparent);
            assert_eq!(ops[0], CompositeOp::Over { src: SurfaceId(1), opacity_bits: 1.0f32.to_bits(), blend: BlendMode::Multiply });
        }
        _ => panic!("expected composite"),
    }
}

#[test]
fn compiler_compile_emits_mask_surface_and_mask_apply_pass_for_group_mask() {
    let mut masked = group(vec![2, 3]);
    masked.mask = Some(MaskIR { source: MaskSourceIR::Node(InternId(5)), mode: MaskMode::Alpha, inverted: false });
    let nodes = vec![group(vec![1]), masked, leaf(), leaf()];
    let mut nmap = vec![None; 6];
    nmap[5] = Some(NodeIdx(2));
    let (_, plan) = compile(&nodes, &nmap, &[]);
    assert!(plan.ops.iter().any(|op| matches!(op.kind, OpKind::Pass { .. })));
    // unit surface, mask surface, masked surface on top of the canvas.
    assert_eq!(plan.surfaces.len(), 4);
    assert_eq!(plan.ops.len(), 4);
    match &plan.ops[1].kind {
        OpKind::Draw { unit, leaves_start, leaves_end, .. } => {
            assert_eq!(*unit, UnitKey::MaskNode(NodeIdx(2)));
            assert_eq!((*leaves_start, *leaves_end), (0, 1));
        }
        _ => panic!("expected mask draw"),
    }
    assert_eq!(plan.ops[2].inputs, vec![SurfaceId(1), SurfaceId(2)]);
    assert_eq!(plan.ops[2].output, SurfaceId(3));
    assert!(matches!(plan.ops[2].kind, OpKind::Pass { fx: PassFx::MaskApply { mode: MaskMode::Alpha, inverted: false } }));
    assert_eq!(plan.ops[3].deps, vec![OpId(2)]);
}

#[test]
fn unknown_mask_asset_draws_an_empty_mask() {
    let mut masked = group(vec![2]);
    masked.mask = Some(MaskIR { source: MaskSourceIR::Asset(InternId(1)), mode: MaskMode::Luma, inverted: true });
    let nodes = vec![group(vec![1]), masked, leaf()];
    let (_, plan) = compile(&nodes, &[], &[]);
    assert!(matches!(plan.ops[1].kind, OpKind::Draw { unit: UnitKey::MaskNode(NodeIdx(0)), leaves_start: 0, leaves_end: 0, .. }));
    let (_, plan) = compile(&nodes, &[], &[None, Some(AssetIdx(3))]);
    assert!(matches!(plan.ops[1].kind, OpKind::MaskGen { source: MaskGenSource::Asset(AssetIdx(3)) }));
}

#[test]
fn later_units_depend_on_earlier_root_writes() {
    let mut fx = group(vec![3]);
    fx.has_effects = true;
    let nodes = vec![group(vec![1, 2]), leaf(), fx, leaf()];
    let (_, plan) = compile(&nodes, &[], &[]);
    // First pass: isolated draw into S1. Second pass: leaf draw into root, then the composite
    // of S1 over root, which depends on the root's writer first, then on S1's.
    assert_eq!(plan.ops.len(), 3);
    assert_eq!(plan.ops[0].output, SurfaceId(1));
    assert_eq!(plan.ops[0].deps, vec![]);
    assert_eq!(plan.ops[1].output, SurfaceId(0));
    assert_eq!(plan.ops[1].deps, vec![]);
    assert_eq!(plan.ops[2].inputs, vec![SurfaceId(0), SurfaceId(1)]);
    assert_eq!(plan.ops[2].deps, vec![OpId(1), OpId(0)]);
    for (i, op) in plan.ops.iter().enumerate() {
        assert_eq!(op.id, OpId(i as u32));
        assert!(op.deps.iter().all(|d| (d.0 as usize) < i));
    }
}

#[test]
fn push_op_depends_on_last_writers_without_repeats() {
    let mut surfaces = vec![SurfaceDesc { width: 2, height: 2, format: PixelFormat::Rgba8Premul }];
    let mut ops = Vec::new();
    let mut lw = vec![None];
    let s1 = alloc_surface_like(&mut surfaces, &mut lw, SurfaceId(0));
    assert_eq!(s1, SurfaceId(1));
    assert_eq!(surfaces[1], surfaces[0]);
    let draw = || OpKind::MaskGen { source: MaskGenSource::Asset(AssetIdx(0)) };
    let a = push_op(&mut ops, &mut lw, draw(), vec![], SurfaceId(0));
    let b = push_op(&mut ops, &mut lw, draw(), vec![], s1);
    let c = push_op(&mut ops, &mut lw, draw(), vec![SurfaceId(0), s1, SurfaceId(0)], SurfaceId(0));
    assert_eq!((a, b, c), (OpId(0), OpId(1), OpId(2)));
    assert_eq!(ops[2].deps, vec![OpId(0), OpId(1)]);
    assert_eq!(lw, vec![Some(OpId(2)), Some(OpId(1))]);
}

#[test]
fn plan_dump_is_deterministic_for_same_frame() {
    let fade = TransitionSpecIR { kind: InternId(1), duration_frames: 2 };
    let mut a = leaf();
    a.transition_in = Some(fade);
    let mut b = leaf();
    b.range_start = 2;
    b.range_end = 12;
    b.transition_out = Some(fade);
    let mut root = group(vec![1, 2]);
    root.range_end = 20;
    let nodes = vec![root, a, b];
    let g = eval_at(&nodes, 2);
    let p1 = format!("{:?}", compile_graph(&nodes, &g, &[], &[]));
    let p2 = format!("{:?}", compile_graph(&nodes, &g, &[], &[]));
    assert_eq!(p1, p2);
}
