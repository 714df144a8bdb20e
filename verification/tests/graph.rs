use wavyte::plan::BlendMode;
use wavyte::graph::{
    emit_frame_graph, resolve_transition_in, resolve_transition_out, EvaluatedGraph, RenderUnitKind,
    TransitionWindow,
};
use wavyte::keyframes::{keyframe_position, KeyPos};
use wavyte::plan::{InternId, NodeIdx};
use wavyte::schema::CollectionMode;
use wavyte::tree::{
    compute_node_time_ctxs, compute_visibility, AssetIdx, NodeIR, NodeKindIR, TransitionSpecIR,
};

fn node(start: u64, end: u64, kind: NodeKindIR) -> NodeIR {
    NodeIR {
        range_start: start,
        range_end: end,
        kind,
        mask: None,
        has_effects: false,
        effect_passes: Vec::new(),
        blend: BlendMode::Normal,
        transition_in: None,
        transition_out: None,
    }
}

fn leaf(start: u64, end: u64) -> NodeIR {
    node(start, end, NodeKindIR::Leaf { asset: AssetIdx(0) })
}

fn collection(mode: CollectionMode, start: u64, end: u64, children: Vec<u32>, prefix: Option<Vec<u64>>) -> NodeIR {
    node(
        start,
        end,
        NodeKindIR::Collection {
            mode,
            children: children.into_iter().map(NodeIdx).collect(),
            sequence_prefix_starts: prefix,
        },
    )
}

fn eval_frame(nodes: &[NodeIR], frame: u64, switch_active: Vec<Result<u64, wavyte::error::WavyteError>>) -> EvaluatedGraph {
    let t = compute_node_time_ctxs(nodes, NodeIdx(0), frame).unwrap();
    let vis = compute_visibility(nodes, NodeIdx(0), &t, &switch_active).unwrap();
    let fails = vec![None; nodes.len()];
    emit_frame_graph(nodes, NodeIdx(0), frame, &t, &vis, &fails).unwrap()
}

#[test]
fn inactive_switch_child_does_not_emit_leaf() {
    let nodes = vec![
        collection(CollectionMode::Switch, 0, 20, vec![1, 2], None),
        leaf(0, 10),
        leaf(0, 10),
    ];
    let g = eval_frame(&nodes, 0, vec![Ok(1), Ok(0), Ok(0)]);
    assert_eq!(g.leaves.len(), 1);
    assert_eq!(g.leaves[0].node, NodeIdx(2));
}

#[test]
fn group_effect_triggers_isolated_group_unit_and_suppresses_leaf_units() {
    let mut group = collection(CollectionMode::Group, 0, 10, vec![2, 3], None);
    group.has_effects = true;
    let nodes = vec![
        collection(CollectionMode::Group, 0, 10, vec![1], None),
        group,
        leaf(0, 10),
        leaf(0, 10),
    ];
    let g = eval_frame(&nodes, 0, vec![Ok(0), Ok(0), Ok(0), Ok(0)]);
    assert_eq!(g.leaves.len(), 2);
    assert_eq!(g.groups.len(), 1);
    assert_eq!(g.units.len(), 1);
    assert!(matches!(g.units[0].kind, RenderUnitKind::Group(_)));
    assert_eq!((g.units[0].leaf_start, g.units[0].leaf_end), (0, 2));
    // Leaves carry both enclosing groups, outermost first.
    assert_eq!(g.leaves[0].group_stack, vec![NodeIdx(0), NodeIdx(1)]);
    assert_eq!(g.node_leaf_ranges[1], (0, 2));
}

#[test]
fn sequence_overlap_emits_both_children_in_overlap_window() {
    let fade = TransitionSpecIR { kind: InternId(9), duration_frames: 3 };
    let mut a = leaf(0, 10);
    a.transition_out = Some(fade);
    let mut b = leaf(0, 10);
    b.transition_in = Some(fade);
    let nodes = vec![collection(CollectionMode::Sequence, 0, 17, vec![1, 2], Some(vec![0, 7, 17])), a, b];

    let g6 = eval_frame(&nodes, 6, vec![Ok(0), Ok(0), Ok(0)]);
    assert_eq!(g6.leaves.len(), 1);
    assert_eq!(g6.units.len(), 1);

    let g7 = eval_frame(&nodes, 7, vec![Ok(0), Ok(0), Ok(0)]);
    assert_eq!(g7.leaves.len(), 2);
    assert_eq!(g7.units.len(), 2);
    assert!(
        g7.units.iter().any(|u| u.transition_out.is_some())
            && g7.units.iter().any(|u| u.transition_in.is_some())
    );
    assert_eq!(g7.units[0].transition_out, Some(TransitionWindow { kind: InternId(9), offset: 0, denom: 2 }));
    assert_eq!(g7.units[1].transition_in, Some(TransitionWindow { kind: InternId(9), offset: 0, denom: 2 }));
}

#[test]
fn comp_ref_and_sampling_failures_stop_evaluation() {
    let nodes = vec![
        collection(CollectionMode::Group, 0, 10, vec![1, 2], None),
        leaf(0, 10),
        node(0, 10, NodeKindIR::CompRef),
    ];
    let t = compute_node_time_ctxs(&nodes, NodeIdx(0), 0).unwrap();
    let vis = compute_visibility(&nodes, NodeIdx(0), &t, &vec![Ok(0), Ok(0), Ok(0)]).unwrap();
    let e = emit_frame_graph(&nodes, NodeIdx(0), 0, &t, &vis, &vec![None, None, None]).err().unwrap();
    assert_eq!(e.message(), "CompRef is not implemented in v0.3 evaluator yet");
    let fails = vec![None, Some(wavyte::error::WavyteError::evaluation("no value")), None];
    let e = emit_frame_graph(&nodes, NodeIdx(0), 0, &t, &vis, &fails).err().unwrap();
    assert_eq!(e.message(), "no value");
}

#[test]
fn transition_windows() {
    let s = TransitionSpecIR { kind: InternId(1), duration_frames: 4 };
    assert_eq!(resolve_transition_in(s, 0, 10), Some(TransitionWindow { kind: InternId(1), offset: 0, denom: 3 }));
    assert_eq!(resolve_transition_in(s, 3, 10), Some(TransitionWindow { kind: InternId(1), offset: 3, denom: 3 }));
    assert_eq!(resolve_transition_in(s, 4, 10), None);
    assert_eq!(resolve_transition_in(s, 0, 0), None);
    assert_eq!(resolve_transition_out(s, 5, 10), None);
    assert_eq!(resolve_transition_out(s, 6, 10), Some(TransitionWindow { kind: InternId(1), offset: 0, denom: 3 }));
    assert_eq!(resolve_transition_out(s, 9, 10), Some(TransitionWindow { kind: InternId(1), offset: 3, denom: 3 }));
    // A transition longer than the node covers the whole node.
    let long = TransitionSpecIR { kind: InternId(1), duration_frames: 50 };
    assert_eq!(resolve_transition_in(long, 0, 1), Some(TransitionWindow { kind: InternId(1), offset: 0, denom: 0 }));
}

#[test]
fn keyframe_positions() {
    assert_eq!(keyframe_position(&[], 5), KeyPos::NoKeys);
    let keys = [10u64, 20, 20, 40];
    assert_eq!(keyframe_position(&keys, 0), KeyPos::At(0));
    assert_eq!(keyframe_position(&keys, 10), KeyPos::Between { a: 0, offset: 0, denom: 10 });
    assert_eq!(keyframe_position(&keys, 15), KeyPos::Between { a: 0, offset: 5, denom: 10 });
    assert_eq!(keyframe_position(&keys, 20), KeyPos::Between { a: 2, offset: 0, denom: 20 });
    assert_eq!(keyframe_position(&keys, 39), KeyPos::Between { a: 2, offset: 19, denom: 20 });
    assert_eq!(keyframe_position(&keys, 40), KeyPos::At(3));
    assert_eq!(keyframe_position(&[7u64, 7], 7), KeyPos::At(1));
}
