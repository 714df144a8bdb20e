use wavyte::plan::BlendMode;
use wavyte::normalize::normalize;
use wavyte::plan::{InternId, MaskMode, NodeIdx};
use wavyte::schema::{CollectionMode, MaskDef, MaskRef, SceneKind, SceneNode, SceneSkeleton, ShapeDef, TransitionRef};
use wavyte::tree::{MaskSourceIR, NodeKindIR};
use wavyte::plan::ShapeIR;

fn node(id: &str, range: [u64; 2], kind: SceneKind) -> SceneNode {
    SceneNode {
        id: id.to_owned(),
        range,
        kind,
        effect_kinds: Vec::new(),
        effect_passes: Vec::new(),
        blend: BlendMode::Normal,
        mask: None,
        transition_in: None,
        transition_out: None,
    }
}

fn leaf(id: &str, asset: &str, range: [u64; 2]) -> SceneNode {
    node(id, range, SceneKind::Leaf { asset: asset.to_owned() })
}

fn collection(id: &str, range: [u64; 2], mode: CollectionMode, children: Vec<SceneNode>) -> SceneNode {
    node(id, range, SceneKind::Collection { mode, children })
}

fn skeleton(duration: u64, keys: &[&str], root: SceneNode) -> SceneSkeleton {
    SceneSkeleton {
        version: "0.3".to_owned(),
        duration,
        asset_keys: keys.iter().map(|k| k.to_string()).collect(),
        asset_media: Vec::new(),
        root,
    }
}

fn children(k: &NodeKindIR) -> Vec<u32> {
    match k {
        NodeKindIR::Collection { children, .. } => children.iter().map(|c| c.0).collect(),
        _ => panic!("not a collection"),
    }
}

#[test]
fn pass_normalize_builds_deterministic_node_arena() {
    let root = collection("root", [0, 10], CollectionMode::Group, vec![leaf("c", "a", [0, 10])]);
    let norm = normalize(&skeleton(10, &["a"], root)).unwrap();
    assert_eq!(norm.nodes.len(), 2);
    assert_eq!(norm.root.0, 0);
    assert_eq!(norm.node_id_by_idx.len(), 2);
}

#[test]
fn asset_keys_come_first_then_node_strings_in_preorder() {
    let root = collection("root", [0, 10], CollectionMode::Group, vec![leaf("c", "a", [0, 10])]);
    let norm = normalize(&skeleton(10, &["a"], root)).unwrap();
    assert_eq!(norm.interner.len(), 3);
    assert_eq!(norm.interner.get(InternId(0)), "a");
    assert_eq!(norm.interner.get(InternId(1)), "root");
    assert_eq!(norm.interner.get(InternId(2)), "c");
    assert_eq!(norm.node_id_by_idx.iter().map(|i| i.0).collect::<Vec<_>>(), vec![1, 2]);
    assert_eq!(norm.asset_key_by_idx.iter().map(|i| i.0).collect::<Vec<_>>(), vec![0]);
    assert_eq!(
        norm.node_idx_by_intern.iter().map(|o| o.map(|n| n.0)).collect::<Vec<_>>(),
        vec![None, Some(0), Some(1)]
    );
    assert_eq!(
        norm.asset_idx_by_intern.iter().map(|o| o.map(|a| a.0)).collect::<Vec<_>>(),
        vec![Some(0), None, None]
    );
    match &norm.nodes[1].kind {
        NodeKindIR::Leaf { asset } => assert_eq!(asset.0, 0),
        _ => panic!("expected a leaf"),
    }
}

#[test]
fn children_follow_their_parent_in_preorder() {
    // root(0) -> [g(1) -> [x(2), y(3)], z(4)]
    let g = collection("g", [0, 5], CollectionMode::Group, vec![leaf("x", "a", [0, 5]), leaf("y", "b", [0, 5])]);
    let root = collection("root", [0, 5], CollectionMode::Stack, vec![g, leaf("z", "b", [1, 4])]);
    let norm = normalize(&skeleton(5, &["a", "b"], root)).unwrap();
    assert_eq!(norm.nodes.len(), 5);
    assert_eq!(children(&norm.nodes[0].kind), vec![1, 4]);
    assert_eq!(children(&norm.nodes[1].kind), vec![2, 3]);
    assert_eq!(norm.nodes[4].range_start, 1);
    assert_eq!(norm.nodes[4].range_end, 4);
    match &norm.nodes[4].kind {
        NodeKindIR::Leaf { asset } => assert_eq!(asset.0, 1),
        _ => panic!("expected a leaf"),
    }
    assert_eq!(norm.node_idx_by_intern[norm.node_id_by_idx[3].0 as usize], Some(NodeIdx(3)));
}

#[test]
fn sequence_children_get_running_start_offsets() {
    let root = collection(
        "seq",
        [0, 12],
        CollectionMode::Sequence,
        vec![leaf("p", "a", [0, 5]), leaf("q", "a", [0, 7])],
    );
    let norm = normalize(&skeleton(12, &["a"], root)).unwrap();
    match &norm.nodes[0].kind {
        NodeKindIR::Collection { mode, sequence_prefix_starts, .. } => {
            assert_eq!(*mode, CollectionMode::Sequence);
            assert_eq!(sequence_prefix_starts.clone(), Some(vec![0, 5, 12]));
        },
        _ => panic!("expected a collection"),
    }
    let group = collection("g", [0, 12], CollectionMode::Group, vec![leaf("p", "a", [0, 5])]);
    let norm = normalize(&skeleton(12, &["a"], group)).unwrap();
    match &norm.nodes[0].kind {
        NodeKindIR::Collection { sequence_prefix_starts, .. } => assert_eq!(sequence_prefix_starts.clone(), None),
        _ => panic!("expected a collection"),
    }
}

#[test]
fn sequence_start_offsets_saturate() {
    let root = collection(
        "seq",
        [0, u64::MAX],
        CollectionMode::Sequence,
        vec![leaf("p", "a", [0, u64::MAX]), leaf("q", "a", [0, 7])],
    );
    let norm = normalize(&skeleton(u64::MAX, &["a"], root)).unwrap();
    match &norm.nodes[0].kind {
        NodeKindIR::Collection { sequence_prefix_starts, .. } => {
            assert_eq!(sequence_prefix_starts.clone(), Some(vec![0, u64::MAX, u64::MAX]))
        },
        _ => panic!("expected a collection"),
    }
}

#[test]
fn masks_transitions_and_effects_are_carried_with_interned_names() {
    let mut c = leaf("c", "a", [0, 10]);
    c.effect_kinds = vec!["blur".to_owned()];
    c.mask = Some(MaskDef {
        source: MaskRef::Shape(ShapeDef::Path { svg_path_d: "M0 0".to_owned() }),
        mode: MaskMode::Luma,
        inverted: true,
    });
    let mut root = collection("root", [0, 10], CollectionMode::Group, vec![c]);
    root.mask = Some(MaskDef { source: MaskRef::Node("c".to_owned()), mode: MaskMode::Alpha, inverted: false });
    root.transition_in = Some(TransitionRef { kind: "wipe".to_owned(), ease: None, duration_frames: 6 });
    let norm = normalize(&skeleton(10, &["a"], root)).unwrap();
    // Strings: a, root, c (root's mask), wipe, blur, M0 0.
    let root_ir = &norm.nodes[0];
    let m = root_ir.mask.unwrap();
    assert_eq!(m.source, MaskSourceIR::Node(InternId(2)));
    assert_eq!(m.mode, MaskMode::Alpha);
    let t = root_ir.transition_in.unwrap();
    assert_eq!(norm.interner.get(t.kind), "wipe");
    assert_eq!(t.duration_frames, 6);
    assert!(root_ir.transition_out.is_none());
    assert!(!root_ir.has_effects);
    let c_ir = &norm.nodes[1];
    assert!(c_ir.has_effects);
    assert_eq!(norm.node_id_by_idx[1], InternId(2));
    let cm = c_ir.mask.unwrap();
    assert!(cm.inverted);
    assert_eq!(cm.mode, MaskMode::Luma);
    match cm.source {
        MaskSourceIR::Shape(ShapeIR::Path { svg_path_d }) => assert_eq!(norm.interner.get(svg_path_d), "M0 0"),
        _ => panic!("expected a path shape"),
    }
    assert_eq!(norm.interner.len(), 6);
}

#[test]
fn validation_errors_stop_normalization() {
    let root = collection("root", [0, 10], CollectionMode::Group, vec![leaf("c", "missing", [0, 10])]);
    let err = match normalize(&skeleton(10, &["a"], root)) {
        Err(e) => e,
        Ok(_) => panic!("expected an error"),
    };
    assert!(err.text().contains("unknown asset \"missing\""));
}
