use wavyte::compile_expr::ValueTypeIR;
use wavyte::intern::StringInterner;
use wavyte::lanes::{collect_expr_lanes, expr_sources_for, wrap_deg_to_rad, ExprLaneDef, NodeExprLanes};
use wavyte::lexer::lex_defined;
use wavyte::parser::parse_defined;
use wavyte::plan::{InternId, NodeIdx};
use wavyte::property::{PropertyIndex, PropertyKey};

#[test]
fn rotation_expressions_are_rescaled_to_radians() {
    assert_eq!(format!("{}", std::f64::consts::PI / 180.0), "0.017453292519943295");
    assert_eq!(wrap_deg_to_rad("=t * 2"), "=(t * 2)*0.017453292519943295");
    assert_eq!(wrap_deg_to_rad("  \t=90\n "), "=(90)*0.017453292519943295");
    assert_eq!(wrap_deg_to_rad("45"), "=(45)*0.017453292519943295");
    assert_eq!(wrap_deg_to_rad(""), "=()*0.017453292519943295");
}

#[test]
fn expression_lanes_become_sources_in_order() {
    let lanes = vec![
        ExprLaneDef { node: NodeIdx(1), key: PropertyKey::Opacity, text: "=0.5".to_owned() },
        ExprLaneDef { node: NodeIdx(0), key: PropertyKey::TransformRotationRad, text: "=90".to_owned() },
        ExprLaneDef { node: NodeIdx(2), key: PropertyKey::SwitchActiveIndex, text: "=1".to_owned() },
        ExprLaneDef { node: NodeIdx(3), key: PropertyKey::Opacity, text: "=0.5".to_owned() },
    ];
    let mut interner = StringInterner::new();
    interner.intern("root");
    let sources = expr_sources_for(&lanes, &mut interner);
    assert_eq!(sources.len(), 4);
    assert_eq!(sources[0].target, PropertyIndex::property_id(NodeIdx(1), PropertyKey::Opacity));
    assert_eq!(sources[0].value_type, ValueTypeIR::F64);
    assert_eq!(interner.get(sources[0].src), "=0.5");
    assert_eq!(sources[1].target, PropertyIndex::property_id(NodeIdx(0), PropertyKey::TransformRotationRad));
    assert_eq!(interner.get(sources[1].src), "=(90)*0.017453292519943295");
    assert_eq!(sources[2].value_type, ValueTypeIR::U64);
    assert_eq!(interner.get(sources[2].src), "=1");
    // The same text is interned once.
    assert_eq!(sources[3].src, sources[0].src);
    assert_eq!(interner.get(InternId(0)), "root");
}

fn node(kind: wavyte::tree::NodeKindIR) -> wavyte::tree::NodeIR {
    wavyte::tree::NodeIR {
        range_start: 0,
        range_end: 10,
        kind,
        mask: None,
        has_effects: false,
        effect_passes: Vec::new(),
        blend: wavyte::plan::BlendMode::Normal,
        transition_in: None,
        transition_out: None,
    }
}

fn group(children: Vec<u32>) -> wavyte::tree::NodeIR {
    node(wavyte::tree::NodeKindIR::Collection {
        mode: wavyte::schema::CollectionMode::Group,
        children: children.into_iter().map(NodeIdx).collect(),
        sequence_prefix_starts: None,
    })
}

fn leaf() -> wavyte::tree::NodeIR {
    node(wavyte::tree::NodeKindIR::Leaf { asset: wavyte::plan::AssetIdx(0) })
}

fn lanes_of(own: &str, after: &str) -> NodeExprLanes {
    NodeExprLanes {
        own: vec![(PropertyKey::Opacity, own.to_owned())],
        after_children: vec![(PropertyKey::LayoutGapX, after.to_owned())],
    }
}

#[test]
fn expression_lanes_follow_normalization_order() {
    // root(0) -> [1, 2]; 2 -> [3]
    let nodes = vec![group(vec![1, 2]), leaf(), group(vec![3]), leaf()];
    let per_node = vec![lanes_of("=r", "=R"), lanes_of("=a", "=A"), lanes_of("=b", "=B"), lanes_of("=c", "=C")];
    let lanes = collect_expr_lanes(&nodes, NodeIdx(0), &per_node);
    let got: Vec<(u32, &str)> = lanes.iter().map(|l| (l.node.0, l.text.as_str())).collect();
    assert_eq!(got, vec![(0, "=r"), (1, "=a"), (1, "=A"), (2, "=b"), (3, "=c"), (3, "=C"), (2, "=B"), (0, "=R")]);
    assert_eq!(lanes[0].key, PropertyKey::Opacity);
    assert_eq!(lanes[2].key, PropertyKey::LayoutGapX);
}

#[test]
fn parse_defined_spots_cuts_inside_characters() {
    assert!(parse_defined("=a + 1"));
    assert!(parse_defined("=é"));
    assert!(!parse_defined("=a+é"));
    assert!(lex_defined("a + 1"));
    assert!(!lex_defined("a+é"));
}
