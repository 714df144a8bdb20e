use wavyte::plan::BlendMode;
use wavyte::plan::MaskMode;
use wavyte::schema::{
    format_path, validate_composition, CollectionMode, MaskDef, MaskRef, MediaParams, SceneKind, SceneNode,
    SceneSkeleton, SchemaError, SchemaPathElem, TransitionRef,
};

fn media(trim_start: f64, trim_end: Option<f64>, rate: f64, volume: f64) -> MediaParams {
    MediaParams {
        trim_start_sec_bits: trim_start.to_bits(),
        trim_end_sec_bits: trim_end.map(f64::to_bits),
        playback_rate_bits: rate.to_bits(),
        volume_bits: volume.to_bits(),
        fade_in_sec_bits: 0.0f64.to_bits(),
        fade_out_sec_bits: 0.0f64.to_bits(),
    }
}

fn node_mask(source: MaskRef) -> Option<MaskDef> {
    Some(MaskDef { source, mode: MaskMode::Alpha, inverted: false })
}

fn leaf(id: &str, asset: &str, range: [u64; 2]) -> SceneNode {
    SceneNode {
        id: id.to_owned(),
        range,
        kind: SceneKind::Leaf { asset: asset.to_owned() },
        effect_kinds: Vec::new(),
        effect_passes: Vec::new(),
        blend: BlendMode::Normal,
        mask: None,
        transition_in: None,
        transition_out: None,
    }
}

fn minimal_ok() -> SceneSkeleton {
    SceneSkeleton {
        version: "0.3".to_owned(),
        duration: 60,
        asset_keys: vec!["a".to_owned()],
        asset_media: vec![None],
        root: leaf("root", "a", [0, 60]),
    }
}

fn err_text(c: &SceneSkeleton) -> String {
    validate_composition(c).unwrap_err().text()
}

#[test]
fn ok_scene_validates() {
    validate_composition(&minimal_ok()).unwrap();
}

#[test]
fn rejects_wrong_version() {
    let mut c = minimal_ok();
    c.version = "0.2".to_owned();
    assert!(err_text(&c).contains("version must be \"0.3\""));
}

#[test]
fn rejects_duplicate_ids() {
    let mut c = minimal_ok();
    c.root = SceneNode {
        id: "r".to_owned(),
        range: [0, 60],
        kind: SceneKind::Collection {
            mode: CollectionMode::Group,
            children: vec![leaf("dup", "a", [0, 10]), leaf("dup", "a", [0, 10])],
        },
        effect_kinds: Vec::new(),
        effect_passes: Vec::new(),
        blend: BlendMode::Normal,
        mask: None,
        transition_in: None,
        transition_out: None,
    };
    c.duration = 60;
    assert!(err_text(&c).contains("duplicate node id"));
}

#[test]
fn rejects_unknown_asset_ref() {
    let mut c = minimal_ok();
    c.root.kind = SceneKind::Leaf { asset: "missing".to_owned() };
    assert!(err_text(&c).contains("unknown asset"));
}

#[test]
fn rejects_sequence_child_start_nonzero() {
    let mut c = minimal_ok();
    c.root.kind = SceneKind::Collection { mode: CollectionMode::Sequence, children: vec![leaf("c", "a", [2, 10])] };
    assert!(err_text(&c).contains("sequence child range.start must be 0"));
}

#[test]
fn rejects_mask_node_ref_unknown() {
    let mut c = minimal_ok();
    c.root.mask = node_mask(MaskRef::Node("nope".to_owned()));
    assert!(err_text(&c).contains("unknown mask source node id"));
}

#[test]
fn rejects_root_range_mismatch_duration() {
    let mut c = minimal_ok();
    c.duration = 61;
    c.root.range = [0, 60];
    assert!(err_text(&c).contains("root.range must be [0, composition.duration]"));
}

#[test]
fn errors_carry_paths_in_document_order() {
    let mut c = minimal_ok();
    c.version = "1".to_owned();
    c.root.kind = SceneKind::Collection {
        mode: CollectionMode::Sequence,
        children: vec![leaf(" ", "a", [3, 1]), leaf("x", "zz", [0, 1])],
    };
    c.root.transition_in = Some(TransitionRef { kind: " Wipe ".to_owned(), ease: Some("fast".to_owned()), duration_frames: 4 });
    c.root.mask = node_mask(MaskRef::Node("root".to_owned()));
    let text = err_text(&c);
    let lines: Vec<&str> = text.lines().collect();
    assert_eq!(
        lines,
        vec![
            "$.version: version must be \"0.3\"",
            "$.root.kind.children[0].range: sequence child range.start must be 0",
            "$.root.kind.children[0].id: node id must be non-empty",
            "$.root.kind.children[0].range: range must satisfy start <= end",
            "$.root.transition_in.ease: unknown transition ease \"fast\"",
            "$.root.mask.source: mask source cannot refer to the same node id (self-mask)",
            "$.root.kind.children[1].kind.asset: unknown asset \"zz\"",
        ]
    );
}

#[test]
fn blank_transition_kind_is_reported_twice_and_asset_errors_come_last() {
    let mut c = minimal_ok();
    c.root.transition_out = Some(TransitionRef { kind: "".to_owned(), ease: None, duration_frames: 0 });
    c.asset_media = vec![Some(media(0.0, None, 1.0, -0.5))];
    let text = validate_composition(&c).unwrap_err().text();
    let lines: Vec<&str> = text.lines().collect();
    assert_eq!(
        lines,
        vec![
            "$.root.transition_out.kind: transition kind must be non-empty",
            "$.root.transition_out.kind: transition kind must be non-empty",
            "$.assets: asset 'a': volume must be finite and >= 0",
        ]
    );
}

#[test]
fn format_path_renders_fields_and_indices() {
    assert_eq!(format_path(&[]), "$");
    assert_eq!(
        format_path(&[SchemaPathElem::Field("root"), SchemaPathElem::Index(12), SchemaPathElem::Field("id")]),
        "$.root[12].id"
    );
    assert_eq!(SchemaError::at(&[], "plain").text(), "plain");
}

fn asset_lines(m: MediaParams) -> Vec<String> {
    let mut c = minimal_ok();
    c.asset_media = vec![Some(m)];
    match validate_composition(&c) {
        Ok(()) => Vec::new(),
        Err(e) => e.text().lines().map(|l| l.to_owned()).collect(),
    }
}

#[test]
fn valid_media_parameters_pass() {
    assert!(asset_lines(media(0.0, None, 1.0, 1.0)).is_empty());
    assert!(asset_lines(media(-0.0, Some(0.0), 0.5, 0.0)).is_empty());
    assert!(asset_lines(media(1.5, Some(1.5), 2.0, 3.0)).is_empty());
}

#[test]
fn media_parameters_are_checked_in_order() {
    assert_eq!(
        asset_lines(media(-1.0, Some(f64::NAN), 0.0, f64::INFINITY)),
        vec![
            "$.assets: asset 'a': trim_start_sec must be finite and >= 0",
            "$.assets: asset 'a': trim_end_sec must be finite and >= 0",
            "$.assets: asset 'a': playback_rate must be finite and > 0",
            "$.assets: asset 'a': volume must be finite and >= 0",
        ]
    );
    assert_eq!(
        asset_lines(media(2.0, Some(1.0), -0.0, 1.0)),
        vec![
            "$.assets: asset 'a': trim_end_sec must be >= trim_start_sec",
            "$.assets: asset 'a': playback_rate must be finite and > 0",
        ]
    );
    assert_eq!(
        asset_lines(media(f64::NAN, Some(-2.0), f64::NAN, -0.0)),
        vec![
            "$.assets: asset 'a': trim_start_sec must be finite and >= 0",
            "$.assets: asset 'a': trim_end_sec must be finite and >= 0",
            "$.assets: asset 'a': playback_rate must be finite and > 0",
        ]
    );
    let mut m = media(0.0, None, 1.0, 1.0);
    m.fade_in_sec_bits = (-3.0f64).to_bits();
    m.fade_out_sec_bits = f64::NEG_INFINITY.to_bits();
    assert_eq!(
        asset_lines(m),
        vec![
            "$.assets: asset 'a': fade_in_sec must be finite and >= 0",
            "$.assets: asset 'a': fade_out_sec must be finite and >= 0",
        ]
    );
}

#[test]
fn negative_and_infinite_ends_compare_like_floats() {
    // -inf < -1 < -0 == 0 < 1 < inf, NaN compares false.
    assert_eq!(asset_lines(media(0.0, Some(-0.0), 1.0, 1.0)), Vec::<String>::new());
    assert_eq!(
        asset_lines(media(f64::INFINITY, Some(1.0), 1.0, 1.0)),
        vec![
            "$.assets: asset 'a': trim_start_sec must be finite and >= 0",
            "$.assets: asset 'a': trim_end_sec must be >= trim_start_sec",
        ]
    );
    assert_eq!(
        asset_lines(media(0.5, Some(f64::NEG_INFINITY), 1.0, 1.0)),
        vec![
            "$.assets: asset 'a': trim_end_sec must be finite and >= 0",
            "$.assets: asset 'a': trim_end_sec must be >= trim_start_sec",
        ]
    );
}
