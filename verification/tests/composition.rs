use wavyte::plan::BlendMode;
use wavyte::composition::Composition;
use wavyte::error::WavyteError;
use wavyte::schema::{SceneKind, SceneNode, SceneSkeleton};

fn comp(version: &str, duration: u64, root_end: u64) -> Composition {
    Composition::from_def(SceneSkeleton {
        version: version.to_owned(),
        duration,
        asset_keys: vec!["a".to_owned()],
        asset_media: vec![None],
        root: SceneNode {
            id: "root".to_owned(),
            range: [0, root_end],
            kind: SceneKind::Leaf { asset: "a".to_owned() },
            effect_kinds: Vec::new(),
            effect_passes: Vec::new(),
            blend: BlendMode::Normal,
            mask: None,
            transition_in: None,
            transition_out: None,
        },
    })
}

#[test]
fn valid_composition_validates_and_reports_duration() {
    let c = comp("0.3", 60, 60);
    assert!(c.validate().is_ok());
    assert_eq!(c.duration_frames(), 60);
    assert_eq!(c.def().root.id, "root");
}

#[test]
fn invalid_composition_lists_every_error() {
    let c = comp("0.2", 60, 61);
    match c.validate() {
        Err(WavyteError::Validation(m)) => assert_eq!(
            m,
            "v0.3 schema validation failed: $.version: version must be \"0.3\"\n$.root.range: root.range must be [0, composition.duration]"
        ),
        other => panic!("unexpected {:?}", other),
    }
}
