use wavyte::plan::BlendMode;
use wavyte::audio_segments::{check_audio_range, run_sample_span, AudioRunBuilder, SegState};
use wavyte::error::WavyteError;
use wavyte::plan::NodeIdx;
use wavyte::schema::CollectionMode;
use wavyte::time::NodeTimeCtx;
use wavyte::timeline::{Fps, FrameIndex, FrameRange};
use wavyte::tree::{
    audio_descendant_flags, compute_node_time_ctxs, compute_visibility, AssetIdx, AssetKind,
    NodeIR, NodeKindIR,
};

fn node(start: u64, end: u64, kind: NodeKindIR) -> NodeIR {
    NodeIR {
        range_start: start,
        range_end: end,
        kind,
        mask: None,
        has_effects: false,
        effect_passes: Vec::new(),
        blend: BlendMode::Normal,
        transition_in: None,
        transition_out: None,
    }
}

fn leaf(start: u64, end: u64, asset: u32) -> NodeIR {
    node(start, end, NodeKindIR::Leaf { asset: AssetIdx(asset) })
}

fn collection(mode: CollectionMode, start: u64, end: u64, children: Vec<u32>, prefix: Option<Vec<u64>>) -> NodeIR {
    node(
        start,
        end,
        NodeKindIR::Collection {
            mode,
            children: children.into_iter().map(NodeIdx).collect(),
            sequence_prefix_starts: prefix,
        },
    )
}

fn seq_scene() -> Vec<NodeIR> {
    vec![
        collection(CollectionMode::Sequence, 0, 20, vec![1, 2], Some(vec![0, 10, 20])),
        leaf(0, 10, 0),
        leaf(0, 10, 0),
    ]
}

#[test]
fn sequence_prefix_remap_maps_child_local_time() {
    let nodes = seq_scene();
    let ctxs = compute_node_time_ctxs(&nodes, NodeIdx(0), 10).unwrap();
    assert!(!ctxs[1].is_in_range());
    assert!(ctxs[2].is_in_range());
    assert_eq!(ctxs[2].local_frame_i64, 0);
}

#[test]
fn time_ctxs_give_local_frames_and_durations() {
    let nodes = seq_scene();
    let ctxs = compute_node_time_ctxs(&nodes, NodeIdx(0), 3).unwrap();
    assert_eq!(ctxs[0], NodeTimeCtx { local_frame_i64: 3, duration_frames: 20 });
    assert_eq!(ctxs[1], NodeTimeCtx { local_frame_i64: 3, duration_frames: 10 });
    assert_eq!(ctxs[2], NodeTimeCtx { local_frame_i64: -7, duration_frames: 10 });
}

#[test]
fn time_ctxs_report_overflow() {
    let nodes = vec![leaf(0, 10, 0)];
    assert!(compute_node_time_ctxs(&nodes, NodeIdx(0), 5).is_some());
    let wide = vec![leaf(1, i64::MAX as u64, 0)];
    let ctxs = compute_node_time_ctxs(&wide, NodeIdx(0), 0).unwrap();
    assert_eq!(ctxs[0].duration_frames, u32::MAX);
    let neg = vec![leaf(1, 0, 0)];
    // The parent local frame i64::MIN minus the start overflows.
    assert!(compute_node_time_ctxs(&neg, NodeIdx(0), i64::MIN as u64).is_none());
}

fn switch_scene() -> Vec<NodeIR> {
    vec![
        collection(CollectionMode::Switch, 0, 20, vec![1, 2], None),
        leaf(0, 10, 0),
        leaf(0, 10, 0),
    ]
}

#[test]
fn switch_selects_only_active_child_for_visibility() {
    let nodes = switch_scene();
    let t = compute_node_time_ctxs(&nodes, NodeIdx(0), 0).unwrap();
    let active = vec![Ok(1), Ok(0), Ok(0)];
    let vis = compute_visibility(&nodes, NodeIdx(0), &t, &active).unwrap();
    assert!(!vis.node_visible[1]);
    assert!(vis.node_visible[2]);
    assert_eq!(vis.switch_active_child[0], Some(NodeIdx(2)));
}

#[test]
fn switch_index_past_children_shows_nothing() {
    let nodes = switch_scene();
    let t = compute_node_time_ctxs(&nodes, NodeIdx(0), 0).unwrap();
    let active = vec![Ok(7), Ok(0), Ok(0)];
    let vis = compute_visibility(&nodes, NodeIdx(0), &t, &active).unwrap();
    assert!(vis.node_visible[0]);
    assert!(!vis.node_visible[1]);
    assert!(!vis.node_visible[2]);
    assert_eq!(vis.switch_active_child[0], None);
}

#[test]
fn visibility_reports_switch_error_only_when_visible() {
    let nodes = switch_scene();
    let err = || Err(WavyteError::evaluation("boom"));
    let t = compute_node_time_ctxs(&nodes, NodeIdx(0), 0).unwrap();
    let e = compute_visibility(&nodes, NodeIdx(0), &t, &vec![err(), Ok(0), Ok(0)]).err().unwrap();
    assert_eq!(e.message(), "boom");
    // Out of range: the switch is invisible and its index is never read.
    let t = compute_node_time_ctxs(&nodes, NodeIdx(0), 25).unwrap();
    let vis = compute_visibility(&nodes, NodeIdx(0), &t, &vec![err(), Ok(0), Ok(0)]).unwrap();
    assert!(!vis.node_visible[0]);
    assert_eq!(vis.switch_active_child[0], Some(NodeIdx(1)));
}

#[test]
fn visibility_reports_missing_time_ctx() {
    let nodes = switch_scene();
    let e = compute_visibility(&nodes, NodeIdx(0), &[], &vec![Ok(0), Ok(0), Ok(0)]).err().unwrap();
    assert_eq!(e.message(), "node time ctx out of range");
}

#[test]
fn audio_descendants_follow_the_tree() {
    let nodes = vec![
        collection(CollectionMode::Group, 0, 10, vec![1, 3], None),
        collection(CollectionMode::Group, 0, 10, vec![2], None),
        leaf(0, 10, 1),
        leaf(0, 10, 0),
    ];
    let assets = [AssetKind::Image, AssetKind::Audio];
    assert_eq!(audio_descendant_flags(&nodes, &assets), vec![true, true, true, false]);
    let assets = [AssetKind::Video, AssetKind::Text];
    assert_eq!(audio_descendant_flags(&nodes, &assets), vec![true, false, false, true]);
}

#[test]
fn audio_range_checks() {
    let r = |a: u64, b: u64| FrameRange { start: FrameIndex(a), end: FrameIndex(b) };
    assert_eq!(check_audio_range(r(3, 3), 10).err().unwrap().message(), "audio manifest range must be non-empty");
    assert_eq!(
        check_audio_range(r(0, 11), 10).err().unwrap().message(),
        "audio manifest range must be within composition duration"
    );
    assert!(check_audio_range(r(0, 10), 10).is_ok());
}

#[test]
fn audio_runs_split_on_gaps_and_close_at_end() {
    // Root group with one audio leaf visible on frames 0..5 only.
    let nodes = vec![collection(CollectionMode::Group, 0, 9, vec![1], None), leaf(0, 5, 0)];
    let assets = [AssetKind::Audio];
    let has_audio = audio_descendant_flags(&nodes, &assets);
    let mut b = AudioRunBuilder::new(nodes.len());
    let mut closed = Vec::new();
    for gf in 0..5u64 {
        let t = compute_node_time_ctxs(&nodes, NodeIdx(0), gf).unwrap();
        let vis = compute_visibility(&nodes, NodeIdx(0), &t, &vec![Ok(0), Ok(0)]).unwrap();
        closed.extend(b.observe_frame(gf, &nodes, &assets, &has_audio, &vis, &t).unwrap());
    }
    assert!(closed.is_empty());
    let t = compute_node_time_ctxs(&nodes, NodeIdx(0), 5).unwrap();
    let vis = compute_visibility(&nodes, NodeIdx(0), &t, &vec![Ok(0), Ok(0)]).unwrap();
    let c = b.observe_frame(5, &nodes, &assets, &has_audio, &vis, &t).unwrap();
    assert_eq!(c.len(), 1);
    assert_eq!(c[0].node, NodeIdx(1));
    assert_eq!(
        c[0].run,
        SegState { start_global_frame: 0, start_local_frame: 0, last_global_frame: 4, last_local_frame: 4 }
    );
    assert!(b.finish().is_empty());
}

#[test]
fn audio_run_breaks_when_local_time_jumps() {
    let nodes = vec![collection(CollectionMode::Group, 0, 9, vec![1], None), leaf(0, 9, 0)];
    let assets = [AssetKind::Video];
    let has_audio = audio_descendant_flags(&nodes, &assets);
    let mut b = AudioRunBuilder::new(nodes.len());
    for gf in [0u64, 1, 3] {
        let t = compute_node_time_ctxs(&nodes, NodeIdx(0), gf).unwrap();
        let vis = compute_visibility(&nodes, NodeIdx(0), &t, &vec![Ok(0), Ok(0)]).unwrap();
        let c = b.observe_frame(gf, &nodes, &assets, &has_audio, &vis, &t).unwrap();
        if gf == 3 {
            assert_eq!(c.len(), 1);
            assert_eq!(c[0].run.last_global_frame, 1);
        } else {
            assert!(c.is_empty());
        }
    }
    let rest = b.finish();
    assert_eq!(rest.len(), 1);
    assert_eq!(
        rest[0].run,
        SegState { start_global_frame: 3, start_local_frame: 3, last_global_frame: 3, last_local_frame: 3 }
    );
}

#[test]
fn audio_switch_must_keep_its_active_child() {
    let nodes = vec![
        collection(CollectionMode::Switch, 0, 10, vec![1, 2], None),
        leaf(0, 10, 0),
        leaf(0, 10, 0),
    ];
    let assets = [AssetKind::Audio];
    let has_audio = audio_descendant_flags(&nodes, &assets);
    let mut b = AudioRunBuilder::new(nodes.len());
    let t = compute_node_time_ctxs(&nodes, NodeIdx(0), 0).unwrap();
    let vis = compute_visibility(&nodes, NodeIdx(0), &t, &vec![Ok(0), Ok(0), Ok(0)]).unwrap();
    assert!(b.observe_frame(0, &nodes, &assets, &has_audio, &vis, &t).is_ok());
    let t = compute_node_time_ctxs(&nodes, NodeIdx(0), 1).unwrap();
    let vis = compute_visibility(&nodes, NodeIdx(0), &t, &vec![Ok(1), Ok(0), Ok(0)]).unwrap();
    let e = b.observe_frame(1, &nodes, &assets, &has_audio, &vis, &t).err().unwrap();
    assert_eq!(e.message(), "audio mixing requires switch.active to be constant over the render range");
}

#[test]
fn run_sample_span_is_relative_to_range_start() {
    let run = SegState { start_global_frame: 10, start_local_frame: 0, last_global_frame: 19, last_local_frame: 9 };
    let fps = Fps { num: 30, den: 1 };
    assert_eq!(run_sample_span(run, 10, fps, 48_000), (0, 16_000));
    assert_eq!(run_sample_span(run, 40, fps, 48_000), (0, 0));
}
