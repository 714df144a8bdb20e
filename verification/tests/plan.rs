use wavyte::fingerprint::fingerprint_plan;
use wavyte::plan::{
    BlendMode, CompositeOp, Op, OpId, OpKind, PixelFormat, RenderPlan, SurfaceDesc, SurfaceId,
};
use wavyte::scheduler::DagScheduler;

fn op(id: u32, deps: &[u32]) -> Op {
    Op {
        id: OpId(id),
        kind: OpKind::Composite { clear_to_transparent: true, ops: vec![] },
        inputs: vec![SurfaceId(0)],
        output: SurfaceId(0),
        deps: deps.iter().copied().map(OpId).collect(),
    }
}

#[test]
fn scheduler_is_topological_and_deterministic() {
    // Graph:
    // 0 -> 2
    // 1 -> 2
    // 2 -> 3
    let ops = vec![op(0, &[]), op(1, &[]), op(2, &[0, 1]), op(3, &[2])];
    let _plan = RenderPlan {
        surfaces: vec![SurfaceDesc { width: 1, height: 1, format: PixelFormat::Rgba8Premul }],
        ops: ops.clone(),
        roots: vec![SurfaceId(0)],
    };

    let mut sched = DagScheduler::new(&ops);
    let mut out = Vec::<u32>::new();
    while let Some(next) = sched.pop_ready() {
        out.push(next.0);
        sched.mark_done(next);
    }
    assert_eq!(out, vec![0, 1, 2, 3]);
}

#[test]
fn scheduler_prefers_smallest_ready_id_and_batches() {
    // 3 and 1 are roots; 0 waits on both; 2 waits on 0.
    let ops = vec![op(0, &[3, 1]), op(1, &[]), op(2, &[0]), op(3, &[])];
    let mut sched = DagScheduler::new(&ops);
    assert_eq!(sched.remaining(), 4);
    let batch = sched.pop_ready_batch(8);
    assert_eq!(batch, vec![OpId(1), OpId(3)]);
    sched.mark_done(OpId(1));
    assert_eq!(sched.pop_ready(), None);
    sched.mark_done(OpId(3));
    assert_eq!(sched.pop_ready(), Some(OpId(0)));
    sched.mark_done(OpId(0));
    assert_eq!(sched.pop_ready_batch(1), vec![OpId(2)]);
    sched.mark_done(OpId(2));
    assert_eq!(sched.remaining(), 0);
}

fn one_over_plan(opacity: f32) -> RenderPlan {
    RenderPlan {
        surfaces: vec![SurfaceDesc { width: 1, height: 1, format: PixelFormat::Rgba8Premul }],
        ops: vec![Op {
            id: OpId(0),
            kind: OpKind::Composite {
                clear_to_transparent: true,
                ops: vec![CompositeOp::Over { src: SurfaceId(0), opacity_bits: opacity.to_bits(), blend: BlendMode::Normal }],
            },
            inputs: vec![SurfaceId(0)],
            output: SurfaceId(0),
            deps: vec![],
        }],
        roots: vec![SurfaceId(0)],
    }
}

#[test]
fn fingerprint_is_deterministic_for_same_plan() {
    let plan = one_over_plan(1.0);
    let a = fingerprint_plan(&plan);
    let b = fingerprint_plan(&plan);
    assert_eq!(a, b);
}

#[test]
fn fingerprint_changes_when_plan_changes() {
    let base = one_over_plan(1.0);
    let changed = one_over_plan(0.5);
    assert_ne!(fingerprint_plan(&base), fingerprint_plan(&changed));
}

#[test]
fn fingerprint_depends_on_surface_sizes() {
    let mut other = one_over_plan(1.0);
    other.surfaces[0].width = 2;
    assert_ne!(fingerprint_plan(&one_over_plan(1.0)), fingerprint_plan(&other));
}

#[test]
fn scheduler_run_hands_out_each_op_once_after_its_deps() {
    let ops = vec![
        op(0, &[]),
        op(1, &[0]),
        op(2, &[0]),
        op(3, &[1, 2]),
        op(4, &[]),
        op(5, &[4, 3]),
    ];
    let mut sched = DagScheduler::new(&ops);
    let mut done = vec![false; ops.len()];
    let mut handed = Vec::new();
    while let Some(next) = sched.pop_ready() {
        let i = next.0 as usize;
        assert!(!handed.contains(&next.0));
        assert!(ops[i].deps.iter().all(|d| done[d.0 as usize]));
        handed.push(next.0);
        sched.mark_done(next);
        done[i] = true;
    }
    assert_eq!(handed, vec![0, 1, 2, 3, 4, 5]);
    assert_eq!(sched.remaining(), 0);
}
