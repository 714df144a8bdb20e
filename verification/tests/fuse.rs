use wavyte::fuse::{fuse_plan, is_identity_color_matrix, is_noop_mask_apply, FuseReport};
use wavyte::plan::{
    BlendMode, CompositeOp, MaskMode, NodeIdx, Op, OpId, OpKind, PassFx, PixelFormat, RenderPlan,
    SurfaceDesc, SurfaceId, UnitKey,
};

fn desc() -> SurfaceDesc {
    SurfaceDesc { width: 1, height: 1, format: PixelFormat::Rgba8Premul }
}

fn bits(x: f32) -> u32 {
    x.to_bits()
}

fn identity_affine() -> [u64; 6] {
    [1.0f64.to_bits(), 0, 0, 1.0f64.to_bits(), 0, 0]
}

fn op(id: u32, kind: OpKind, inputs: Vec<SurfaceId>, output: SurfaceId) -> Op {
    Op { id: OpId(id), kind, inputs, output, deps: vec![] }
}

fn over(src: u32, opacity: f32) -> OpKind {
    OpKind::Composite {
        clear_to_transparent: true,
        ops: vec![CompositeOp::Over { src: SurfaceId(src), opacity_bits: bits(opacity), blend: BlendMode::Normal }],
    }
}

fn identity_matrix_bits() -> [u32; 20] {
    let mut m = [0u32; 20];
    for r in 0..4 {
        m[r * 5 + r] = bits(1.0);
    }
    m
}

/// What a renderer does with a fusion report: multiply folded opacities into draws, reset
/// absorbed over opacities.
fn apply_opacity_report(original: &[Op], plan: &mut RenderPlan, rep: &FuseReport) {
    let mul = |draw: usize| -> f32 {
        let mut m = 1.0f32;
        for &(d, c) in &rep.opacity_folds {
            if d == draw {
                if let OpKind::Composite { ops, .. } = &original[c].kind {
                    if let CompositeOp::Over { opacity_bits, .. } = ops[0] {
                        m *= f32::from_bits(opacity_bits);
                    }
                }
            }
        }
        m
    };
    for (j, op) in plan.ops.iter_mut().enumerate() {
        if let OpKind::Draw { opacity_mul_bits, .. } = &mut op.kind {
            *opacity_mul_bits = (f32::from_bits(*opacity_mul_bits) * mul(rep.source_ops[j])).to_bits();
        }
    }
    for &(j, p) in &rep.over_resets {
        if mul(p) != 1.0 {
            if let OpKind::Composite { ops, .. } = &mut plan.ops[j].kind {
                if let CompositeOp::Over { opacity_bits, .. } = &mut ops[0] {
                    *opacity_bits = bits(1.0);
                }
            }
        }
    }
}

#[test]
fn fuse_folds_over_opacity_into_producer_draw_when_single_use() {
    let draw = OpKind::Draw {
        unit: UnitKey::Leaf(NodeIdx(0)),
        leaves_start: 0,
        leaves_end: 0,
        clear_to_transparent: true,
        transform_post_bits: identity_affine(),
        opacity_mul_bits: bits(1.0),
    };
    let ops = vec![op(0, draw, vec![], SurfaceId(1)), op(1, over(1, 0.25), vec![SurfaceId(1)], SurfaceId(0))];
    let mut plan = RenderPlan { surfaces: vec![desc(), desc()], ops: ops.clone(), roots: vec![SurfaceId(0)] };
    let rep = fuse_plan(&mut plan);
    assert_eq!(rep.opacity_folds, vec![(0, 1)]);
    apply_opacity_report(&ops, &mut plan, &rep);

    let OpKind::Draw { opacity_mul_bits, .. } = &plan.ops[0].kind else {
        panic!("expected draw");
    };
    assert!((f32::from_bits(*opacity_mul_bits) - 0.25).abs() < 1e-6);
    let OpKind::Composite { ops, .. } = &plan.ops[1].kind else {
        panic!("expected composite");
    };
    let CompositeOp::Over { opacity_bits, .. } = &ops[0] else {
        panic!("expected over");
    };
    assert!((f32::from_bits(*opacity_bits) - 1.0).abs() < 1e-6);
}

#[test]
fn fuse_eliminates_stencil_threshold_0_mask_apply() {
    let ops = vec![
        op(
            0,
            OpKind::Pass { fx: PassFx::MaskApply { mode: MaskMode::Stencil { threshold_bits: bits(0.0) }, inverted: false } },
            vec![SurfaceId(1), SurfaceId(2)],
            SurfaceId(0),
        ),
        op(1, over(0, 1.0), vec![SurfaceId(0)], SurfaceId(0)),
    ];
    let mut plan = RenderPlan { surfaces: vec![desc(), desc(), desc()], ops, roots: vec![SurfaceId(0)] };
    fuse_plan(&mut plan);
    assert!(!plan.ops.iter().any(|op| matches!(&op.kind, OpKind::Pass { .. })));
}

#[test]
fn fuse_eliminates_blur_radius_0() {
    let ops = vec![op(0, OpKind::Pass { fx: PassFx::Blur { radius_px: 0, sigma_bits: bits(0.0) } }, vec![SurfaceId(1)], SurfaceId(0))];
    let mut plan = RenderPlan { surfaces: vec![desc(), desc()], ops, roots: vec![SurfaceId(0)] };
    fuse_plan(&mut plan);
    assert!(plan.ops.is_empty());
    // The root now stands for the blur's input.
    assert_eq!(plan.roots, vec![SurfaceId(1)]);
}

#[test]
fn fuse_folds_consecutive_color_matrices() {
    let mut m2 = identity_matrix_bits();
    m2[4] = bits(0.25);
    let ops = vec![
        op(0, OpKind::Pass { fx: PassFx::ColorMatrix { matrix_bits: m2 } }, vec![SurfaceId(2)], SurfaceId(1)),
        op(1, OpKind::Pass { fx: PassFx::ColorMatrix { matrix_bits: m2 } }, vec![SurfaceId(1)], SurfaceId(0)),
    ];
    let mut plan = RenderPlan { surfaces: vec![desc(), desc(), desc()], ops, roots: vec![SurfaceId(0)] };
    let rep = fuse_plan(&mut plan);
    assert_eq!(plan.ops.len(), 1);
    assert!(matches!(&plan.ops[0].kind, OpKind::Pass { .. }));
    assert_eq!(rep.matrix_folds, vec![(0, 1)]);
    assert_eq!(plan.roots, vec![SurfaceId(1)]);
}

#[test]
fn fuse_keeps_multi_use_sources_and_recomputes_deps() {
    let draw = OpKind::Draw {
        unit: UnitKey::Leaf(NodeIdx(0)),
        leaves_start: 0,
        leaves_end: 1,
        clear_to_transparent: true,
        transform_post_bits: identity_affine(),
        opacity_mul_bits: bits(1.0),
    };
    let ops = vec![
        op(0, draw, vec![], SurfaceId(1)),
        op(1, OpKind::Pass { fx: PassFx::Blur { radius_px: 0, sigma_bits: bits(2.0) } }, vec![SurfaceId(1)], SurfaceId(2)),
        op(2, over(2, 0.5), vec![SurfaceId(2)], SurfaceId(0)),
        op(3, over(1, 0.5), vec![SurfaceId(0), SurfaceId(1)], SurfaceId(0)),
    ];
    let mut plan = RenderPlan { surfaces: vec![desc(), desc(), desc()], ops, roots: vec![SurfaceId(0)] };
    let rep = fuse_plan(&mut plan);
    // The blur goes; both composites now read surface 1, which is read twice: no opacity fold.
    assert!(rep.opacity_folds.is_empty());
    assert_eq!(rep.source_ops, vec![0, 2, 3]);
    assert_eq!(plan.ops[1].inputs, vec![SurfaceId(1)]);
    assert_eq!(plan.ops[1].deps, vec![OpId(0)]);
    assert_eq!(plan.ops[2].deps, vec![OpId(1), OpId(0)]);
    for (i, op) in plan.ops.iter().enumerate() {
        assert_eq!(op.id, OpId(i as u32));
    }
}

#[test]
fn identity_matrix_check_matches_f32_tolerance() {
    let id = identity_matrix_bits();
    assert!(is_identity_color_matrix(&id));
    let eps = 1.0e-6f32;
    // Sweep the bit patterns around 0 and 1 and compare with the float formula.
    for delta in -40i64..40 {
        for (pos, target) in [(0usize, 1.0f32), (1usize, 0.0f32)] {
            let base = bits(target) as i64;
            for b in [base + delta, (bits(eps) as i64) + delta, (bits(-eps) as i64) + delta] {
                if b < 0 || b > u32::MAX as i64 {
                    continue;
                }
                let mut m = id;
                m[pos] = b as u32;
                let x = f32::from_bits(b as u32);
                let expect = (x - target).abs() <= eps;
                assert_eq!(is_identity_color_matrix(&m), expect, "bits {:#x} at {}", b, pos);
            }
        }
    }
    let mut m = id;
    m[0] = f32::NAN.to_bits();
    assert!(!is_identity_color_matrix(&m));
}

#[test]
fn noop_mask_matches_f32_comparison() {
    for x in [0.0f32, -0.0, -1.0, f32::NEG_INFINITY, 1e-30, 0.5, f32::NAN, -f32::NAN, f32::INFINITY] {
        let mode = MaskMode::Stencil { threshold_bits: x.to_bits() };
        assert_eq!(is_noop_mask_apply(mode, false), x <= 0.0, "threshold {}", x);
        assert!(!is_noop_mask_apply(mode, true));
    }
    assert!(!is_noop_mask_apply(MaskMode::Alpha, false));
    assert!(!is_noop_mask_apply(MaskMode::Luma, false));
}

#[test]
fn fused_ops_are_survivors_in_original_order() {
    let draw = OpKind::Draw {
        unit: UnitKey::Leaf(NodeIdx(0)),
        leaves_start: 0,
        leaves_end: 1,
        clear_to_transparent: true,
        transform_post_bits: identity_affine(),
        opacity_mul_bits: bits(1.0),
    };
    let ops = vec![
        op(0, draw, vec![], SurfaceId(1)),
        op(1, OpKind::Pass { fx: PassFx::Blur { radius_px: 0, sigma_bits: bits(2.0) } }, vec![SurfaceId(1)], SurfaceId(2)),
        op(2, OpKind::Pass { fx: PassFx::Blur { radius_px: 3, sigma_bits: bits(2.0) } }, vec![SurfaceId(2)], SurfaceId(3)),
        op(3, over(3, 1.0), vec![SurfaceId(3)], SurfaceId(0)),
    ];
    let mut plan = RenderPlan { surfaces: vec![desc(), desc(), desc(), desc()], ops, roots: vec![SurfaceId(0)] };
    let rep = fuse_plan(&mut plan);
    assert_eq!(plan.ops.len(), 3);
    assert_eq!(rep.source_ops, vec![0, 2, 3]);
    // The kept blur now reads the draw's output directly.
    assert_eq!(plan.ops[1].inputs, vec![SurfaceId(1)]);
}
