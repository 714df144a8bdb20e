use wavyte::assets::normalize_rel_path;
use wavyte::audio::frame_to_sample;
use wavyte::blur::blur_rgba8_premul_q16;
use wavyte::error::WavyteError;
use wavyte::pixel::{
    flatten_premul_over_bg_to_opaque_rgba8, mask_apply_rgba8_premul, mul_div255_u8, premul_over_in_place,
    premul_rgba8, MaskWeight,
};
use wavyte::timeline::Fps;

/// Gaussian kernel in Q16 fixed point, weights summing to 65536 (test-side helper).
fn gaussian_kernel_q16(radius: u32, sigma: f32) -> Vec<u32> {
    if radius == 0 {
        return vec![1 << 16];
    }
    let r = radius as i32;
    let sigma = sigma as f64;
    let denom = 2.0 * sigma * sigma;
    let mut weights_f = Vec::new();
    let mut sum = 0.0f64;
    for i in -r..=r {
        let x = i as f64;
        let w = (-x * x / denom).exp();
        weights_f.push(w);
        sum += w;
    }
    let mut weights = Vec::new();
    let mut acc: i64 = 0;
    for &wf in &weights_f {
        let q = ((wf / sum) * 65536.0).round() as i64;
        let q = q.clamp(0, 65536);
        weights.push(q as u32);
        acc += q;
    }
    let delta = 65536 - acc;
    if delta != 0 {
        let mid = weights.len() / 2;
        weights[mid] = (i64::from(weights[mid]) + delta).clamp(0, 65536) as u32;
    }
    weights
}

#[test]
fn frame_to_sample_uses_rational_fps() {
    // 30000/1001 ~ 29.97
    let fps = Fps { num: 30_000, den: 1001 };
    let s0 = frame_to_sample(0, fps, 48_000);
    let s1 = frame_to_sample(1, fps, 48_000);
    assert_eq!(s0, 0);
    assert!(s1 > 0);
}

#[test]
fn frame_to_sample_rounds_to_nearest() {
    // 1 frame at 29.97 fps is 1601.6 samples at 48 kHz.
    assert_eq!(frame_to_sample(1, Fps { num: 30_000, den: 1001 }, 48_000), 1602);
    assert_eq!(frame_to_sample(30, Fps { num: 30, den: 1 }, 48_000), 48_000);
    // Exact half rounds up: 1 * 1 * 1 / 2 = 0.5.
    assert_eq!(frame_to_sample(1, Fps { num: 2, den: 1 }, 1), 1);
}

#[test]
fn flatten_premul_alpha_0_returns_bg() {
    let src = vec![0u8, 0, 0, 0];
    let mut dst = vec![0u8; 4];
    flatten_premul_over_bg_to_opaque_rgba8(&mut dst, &src, [10, 20, 30, 255]).unwrap();
    assert_eq!(dst, vec![10, 20, 30, 255]);
}

#[test]
fn flatten_premul_alpha_255_is_identity() {
    let src = vec![1u8, 2, 3, 255];
    let mut dst = vec![0u8; 4];
    flatten_premul_over_bg_to_opaque_rgba8(&mut dst, &src, [10, 20, 30, 255]).unwrap();
    assert_eq!(dst, src);
}

#[test]
fn flatten_rejects_mismatched_buffers() {
    let src = vec![1u8, 2, 3, 255];
    let mut dst = vec![7u8; 8];
    let r = flatten_premul_over_bg_to_opaque_rgba8(&mut dst, &src, [10, 20, 30, 255]);
    assert!(matches!(r, Err(WavyteError::Validation(_))));
    assert_eq!(dst, vec![7u8; 8]);
    let mut odd = vec![0u8; 3];
    assert!(flatten_premul_over_bg_to_opaque_rgba8(&mut odd, &[0, 0, 0], [0, 0, 0, 255]).is_err());
}

#[test]
fn flatten_half_alpha_mixes_background() {
    // a = 128: inv = 127; 200 * 127 / 255 = 99.6 -> 100.
    let src = vec![50u8, 0, 0, 128];
    let mut dst = vec![0u8; 4];
    flatten_premul_over_bg_to_opaque_rgba8(&mut dst, &src, [200, 0, 0, 0]).unwrap();
    assert_eq!(dst, vec![150, 0, 0, 255]);
}

#[test]
fn premul_rgba8_scales_channels_by_alpha() {
    assert_eq!(premul_rgba8([255, 128, 0, 128]), [128, 64, 0, 128]);
    assert_eq!(premul_rgba8([9, 9, 9, 255]), [9, 9, 9, 255]);
    assert_eq!(premul_rgba8([9, 9, 9, 0]), [0, 0, 0, 0]);
}

#[test]
fn over_with_opaque_source_returns_source() {
    let mut dst = vec![1u8, 2, 3, 4, 50, 60, 70, 80];
    let src = vec![9u8, 8, 7, 255, 0, 0, 0, 0];
    premul_over_in_place(&mut dst, &src).unwrap();
    assert_eq!(dst, vec![9, 8, 7, 255, 50, 60, 70, 80]);
    let mut short = vec![0u8; 4];
    assert!(matches!(premul_over_in_place(&mut short, &src), Err(WavyteError::Evaluation(_))));
}

#[test]
fn blur_radius_0_is_identity() {
    let w = 4u32;
    let h = 3u32;
    let mut src = vec![0u8; (w as usize) * (h as usize) * 4];
    for (i, b) in src.iter_mut().enumerate() {
        *b = (i as u8).wrapping_mul(31);
    }
    let mut dst = vec![0u8; src.len()];
    let mut tmp = vec![0u8; src.len()];
    let k = gaussian_kernel_q16(0, 1.0);
    blur_rgba8_premul_q16(&src, &mut dst, &mut tmp, w, h, &k);
    assert_eq!(src, dst);
}

#[test]
fn blur_constant_image_is_identity() {
    let w = 5u32;
    let h = 5u32;
    let mut src = vec![0u8; (w as usize) * (h as usize) * 4];
    for px in src.chunks_exact_mut(4) {
        px.copy_from_slice(&[10, 20, 30, 40]);
    }
    let mut dst = vec![0u8; src.len()];
    let mut tmp = vec![0u8; src.len()];
    let k = gaussian_kernel_q16(2, 1.0);
    blur_rgba8_premul_q16(&src, &mut dst, &mut tmp, w, h, &k);
    assert_eq!(src, dst);
}

#[test]
fn blur_spreads_a_single_pixel() {
    // 3x1 image, only the middle pixel lit; kernel [1/4, 1/2, 1/4] horizontally and vertically.
    let src = vec![0u8, 0, 0, 0, 200, 200, 200, 200, 0, 0, 0, 0];
    let mut dst = vec![0u8; 12];
    let mut tmp = vec![0u8; 12];
    let k = vec![16384u32, 32768, 16384];
    blur_rgba8_premul_q16(&src, &mut dst, &mut tmp, 3, 1, &k);
    // Horizontal pass: 50, 100, 50. Vertical pass with clamped edges keeps the row.
    assert_eq!(dst, vec![50, 50, 50, 50, 100, 100, 100, 100, 50, 50, 50, 50]);
}

#[test]
fn mask_apply_alpha_scales_src_by_mask_alpha() {
    let src = vec![10u8, 20, 30, 40];
    let mask = vec![0u8, 0, 0, 128];
    let mut dst = vec![0u8; 4];
    mask_apply_rgba8_premul(&src, &mask, &mut dst, MaskWeight::Alpha, false);
    let w = 128u16;
    assert_eq!(dst[0], mul_div255_u8(u16::from(10u8), w));
    assert_eq!(dst[1], mul_div255_u8(u16::from(20u8), w));
    assert_eq!(dst[2], mul_div255_u8(u16::from(30u8), w));
    assert_eq!(dst[3], mul_div255_u8(u16::from(40u8), w));
}

#[test]
fn mask_apply_stencil_threshold_selects_all_or_nothing() {
    let src = vec![10u8, 20, 30, 200];
    let mask_lo = vec![0u8, 0, 0, 100];
    let mask_hi = vec![0u8, 0, 0, 200];
    let mut dst = vec![0u8; 4];
    let threshold = (0.5f32.clamp(0.0, 1.0) * 255.0).round().clamp(0.0, 255.0) as u8;

    mask_apply_rgba8_premul(&src, &mask_lo, &mut dst, MaskWeight::Stencil { threshold }, false);
    assert_eq!(dst, vec![0, 0, 0, 0]);

    mask_apply_rgba8_premul(&src, &mask_hi, &mut dst, MaskWeight::Stencil { threshold }, false);
    assert_eq!(dst, src);
}

#[test]
fn mask_apply_inverted_luma() {
    // White mask has luma 255; inverted weight 0.
    let src = vec![10u8, 20, 30, 40];
    let mask = vec![255u8, 255, 255, 255];
    let mut dst = vec![9u8; 4];
    mask_apply_rgba8_premul(&src, &mask, &mut dst, MaskWeight::Luma, true);
    assert_eq!(dst, vec![0, 0, 0, 0]);
    mask_apply_rgba8_premul(&src, &mask, &mut dst, MaskWeight::Luma, false);
    assert_eq!(dst, src);
}

#[test]
fn mul_div255_rounds_to_nearest() {
    assert_eq!(mul_div255_u8(255, 255), 255);
    assert_eq!(mul_div255_u8(128, 128), 64);
    assert_eq!(mul_div255_u8(1, 127), 0);
    assert_eq!(mul_div255_u8(1, 128), 1);
}

#[test]
fn normalize_path_slash_normalization() {
    assert_eq!(normalize_rel_path("a/b.png").unwrap(), "a/b.png");
    assert_eq!(normalize_rel_path("a\\b.png").unwrap(), "a/b.png");
    assert!(normalize_rel_path("../x.png").is_err());
    assert!(normalize_rel_path("/abs.png").is_err());
    assert!(normalize_rel_path("C:\\abs.png").is_err());
    assert!(normalize_rel_path("c:/abs.png").is_err());
    assert!(normalize_rel_path("\\abs.png").is_err());
    assert!(normalize_rel_path("").is_err());
    assert!(normalize_rel_path(".").is_err());
}

fn validation_message(r: Result<String, WavyteError>) -> String {
    match r {
        Err(WavyteError::Validation(m)) => m,
        other => panic!("expected a validation error, got {other:?}"),
    }
}

#[test]
fn normalize_path_drops_empty_and_dot_pieces() {
    assert_eq!(normalize_rel_path("./a//b/./c.png/").unwrap(), "a/b/c.png");
    assert_eq!(normalize_rel_path("dir\\.\\sub\\x.svg").unwrap(), "dir/sub/x.svg");
    assert_eq!(normalize_rel_path("é/ü.png").unwrap(), "é/ü.png");
}

#[test]
fn normalize_path_error_messages() {
    assert_eq!(validation_message(normalize_rel_path("/a")), "asset paths must be relative");
    assert_eq!(validation_message(normalize_rel_path("\\a")), "asset paths must be relative");
    assert_eq!(validation_message(normalize_rel_path("")), "asset path must be non-empty");
    assert_eq!(validation_message(normalize_rel_path("a/../b")), "asset paths must not contain '..'");
    assert_eq!(validation_message(normalize_rel_path("./")), "asset path must contain a file name");
}

#[test]
fn normalized_paths_normalize_to_themselves() {
    for src in ["a\\b.png", "./a//b/./c.png/", "x.png", "dir\\.\\sub\\x.svg", "./C:", "C:", "a:b.png"] {
        let p = normalize_rel_path(src).unwrap();
        assert!(!p.contains('\\'));
        assert!(p.split('/').all(|piece| !piece.is_empty() && piece != "."));
        assert_eq!(normalize_rel_path(&p).unwrap(), p);
    }
}

#[test]
fn drive_names_are_relative_unless_rooted() {
    assert_eq!(normalize_rel_path("C:").unwrap(), "C:");
    assert_eq!(normalize_rel_path("./C:").unwrap(), "C:");
    assert_eq!(normalize_rel_path("a:b.png").unwrap(), "a:b.png");
    assert_eq!(normalize_rel_path("x/C:/y").unwrap(), "x/C:/y");
    assert!(normalize_rel_path("C:/abs.png").is_err());
    assert!(normalize_rel_path("C:\\abs.png").is_err());
    assert!(normalize_rel_path("./C:/x").is_err());
}
