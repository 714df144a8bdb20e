use wavyte::pixel::{
    composite_mix_over_at, crossfade_over_in_place_weighted, mix_px_exec, premul_over_in_place_weighted,
};

/// `t` in `[0, 1]` as the rounded 8-bit weight the renderer derives from it.
fn weight(t: f32) -> u8 {
    ((t.clamp(0.0, 1.0) * 255.0).round() as i32).clamp(0, 255) as u8
}

#[test]
fn composite_crossfade_endpoints() {
    let a = vec![0u8, 0, 0, 255];
    let b = vec![255u8, 0, 0, 255];

    let mut dst = vec![0u8; 4];
    crossfade_over_in_place_weighted(&mut dst, &a, &b, weight(0.0)).unwrap();
    assert_eq!(dst, a);

    let mut dst = vec![0u8; 4];
    crossfade_over_in_place_weighted(&mut dst, &a, &b, weight(1.0)).unwrap();
    assert_eq!(dst, b);
}

#[test]
fn crossfade_midpoint_and_errors() {
    let a = vec![0u8, 0, 0, 255];
    let b = vec![255u8, 0, 0, 255];
    let mut dst = vec![0u8; 4];
    crossfade_over_in_place_weighted(&mut dst, &a, &b, 128).unwrap();
    // 255 * 128 / 255 = 128 red; alpha 127 + 128 = 255.
    assert_eq!(dst, vec![128, 0, 0, 255]);
    let mut short = vec![0u8; 3];
    let e = crossfade_over_in_place_weighted(&mut short, &a[..3], &b[..3], 0).unwrap_err();
    assert_eq!(e.message(), "composite_crossfade_over_rgba8_premul expects equal-length rgba8 buffers");
    assert_eq!(short, vec![0u8; 3]);
}

#[test]
fn weighted_over_scales_the_source() {
    let src = vec![200u8, 100, 0, 200];
    let mut dst = vec![0u8, 0, 100, 255];
    premul_over_in_place_weighted(&mut dst, &src, 255).unwrap();
    // inv = 55: 0 + 200, 0 + 100, round(100 * 55 / 255) = 22, 200 + 55 saturates at 255.
    assert_eq!(dst, vec![200, 100, 22, 255]);

    let mut dst = vec![0u8, 0, 100, 255];
    premul_over_in_place_weighted(&mut dst, &src, 0).unwrap();
    assert_eq!(dst, vec![0, 0, 100, 255]);

    let mut dst = vec![0u8; 4];
    premul_over_in_place_weighted(&mut dst, &src, 128).unwrap();
    // Each channel scaled by 128/255 with rounding.
    assert_eq!(dst, vec![100, 50, 0, 100]);

    let mut dst = vec![0u8; 8];
    let e = premul_over_in_place_weighted(&mut dst, &src, 10).unwrap_err();
    assert_eq!(e.message(), "premul_over_in_place_opacity expects equal-length rgba8 buffers");
}

#[test]
fn mix_over_at_touches_one_pixel() {
    let a = vec![10u8, 0, 0, 255, 20, 0, 0, 255];
    let b = vec![0u8, 30, 0, 255, 0, 40, 0, 255];
    let mut dst = vec![1u8; 8];
    composite_mix_over_at(&mut dst, &a, &b, 2, 1, 0, 255);
    assert_eq!(&dst[..4], &[1, 1, 1, 1]);
    assert_eq!(&dst[4..], &[0, 40, 0, 255]);
    assert_eq!(mix_px_exec([10, 0, 0, 255], [0, 30, 0, 255], 0), [10, 0, 0, 255]);
}
