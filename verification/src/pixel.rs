//! Integer pixel kernels on premultiplied RGBA8 buffers.
//!
//! Buffers are tightly packed, row-major RGBA8; a trailing partial pixel (fewer than four bytes)
//! is never touched.
use vstd::prelude::*;
use crate::error::WavyteError;

verus! {

/// `v` saturated to `255`.
pub open spec fn sat255(v: int) -> int {
    if v > 255 { 255 } else { v }
}

/// Rounded `x * y / 255`.
pub open spec fn mul_div255(x: int, y: int) -> int {
    (x * y + 127) / 255
}

/// Premultiply one colour channel by alpha (both in `0..=255`).
pub open spec fn premul_channel(c: int, a: int) -> int {
    mul_div255(c, a)
}

proof fn lemma_mul_div255_bounds(x: int, y: int)
    requires
        0 <= x <= 65535,
        0 <= y <= 65535,
    ensures
        0 <= x * y <= 65535 * 65535,
        0 <= mul_div255(x, y),
        x <= 255 && y <= 255 ==> mul_div255(x, y) <= 255,
        y == 0 ==> mul_div255(x, y) == 0,
        x <= 255 && y == 255 ==> mul_div255(x, y) == x,
{
    assert(0 <= x * y <= 65535 * 65535) by (nonlinear_arith)
        requires 0 <= x <= 65535, 0 <= y <= 65535;
    assert(x <= 255 && y <= 255 ==> x * y <= 255 * 255) by (nonlinear_arith)
        requires 0 <= x, 0 <= y;
    if y == 255 {
        assert(x * y == x * 255) by (nonlinear_arith) requires y == 255;
    }
    if y == 0 {
        assert(x * y == 0) by (nonlinear_arith) requires y == 0;
    }
}

/// `x * y / 255`, rounded to nearest, saturated to the `u8` range.
pub fn mul_div255_u8(x: u16, y: u16) -> (r: u8)
    ensures
        r as int == sat255(mul_div255(x as int, y as int)),
{
    proof {
        lemma_mul_div255_bounds(x as int, y as int);
    }
    let p: u32 = (x as u32) * (y as u32);
    let q: u32 = (p + 127) / 255;
    if q > 255 {
        255
    } else {
        q as u8
    }
}

/// `x * y / 255`, rounded to nearest, saturated to the `u16` range.
pub fn mul_div255_u16(x: u16, y: u16) -> (r: u16)
    ensures
        r as int == if mul_div255(x as int, y as int) > 65535 { 65535 } else { mul_div255(x as int, y as int) },
{
    proof {
        lemma_mul_div255_bounds(x as int, y as int);
    }
    let p: u32 = (x as u32) * (y as u32);
    let q: u32 = (p + 127) / 255;
    if q > 65535 {
        65535
    } else {
        q as u16
    }
}

/// Saturating `u8` addition.
pub fn add_sat_u8(a: u8, b: u8) -> (r: u8)
    ensures
        r as int == sat255(a + b),
{
    if a as u16 + b as u16 > 255 {
        255
    } else {
        a + b
    }
}

/// Premultiply a straight-alpha RGBA8 colour.
pub fn premul_rgba8(rgba: [u8; 4]) -> (r: [u8; 4])
    ensures
        r@ == seq![
            premul_channel(rgba@[0] as int, rgba@[3] as int) as u8,
            premul_channel(rgba@[1] as int, rgba@[3] as int) as u8,
            premul_channel(rgba@[2] as int, rgba@[3] as int) as u8,
            rgba@[3],
        ],
{
    let a16 = rgba[3] as u16;
    proof {
        lemma_mul_div255_bounds(rgba[0] as int, a16 as int);
        lemma_mul_div255_bounds(rgba[1] as int, a16 as int);
        lemma_mul_div255_bounds(rgba[2] as int, a16 as int);
    }
    let r = (((rgba[0] as u16) * a16 + 127) / 255) as u8;
    let g = (((rgba[1] as u16) * a16 + 127) / 255) as u8;
    let b = (((rgba[2] as u16) * a16 + 127) / 255) as u8;
    let out = [r, g, b, rgba[3]];
    assert(out@ =~= seq![r, g, b, rgba@[3]]);
    out
}


/// Byte count covered by whole pixels in a buffer of `n` bytes.
pub open spec fn whole_px_len(n: int) -> int {
    n - n % 4
}

/// Start of the pixel that byte `i` belongs to.
pub open spec fn px_base(i: int) -> int {
    i - i % 4
}

/// Byte `i` of `s` after premultiplying its pixel by the pixel's alpha.
pub open spec fn premul_byte(s: Seq<u8>, i: int) -> u8 {
    if i % 4 == 3 {
        s[i]
    } else {
        premul_channel(s[i] as int, s[px_base(i) + 3] as int) as u8
    }
}

/// `s` with every whole pixel premultiplied; the trailing partial pixel is kept.
pub open spec fn premultiply_buf(s: Seq<u8>) -> Seq<u8> {
    Seq::new(s.len(), |i: int| if i < whole_px_len(s.len() as int) { premul_byte(s, i) } else { s[i] })
}

proof fn lemma_px_index(p: int, c: int)
    requires
        0 <= p,
        0 <= c < 4,
    ensures
        (4 * p + c) % 4 == c,
        px_base(4 * p + c) == 4 * p,
{
}

proof fn lemma_whole_px(n: int, p: int)
    requires
        0 <= n,
        0 <= p,
    ensures
        p < n / 4 <==> 4 * p + 4 <= whole_px_len(n),
        4 * (n / 4) == whole_px_len(n),
{
}

/// Premultiply a straight-alpha RGBA8 buffer in place.
pub fn premultiply_rgba8_in_place(rgba: &mut [u8])
    ensures
        final(rgba)@ == premultiply_buf(old(rgba)@),
{
    let n = rgba.len();
    let npx = n / 4;
    let ghost orig = rgba@;
    proof {
        lemma_whole_px(n as int, 0);
    }
    let mut p: usize = 0;
    while p < npx
        invariant
            n == rgba@.len(),
            orig.len() == n,
            npx == n / 4,
            p <= npx,
            4 * npx == whole_px_len(n as int),
            forall|j: int| 0 <= j < 4 * p ==> rgba@[j] == premultiply_buf(orig)[j],
            forall|j: int| 4 * p <= j < n ==> rgba@[j] == orig[j],
        decreases npx - p,
    {
        let i = 4 * p;
        let a = rgba[i + 3] as u16;
        proof {
            lemma_px_index(p as int, 0);
            lemma_px_index(p as int, 1);
            lemma_px_index(p as int, 2);
            lemma_px_index(p as int, 3);
            lemma_mul_div255_bounds(rgba@[i as int] as int, a as int);
            lemma_mul_div255_bounds(rgba@[i + 1] as int, a as int);
            lemma_mul_div255_bounds(rgba@[i + 2] as int, a as int);
        }
        if a == 0 {
            rgba[i] = 0;
            rgba[i + 1] = 0;
            rgba[i + 2] = 0;
        } else {
            rgba[i] = ((rgba[i] as u16 * a + 127) / 255) as u8;
            rgba[i + 1] = ((rgba[i + 1] as u16 * a + 127) / 255) as u8;
            rgba[i + 2] = ((rgba[i + 2] as u16 * a + 127) / 255) as u8;
        }
        p = p + 1;
    }
    assert(rgba@ =~= premultiply_buf(orig));
}


/// Source-over of premultiplied pixel `s` onto `d`.
pub open spec fn over_px(d: Seq<u8>, s: Seq<u8>) -> Seq<u8> {
    if s[3] == 0 {
        d
    } else {
        let inv = 255 - s[3];
        seq![
            sat255(s[0] + mul_div255(d[0] as int, inv)) as u8,
            sat255(s[1] + mul_div255(d[1] as int, inv)) as u8,
            sat255(s[2] + mul_div255(d[2] as int, inv)) as u8,
            sat255(s[3] + mul_div255(d[3] as int, inv)) as u8,
        ]
    }
}

/// Composite one premultiplied pixel over another.
pub fn premul_over_px(dst: [u8; 4], src: [u8; 4]) -> (r: [u8; 4])
    ensures
        r@ == over_px(dst@, src@),
{
    let sa = src[3] as u16;
    if sa == 0 {
        return dst;
    }
    let inv = 255u16 - sa;
    proof {
        lemma_mul_div255_bounds(dst[0] as int, inv as int);
        lemma_mul_div255_bounds(dst[1] as int, inv as int);
        lemma_mul_div255_bounds(dst[2] as int, inv as int);
        lemma_mul_div255_bounds(dst[3] as int, inv as int);
    }
    let a = add_sat_u8(src[3], mul_div255_u8(dst[3] as u16, inv));
    let r = add_sat_u8(src[0], mul_div255_u8(dst[0] as u16, inv));
    let g = add_sat_u8(src[1], mul_div255_u8(dst[1] as u16, inv));
    let b = add_sat_u8(src[2], mul_div255_u8(dst[2] as u16, inv));
    let out = [r, g, b, a];
    assert(out@ =~= over_px(dst@, src@));
    out
}

/// Byte `i` of `d` after compositing the pixels of `s` over it.
pub open spec fn over_byte(d: Seq<u8>, s: Seq<u8>, i: int) -> u8 {
    let b = px_base(i);
    over_px(d.subrange(b, b + 4), s.subrange(b, b + 4))[i % 4]
}

/// `d` with every pixel of `s` composited over it (both of the same whole-pixel length).
pub open spec fn over_buf(d: Seq<u8>, s: Seq<u8>) -> Seq<u8> {
    Seq::new(d.len(), |i: int| over_byte(d, s, i))
}

/// Two buffers that the in-place kernels accept: equal length, whole pixels.
pub open spec fn rgba_pair_ok(a: Seq<u8>, b: Seq<u8>) -> bool {
    a.len() == b.len() && a.len() % 4 == 0
}

/// Source-over of a premultiplied buffer onto another, in place.
pub fn premul_over_in_place(dst: &mut [u8], src: &[u8]) -> (r: Result<(), WavyteError>)
    ensures
        r is Ok <==> rgba_pair_ok(old(dst)@, src@),
        r is Ok ==> final(dst)@ == over_buf(old(dst)@, src@),
        r matches Err(e) ==> e is Evaluation && final(dst)@ == old(dst)@,
{
    if dst.len() != src.len() || dst.len() % 4 != 0 {
        return Err(WavyteError::evaluation("premul_over_in_place expects equal-length rgba8 buffers"));
    }
    let n = dst.len();
    let npx = n / 4;
    let ghost orig = dst@;
    let mut p: usize = 0;
    while p < npx
        invariant
            n == dst@.len(),
            n == src@.len(),
            n % 4 == 0,
            orig.len() == n,
            npx == n / 4,
            p <= npx,
            forall|j: int| 0 <= j < 4 * p ==> dst@[j] == over_buf(orig, src@)[j],
            forall|j: int| 4 * p <= j < n ==> dst@[j] == orig[j],
        decreases npx - p,
    {
        let i = 4 * p;
        proof {
            lemma_px_index(p as int, 0);
            lemma_px_index(p as int, 1);
            lemma_px_index(p as int, 2);
            lemma_px_index(p as int, 3);
        }
        let ghost dpx = orig.subrange(i as int, i + 4);
        let ghost spx = src@.subrange(i as int, i + 4);
        let d = [dst[i], dst[i + 1], dst[i + 2], dst[i + 3]];
        let s = [src[i], src[i + 1], src[i + 2], src[i + 3]];
        assert(d@ =~= dpx);
        assert(s@ =~= spx);
        let o = premul_over_px(d, s);
        dst[i] = o[0];
        dst[i + 1] = o[1];
        dst[i + 2] = o[2];
        dst[i + 3] = o[3];
        p = p + 1;
    }
    assert(dst@ =~= over_buf(orig, src@));
    Ok(())
}


/// A pixel whose four channels are each scaled by `w / 255` (rounded).
pub open spec fn scale_px(s: Seq<u8>, w: int) -> Seq<u8> {
    seq![
        sat255(mul_div255(s[0] as int, w)) as u8,
        sat255(mul_div255(s[1] as int, w)) as u8,
        sat255(mul_div255(s[2] as int, w)) as u8,
        sat255(mul_div255(s[3] as int, w)) as u8,
    ]
}

/// The blend `a * (255 - w) + b * w` (over `255`, rounded, saturated) of two pixels.
pub open spec fn mix_px(a: Seq<u8>, b: Seq<u8>, w: int) -> Seq<u8> {
    Seq::new(4, |c: int| sat255(sat255(mul_div255(a[c] as int, 255 - w)) + sat255(mul_div255(b[c] as int, w))) as u8)
}

/// Byte `i` of `d` after compositing, pixel by pixel, `s` scaled by `w / 255` over it.
pub open spec fn over_scaled_buf(d: Seq<u8>, s: Seq<u8>, w: int) -> Seq<u8> {
    Seq::new(d.len(), |i: int| over_px(d.subrange(px_base(i), px_base(i) + 4), scale_px(s.subrange(px_base(i), px_base(i) + 4), w))[i % 4])
}

/// `d` after compositing, pixel by pixel, the blend of `a` and `b` with weight `w` over it.
pub open spec fn over_mix_buf(d: Seq<u8>, a: Seq<u8>, b: Seq<u8>, w: int) -> Seq<u8> {
    Seq::new(d.len(), |i: int| over_px(d.subrange(px_base(i), px_base(i) + 4),
        mix_px(a.subrange(px_base(i), px_base(i) + 4), b.subrange(px_base(i), px_base(i) + 4), w))[i % 4])
}

fn scale_px_exec(s: [u8; 4], w: u16) -> (r: [u8; 4])
    requires
        w <= 255,
    ensures
        r@ == scale_px(s@, w as int),
{
    let r = [
        mul_div255_u8(s[0] as u16, w),
        mul_div255_u8(s[1] as u16, w),
        mul_div255_u8(s[2] as u16, w),
        mul_div255_u8(s[3] as u16, w),
    ];
    assert(r@ =~= scale_px(s@, w as int));
    r
}

/// Blend two premultiplied pixels: `a * (255 - w) / 255 + b * w / 255` per channel.
pub fn mix_px_exec(a: [u8; 4], b: [u8; 4], w: u16) -> (r: [u8; 4])
    requires
        w <= 255,
    ensures
        r@ == mix_px(a@, b@, w as int),
{
    let it = 255u16 - w;
    let r = [
        add_sat_u8(mul_div255_u8(a[0] as u16, it), mul_div255_u8(b[0] as u16, w)),
        add_sat_u8(mul_div255_u8(a[1] as u16, it), mul_div255_u8(b[1] as u16, w)),
        add_sat_u8(mul_div255_u8(a[2] as u16, it), mul_div255_u8(b[2] as u16, w)),
        add_sat_u8(mul_div255_u8(a[3] as u16, it), mul_div255_u8(b[3] as u16, w)),
    ];
    assert(r@ =~= mix_px(a@, b@, w as int));
    r
}

/// Source-over of a premultiplied buffer scaled by opacity weight `weight / 255` onto
/// another, in place. A zero weight leaves `dst` as it is.
pub fn premul_over_in_place_weighted(dst: &mut [u8], src: &[u8], weight: u8) -> (r: Result<(), WavyteError>)
    ensures
        r is Ok <==> rgba_pair_ok(old(dst)@, src@),
        r is Ok ==> final(dst)@ == over_scaled_buf(old(dst)@, src@, weight as int),
        r matches Err(e) ==> (e matches WavyteError::Evaluation(m) && m@ == "premul_over_in_place_opacity expects equal-length rgba8 buffers"@)
            && final(dst)@ == old(dst)@,
{
    if dst.len() != src.len() || dst.len() % 4 != 0 {
        return Err(WavyteError::evaluation("premul_over_in_place_opacity expects equal-length rgba8 buffers"));
    }
    let n = dst.len();
    let npx = n / 4;
    let ghost orig = dst@;
    let w = weight as u16;
    let mut p: usize = 0;
    while p < npx
        invariant
            n == dst@.len(),
            n == src@.len(),
            n % 4 == 0,
            orig.len() == n,
            npx == n / 4,
            p <= npx,
            w == weight,
            forall|j: int| 0 <= j < 4 * p ==> dst@[j] == over_scaled_buf(orig, src@, w as int)[j],
            forall|j: int| 4 * p <= j < n ==> dst@[j] == orig[j],
        decreases npx - p,
    {
        let i = 4 * p;
        proof {
            lemma_px_index(p as int, 0);
            lemma_px_index(p as int, 1);
            lemma_px_index(p as int, 2);
            lemma_px_index(p as int, 3);
        }
        let d = [dst[i], dst[i + 1], dst[i + 2], dst[i + 3]];
        let s = [src[i], src[i + 1], src[i + 2], src[i + 3]];
        assert(d@ =~= orig.subrange(i as int, i + 4));
        assert(s@ =~= src@.subrange(i as int, i + 4));
        let o = premul_over_px(d, scale_px_exec(s, w));
        dst[i] = o[0];
        dst[i + 1] = o[1];
        dst[i + 2] = o[2];
        dst[i + 3] = o[3];
        p = p + 1;
    }
    assert(dst@ =~= over_scaled_buf(orig, src@, w as int));
    Ok(())
}

/// Crossfade two premultiplied buffers with weight `weight / 255` on `b` and composite the
/// blend over `dst`, in place.
pub fn crossfade_over_in_place_weighted(dst: &mut [u8], a: &[u8], b: &[u8], weight: u8) -> (r: Result<(), WavyteError>)
    ensures
        r is Ok <==> (rgba_pair_ok(old(dst)@, a@) && b@.len() == a@.len()),
        r is Ok ==> final(dst)@ == over_mix_buf(old(dst)@, a@, b@, weight as int),
        r matches Err(e) ==> (e matches WavyteError::Evaluation(m) && m@ == "composite_crossfade_over_rgba8_premul expects equal-length rgba8 buffers"@)
            && final(dst)@ == old(dst)@,
{
    if dst.len() != a.len() || dst.len() != b.len() || dst.len() % 4 != 0 {
        return Err(WavyteError::evaluation("composite_crossfade_over_rgba8_premul expects equal-length rgba8 buffers"));
    }
    let n = dst.len();
    let npx = n / 4;
    let ghost orig = dst@;
    let w = weight as u16;
    let mut p: usize = 0;
    while p < npx
        invariant
            n == dst@.len(),
            n == a@.len(),
            n == b@.len(),
            n % 4 == 0,
            orig.len() == n,
            npx == n / 4,
            p <= npx,
            w == weight,
            forall|j: int| 0 <= j < 4 * p ==> dst@[j] == over_mix_buf(orig, a@, b@, w as int)[j],
            forall|j: int| 4 * p <= j < n ==> dst@[j] == orig[j],
        decreases npx - p,
    {
        let i = 4 * p;
        proof {
            lemma_px_index(p as int, 0);
            lemma_px_index(p as int, 1);
            lemma_px_index(p as int, 2);
            lemma_px_index(p as int, 3);
        }
        let d = [dst[i], dst[i + 1], dst[i + 2], dst[i + 3]];
        let ap = [a[i], a[i + 1], a[i + 2], a[i + 3]];
        let bp = [b[i], b[i + 1], b[i + 2], b[i + 3]];
        assert(d@ =~= orig.subrange(i as int, i + 4));
        assert(ap@ =~= a@.subrange(i as int, i + 4));
        assert(bp@ =~= b@.subrange(i as int, i + 4));
        let o = premul_over_px(d, mix_px_exec(ap, bp, w));
        dst[i] = o[0];
        dst[i + 1] = o[1];
        dst[i + 2] = o[2];
        dst[i + 3] = o[3];
        p = p + 1;
    }
    assert(dst@ =~= over_mix_buf(orig, a@, b@, w as int));
    Ok(())
}

/// Blend pixel `(x, y)` of `a` and `b` with weight `weight / 255` on `b` and composite it over
/// the same pixel of `dst`; other bytes are unchanged.
pub fn composite_mix_over_at(dst: &mut [u8], a: &[u8], b: &[u8], width: u32, x: u32, y: u32, weight: u8)
    requires
        x < width,
        ((y as int) * (width as int) + (x as int)) * 4 + 4 <= old(dst)@.len(),
        ((y as int) * (width as int) + (x as int)) * 4 + 4 <= a@.len(),
        ((y as int) * (width as int) + (x as int)) * 4 + 4 <= b@.len(),
    ensures
        ({
            let i = ((y as int) * (width as int) + (x as int)) * 4;
            let o = over_px(old(dst)@.subrange(i, i + 4), mix_px(a@.subrange(i, i + 4), b@.subrange(i, i + 4), weight as int));
            final(dst)@ == old(dst)@.update(i, o[0]).update(i + 1, o[1]).update(i + 2, o[2]).update(i + 3, o[3])
        }),
{
    let ghost gi = ((y as int) * (width as int) + (x as int)) * 4;
    assert(0 <= (y as int) * (width as int)) by (nonlinear_arith);
    let n = dst.len();
    assert(gi <= n);
    let yw = (y as usize) * (width as usize);
    let i = (yw + (x as usize)) * 4;
    assert(i == gi);
    let d = [dst[i], dst[i + 1], dst[i + 2], dst[i + 3]];
    let ap = [a[i], a[i + 1], a[i + 2], a[i + 3]];
    let bp = [b[i], b[i + 1], b[i + 2], b[i + 3]];
    assert(d@ =~= dst@.subrange(gi, gi + 4));
    assert(ap@ =~= a@.subrange(gi, gi + 4));
    assert(bp@ =~= b@.subrange(gi, gi + 4));
    let o = premul_over_px(d, mix_px_exec(ap, bp, weight as u16));
    dst[i] = o[0];
    dst[i + 1] = o[1];
    dst[i + 2] = o[2];
    dst[i + 3] = o[3];
}

/// One premultiplied pixel flattened over an opaque background colour.
pub open spec fn flatten_px(s: Seq<u8>, bg: Seq<u8>) -> Seq<u8> {
    if s[3] == 255 {
        seq![s[0], s[1], s[2], 255u8]
    } else {
        let inv = 255 - s[3];
        seq![
            sat255(s[0] + mul_div255(bg[0] as int, inv)) as u8,
            sat255(s[1] + mul_div255(bg[1] as int, inv)) as u8,
            sat255(s[2] + mul_div255(bg[2] as int, inv)) as u8,
            255u8,
        ]
    }
}

/// `s` flattened pixel by pixel over `bg`.
pub open spec fn flatten_buf(s: Seq<u8>, bg: Seq<u8>) -> Seq<u8> {
    Seq::new(s.len(), |i: int| flatten_px(s.subrange(px_base(i), px_base(i) + 4), bg)[i % 4])
}

/// Flatten premultiplied RGBA8 over an RGB background colour, producing opaque RGBA8.
///
/// The background's own alpha is ignored.
pub fn flatten_premul_over_bg_to_opaque_rgba8(dst: &mut [u8], src_premul: &[u8], bg_rgba: [u8; 4]) -> (r: Result<(), WavyteError>)
    ensures
        r is Ok <==> rgba_pair_ok(old(dst)@, src_premul@),
        r is Ok ==> final(dst)@ == flatten_buf(src_premul@, bg_rgba@),
        r matches Err(e) ==> e is Validation && final(dst)@ == old(dst)@,
{
    if dst.len() != src_premul.len() || dst.len() % 4 != 0 {
        return Err(WavyteError::validation(
            "flatten_premul_over_bg_to_opaque_rgba8 expects equal-length rgba8 buffers",
        ));
    }
    let bg_r = bg_rgba[0] as u16;
    let bg_g = bg_rgba[1] as u16;
    let bg_b = bg_rgba[2] as u16;
    let n = dst.len();
    let npx = n / 4;
    let mut p: usize = 0;
    while p < npx
        invariant
            n == dst@.len(),
            n == src_premul@.len(),
            n % 4 == 0,
            npx == n / 4,
            p <= npx,
            bg_r == bg_rgba@[0],
            bg_g == bg_rgba@[1],
            bg_b == bg_rgba@[2],
            forall|j: int| 0 <= j < 4 * p ==> dst@[j] == flatten_buf(src_premul@, bg_rgba@)[j],
        decreases npx - p,
    {
        let i = 4 * p;
        proof {
            lemma_px_index(p as int, 0);
            lemma_px_index(p as int, 1);
            lemma_px_index(p as int, 2);
            lemma_px_index(p as int, 3);
        }
        let ghost spx = src_premul@.subrange(i as int, i + 4);
        let a = src_premul[i + 3] as u16;
        if a == 255 {
            dst[i] = src_premul[i];
            dst[i + 1] = src_premul[i + 1];
            dst[i + 2] = src_premul[i + 2];
            dst[i + 3] = 255;
        } else {
            let inv = 255u16 - a;
            proof {
                lemma_mul_div255_bounds(bg_r as int, inv as int);
                lemma_mul_div255_bounds(bg_g as int, inv as int);
                lemma_mul_div255_bounds(bg_b as int, inv as int);
            }
            let r = src_premul[i] as u16 + mul_div255_u16(bg_r, inv);
            let g = src_premul[i + 1] as u16 + mul_div255_u16(bg_g, inv);
            let b = src_premul[i + 2] as u16 + mul_div255_u16(bg_b, inv);
            dst[i] = if r > 255 { 255 } else { r as u8 };
            dst[i + 1] = if g > 255 { 255 } else { g as u8 };
            dst[i + 2] = if b > 255 { 255 } else { b as u8 };
            dst[i + 3] = 255;
        }
        assert(spx[3] == src_premul@[i + 3]);
        p = p + 1;
    }
    assert(dst@ =~= flatten_buf(src_premul@, bg_rgba@));
    Ok(())
}

/// How a mask pixel selects the weight applied to the source pixel.
#[derive(Debug, Clone, Copy, PartialEq, Eq)]
pub enum MaskWeight {
    /// The mask's alpha.
    Alpha,
    /// The mask's Rec. 709 luma.
    Luma,
    /// All (`255`) when the mask's alpha is at least `threshold`, else nothing (`0`).
    Stencil { threshold: u8 },
}

/// Integer Rec. 709 luma of an RGB triple.
pub open spec fn luma(r: int, g: int, b: int) -> int {
    (r * 54 + g * 183 + b * 19 + 128) / 256
}

/// Weight that mask pixel `m` gives under `mode`.
pub open spec fn mask_weight(m: Seq<u8>, mode: MaskWeight, inverted: bool) -> int {
    let w = match mode {
        MaskWeight::Alpha => m[3] as int,
        MaskWeight::Luma => luma(m[0] as int, m[1] as int, m[2] as int),
        MaskWeight::Stencil { threshold } => if m[3] >= threshold { 255int } else { 0int },
    };
    if inverted { 255 - w } else { w }
}

/// `src` scaled byte by byte by the weight of the matching `mask` pixel.
pub open spec fn mask_apply_buf(src: Seq<u8>, mask: Seq<u8>, mode: MaskWeight, inverted: bool) -> Seq<u8> {
    Seq::new(src.len(), |i: int| mul_div255(src[i] as int, mask_weight(mask.subrange(px_base(i), px_base(i) + 4), mode, inverted)) as u8)
}

proof fn lemma_luma_bound(r: int, g: int, b: int)
    requires 0 <= r <= 255, 0 <= g <= 255, 0 <= b <= 255,
    ensures 0 <= luma(r, g, b) <= 255,
{
}

/// Scale premultiplied `src` by the weight derived from `mask`, writing into `dst`.
///
/// Only whole pixels are written; a trailing partial pixel of `dst` is kept.
pub fn mask_apply_rgba8_premul(src: &[u8], mask: &[u8], dst: &mut [u8], mode: MaskWeight, inverted: bool)
    requires
        src@.len() == mask@.len(),
        src@.len() == old(dst)@.len(),
    ensures
        final(dst)@.len() == old(dst)@.len(),
        forall|i: int| 0 <= i < whole_px_len(src@.len() as int) ==> final(dst)@[i] == mask_apply_buf(src@, mask@, mode, inverted)[i],
        forall|i: int| whole_px_len(src@.len() as int) <= i < src@.len() ==> final(dst)@[i] == old(dst)@[i],
{
    let n = src.len();
    let npx = n / 4;
    let ghost orig = dst@;
    proof {
        lemma_whole_px(n as int, 0);
    }
    let mut p: usize = 0;
    while p < npx
        invariant
            n == dst@.len(),
            n == src@.len(),
            n == mask@.len(),
            orig.len() == n,
            npx == n / 4,
            4 * npx == whole_px_len(n as int),
            p <= npx,
            forall|j: int| 0 <= j < 4 * p ==> dst@[j] == mask_apply_buf(src@, mask@, mode, inverted)[j],
            forall|j: int| 4 * p <= j < n ==> dst@[j] == orig[j],
        decreases npx - p,
    {
        let i = 4 * p;
        proof {
            lemma_px_index(p as int, 0);
            lemma_px_index(p as int, 1);
            lemma_px_index(p as int, 2);
            lemma_px_index(p as int, 3);
        }
        let ghost mpx = mask@.subrange(i as int, i + 4);
        let base_w: u8 = match mode {
            MaskWeight::Alpha => mask[i + 3],
            MaskWeight::Luma => {
                let r = mask[i] as u16;
                let g = mask[i + 1] as u16;
                let b = mask[i + 2] as u16;
                proof {
                    lemma_luma_bound(r as int, g as int, b as int);
                }
                let t: u16 = r * 54 + g * 183 + b * 19 + 128;
                let l: u16 = t >> 8;
                assert(l == t / 256) by (bit_vector)
                    requires l == t >> 8;
                l as u8
            },
            MaskWeight::Stencil { threshold } => if mask[i + 3] >= threshold { 255u8 } else { 0u8 },
        };
        let w = if inverted { 255 - base_w } else { base_w };
        let w16 = w as u16;
        assert(mpx[0] == mask@[i as int] && mpx[1] == mask@[i + 1] && mpx[2] == mask@[i + 2] && mpx[3] == mask@[i + 3]);
        assert(w == mask_weight(mpx, mode, inverted));
        proof {
            lemma_mul_div255_bounds(src@[i as int] as int, w16 as int);
            lemma_mul_div255_bounds(src@[i + 1] as int, w16 as int);
            lemma_mul_div255_bounds(src@[i + 2] as int, w16 as int);
            lemma_mul_div255_bounds(src@[i + 3] as int, w16 as int);
        }
        dst[i] = mul_div255_u8(src[i] as u16, w16);
        dst[i + 1] = mul_div255_u8(src[i + 1] as u16, w16);
        dst[i + 2] = mul_div255_u8(src[i + 2] as u16, w16);
        dst[i + 3] = mul_div255_u8(src[i + 3] as u16, w16);
        p = p + 1;
    }
}

/// Read pixel `(x, y)` of a `width`-wide buffer; transparent black outside `width x height`.
pub fn sample_px(src: &[u8], width: u32, height: u32, x: i32, y: i32) -> (r: [u8; 4])
    requires
        !(x < 0 || y < 0 || x >= width as i32 || y >= height as i32) ==> (y * width + x) * 4 + 4 <= src@.len(),
    ensures
        (x < 0 || y < 0 || x >= width as i32 || y >= height as i32) ==> r@ == seq![0u8, 0u8, 0u8, 0u8],
        !(x < 0 || y < 0 || x >= width as i32 || y >= height as i32) ==> r@ == src@.subrange((y * width + x) * 4, (y * width + x) * 4 + 4),
{
    if x < 0 || y < 0 || x >= width as i32 || y >= height as i32 {
        let z = [0u8, 0u8, 0u8, 0u8];
        assert(z@ =~= seq![0u8, 0u8, 0u8, 0u8]);
        return z;
    }
    proof {
        assert(width as i32 >= 0 ==> (width as i32) as int == width as int) by (bit_vector);
        assert(0 <= (y as int) * (width as int)) by (nonlinear_arith) requires y >= 0;
    }
    let yy = y as usize;
    let ww = width as usize;
    let xx = x as usize;
    assert(yy as int * ww as int == y as int * width as int);
    assert((yy as int * ww as int + xx as int) * 4 + 4 <= src@.len());
    let n = src.len();
    let row = yy * ww;
    let idx = (row + xx) * 4;
    let out = [src[idx], src[idx + 1], src[idx + 2], src[idx + 3]];
    assert(out@ =~= src@.subrange(idx as int, idx + 4));
    out
}

/// Round a Q16 fixed-point accumulator to a byte, saturating at `255`.
pub open spec fn q16_round(acc: int) -> int {
    sat255((acc + 32768) / 65536)
}

/// Round a Q16 fixed-point accumulator to a byte, saturating at `255`.
pub fn q16_to_u8(acc: u64) -> (r: u8)
    requires
        acc <= u64::MAX - 32768,
    ensures
        r as int == q16_round(acc as int),
{
    let s: u64 = acc + 32768;
    let v: u64 = s >> 16;
    assert(v == s / 65536) by (bit_vector)
        requires v == s >> 16;
    if v > 255 { 255 } else { v as u8 }
}


/// FNV-1a 64-bit offset basis.
pub const FNV_OFFSET_BASIS: u64 = 0xcbf2_9ce4_8422_2325;

/// FNV-1a 64-bit prime.
pub const FNV_PRIME: u64 = 0x0000_0100_0000_01b3;

/// FNV-1a state after absorbing one byte.
pub open spec fn fnv1a_step(h: u64, b: u8) -> u64 {
    (((h ^ (b as u64)) as nat * FNV_PRIME as nat) % 0x1_0000_0000_0000_0000nat) as u64
}

/// FNV-1a state after absorbing `bytes` in order.
pub open spec fn fnv1a(h: u64, bytes: Seq<u8>) -> u64
    decreases bytes.len(),
{
    if bytes.len() == 0 {
        h
    } else {
        fnv1a(fnv1a_step(h, bytes[0]), bytes.drop_first())
    }
}

/// Byte `i` (little-endian) of `v`.
pub open spec fn le_byte(v: u64, i: int) -> u8 {
    ((v >> (8 * i) as u64) & 0xff) as u8
}

/// The eight little-endian bytes of `v`.
pub open spec fn u64_le_bytes(v: u64) -> Seq<u8> {
    seq![le_byte(v, 0), le_byte(v, 1), le_byte(v, 2), le_byte(v, 3), le_byte(v, 4), le_byte(v, 5), le_byte(v, 6), le_byte(v, 7)]
}

proof fn lemma_fnv1a_append(h: u64, a: Seq<u8>, b: u8)
    ensures
        fnv1a(h, a.push(b)) == fnv1a_step(fnv1a(h, a), b),
    decreases a.len(),
{
    if a.len() == 0 {
        assert(a.push(b).drop_first() =~= Seq::<u8>::empty());
        assert(a.push(b)[0] == b);
        assert(fnv1a(fnv1a_step(h, b), Seq::<u8>::empty()) == fnv1a_step(h, b));
        assert(fnv1a(h, a) == h);
    } else {
        assert(a.push(b).drop_first() =~= a.drop_first().push(b));
        assert(a.push(b)[0] == a[0]);
        lemma_fnv1a_append(fnv1a_step(h, a[0]), a.drop_first(), b);
    }
}

/// FNV-1a state after absorbing the little-endian bytes of `v`.
pub(crate) fn fnv1a_write_u64(h: u64, v: u64) -> (r: u64)
    ensures
        r == fnv1a(h, u64_le_bytes(v)),
{
    let mut st = h;
    let mut i: u64 = 0;
    while i < 8
        invariant
            i <= 8,
            st == fnv1a(h, u64_le_bytes(v).take(i as int)),
        decreases 8 - i,
    {
        let b: u8 = ((v >> (8 * i)) & 0xff) as u8;
        assert(b == le_byte(v, i as int));
        proof {
            assert(u64_le_bytes(v).take(i + 1) =~= u64_le_bytes(v).take(i as int).push(b));
            lemma_fnv1a_append(h, u64_le_bytes(v).take(i as int), b);
        }
        st = (st ^ (b as u64)).wrapping_mul(FNV_PRIME);
        i = i + 1;
    }
    assert(u64_le_bytes(v).take(8) =~= u64_le_bytes(v));
    st
}

/// Deterministic per-pixel 32-bit hash of `(x, y)` under `seed` (FNV-1a over the
/// little-endian `u64` encodings of `x` then `y`, low 32 bits).
pub fn hash_u32(seed: u64, x: u32, y: u32) -> (r: u32)
    ensures
        r as int == fnv1a(seed ^ FNV_OFFSET_BASIS, u64_le_bytes(x as u64) + u64_le_bytes(y as u64)) as int % 0x1_0000_0000,
{
    let h0 = seed ^ FNV_OFFSET_BASIS;
    let h1 = fnv1a_write_u64(h0, x as u64);
    let h2 = fnv1a_write_u64(h1, y as u64);
    proof {
        lemma_fnv1a_concat(h0, u64_le_bytes(x as u64), u64_le_bytes(y as u64));
    }
    let lo = h2 & 0xFFFF_FFFF;
    assert(lo == h2 % 0x1_0000_0000) by (bit_vector)
        requires lo == h2 & 0xFFFF_FFFF;
    lo as u32
}

pub proof fn lemma_fnv1a_concat(h: u64, a: Seq<u8>, b: Seq<u8>)
    ensures
        fnv1a(h, a + b) == fnv1a(fnv1a(h, a), b),
    decreases a.len(),
{
    if a.len() > 0 {
        assert((a + b).drop_first() =~= a.drop_first() + b);
        lemma_fnv1a_concat(fnv1a_step(h, a[0]), a.drop_first(), b);
    } else {
        assert(a + b =~= b);
    }
}

/// Scaling by `255` keeps a byte; scaling by `0` clears it.
proof fn lemma_mul_div255_ends(x: int)
    requires
        0 <= x <= 255,
    ensures
        mul_div255(x, 255) == x,
        mul_div255(x, 0) == 0,
{
    assert((x * 255 + 127) / 255 == x) by (nonlinear_arith)
        requires 0 <= x <= 255;
}

/// Flattening a fully transparent premultiplied pixel shows the background colour, opaque.
pub proof fn law_flatten_transparent_shows_background(s: Seq<u8>, bg: Seq<u8>)
    requires
        s.len() == 4,
        bg.len() >= 3,
        s[3] == 0,
        s[0] <= s[3] && s[1] <= s[3] && s[2] <= s[3],
    ensures
        flatten_px(s, bg) == seq![bg[0], bg[1], bg[2], 255u8],
{
    lemma_mul_div255_ends(bg[0] as int);
    lemma_mul_div255_ends(bg[1] as int);
    lemma_mul_div255_ends(bg[2] as int);
    assert(flatten_px(s, bg) =~= seq![bg[0], bg[1], bg[2], 255u8]);
}

/// Flattening an opaque pixel leaves it unchanged.
pub proof fn law_flatten_opaque_is_unchanged(s: Seq<u8>, bg: Seq<u8>)
    requires
        s.len() == 4,
        s[3] == 255,
    ensures
        flatten_px(s, bg) == s,
{
    assert(flatten_px(s, bg) =~= s);
}

/// A stencil mask keeps each source byte whole or clears it: nothing in between.
pub proof fn law_stencil_is_all_or_nothing(src: Seq<u8>, mask: Seq<u8>, threshold: u8, inverted: bool, i: int)
    requires
        src.len() == mask.len(),
        0 <= i < whole_px_len(src.len() as int),
    ensures
        mask_apply_buf(src, mask, MaskWeight::Stencil { threshold }, inverted)[i] == src[i]
            || mask_apply_buf(src, mask, MaskWeight::Stencil { threshold }, inverted)[i] == 0,
{
    lemma_mul_div255_ends(src[i] as int);
}

/// Under an alpha mask, an opaque mask pixel keeps the source bytes and a transparent one
/// clears them (inverted: the other way round).
pub proof fn law_alpha_mask_extremes(src: Seq<u8>, mask: Seq<u8>, inverted: bool, i: int)
    requires
        src.len() == mask.len(),
        0 <= i < whole_px_len(src.len() as int),
    ensures
        mask.subrange(px_base(i), px_base(i) + 4)[3] == (if inverted { 0u8 } else { 255u8 })
            ==> mask_apply_buf(src, mask, MaskWeight::Alpha, inverted)[i] == src[i],
        mask.subrange(px_base(i), px_base(i) + 4)[3] == (if inverted { 255u8 } else { 0u8 })
            ==> mask_apply_buf(src, mask, MaskWeight::Alpha, inverted)[i] == 0,
{
    lemma_mul_div255_ends(src[i] as int);
}


/// Under a luma mask every source byte is scaled by the mask pixel's Rec. 709 luma
/// `(54 r + 183 g + 19 b + 128) / 256` (inverted: by `255` minus it). Green weighs most and
/// red more than blue, so an opaque red pixel keeps more than an opaque blue one, and a grey
/// pixel weighs exactly its level.
pub proof fn law_luma_mask_weights(src: Seq<u8>, mask: Seq<u8>, i: int, v: u8)
    requires
        src.len() == mask.len(),
        0 <= i < whole_px_len(src.len() as int),
    ensures
        ({
            let p = px_base(i);
            let w = (54 * mask[p] + 183 * mask[p + 1] + 19 * mask[p + 2] + 128) / 256;
            &&& mask_apply_buf(src, mask, MaskWeight::Luma, false)[i] == mul_div255(src[i] as int, w) as u8
            &&& mask_apply_buf(src, mask, MaskWeight::Luma, true)[i] == mul_div255(src[i] as int, 255 - w) as u8
        }),
        mask_weight(seq![v, 0u8, 0u8, 255u8], MaskWeight::Luma, false) == (54 * v + 128) / 256,
        mask_weight(seq![0u8, v, 0u8, 255u8], MaskWeight::Luma, false) == (183 * v + 128) / 256,
        mask_weight(seq![0u8, 0u8, v, 255u8], MaskWeight::Luma, false) == (19 * v + 128) / 256,
        mask_weight(seq![v, 0u8, 0u8, 255u8], MaskWeight::Luma, false) >= mask_weight(seq![0u8, 0u8, v, 255u8], MaskWeight::Luma, false),
        mask_weight(seq![v, v, v, 255u8], MaskWeight::Luma, false) == v,
{
    lemma_whole_px(src.len() as int, i);
    let p = px_base(i);
    let m = mask.subrange(p, p + 4);
    assert(m[0] == mask[p] && m[1] == mask[p + 1] && m[2] == mask[p + 2]);
    assert((54 * v + 183 * v + 19 * v + 128) / 256 == v) by (nonlinear_arith);
    assert((54 * v + 128) / 256 >= (19 * v + 128) / 256) by (nonlinear_arith);
}

} // verus!
