//! Separable Q16 fixed-point box/gaussian blur on premultiplied RGBA8 images.
use vstd::prelude::*;
use crate::pixel::{q16_round, q16_to_u8};

verus! {

/// `v` clamped into `[lo, hi]`.
pub open spec fn clampi(v: int, lo: int, hi: int) -> int {
    if v < lo { lo } else if v > hi { hi } else { v }
}

/// Byte index of channel `c` of pixel `(x, y)` in a `w`-wide RGBA8 image.
pub open spec fn pidx(w: int, x: int, y: int, c: int) -> int {
    (y * w + x) * 4 + c
}

/// Sum of the first `n` kernel weights.
pub open spec fn kernel_sum(k: Seq<u32>, n: int) -> int
    decreases n,
{
    if n <= 0 || n > k.len() { 0 } else { kernel_sum(k, n - 1) + k[n - 1] }
}

/// Weighted sum of the first `n` horizontal taps around pixel `(x, y)`, channel `c`.
///
/// Tap `i` reads column `x + i - k.len() / 2`, clamped to the image.
pub open spec fn h_acc(src: Seq<u8>, w: int, k: Seq<u32>, x: int, y: int, c: int, n: int) -> int
    decreases n,
{
    if n <= 0 || n > k.len() {
        0
    } else {
        h_acc(src, w, k, x, y, c, n - 1) + k[n - 1] * src[pidx(w, clampi(x + (n - 1) - k.len() / 2, 0, w - 1), y, c)]
    }
}

/// Weighted sum of the first `n` vertical taps around pixel `(x, y)`, channel `c`.
///
/// Tap `i` reads row `y + i - k.len() / 2`, clamped to the image.
pub open spec fn v_acc(src: Seq<u8>, w: int, h: int, k: Seq<u32>, x: int, y: int, c: int, n: int) -> int
    decreases n,
{
    if n <= 0 || n > k.len() {
        0
    } else {
        v_acc(src, w, h, k, x, y, c, n - 1) + k[n - 1] * src[pidx(w, x, clampi(y + (n - 1) - k.len() / 2, 0, h - 1), c)]
    }
}

/// Horizontally blurred value of channel `c` of pixel `(x, y)`.
pub open spec fn h_blur_at(src: Seq<u8>, w: int, k: Seq<u32>, x: int, y: int, c: int) -> int {
    q16_round(h_acc(src, w, k, x, y, c, k.len() as int))
}

/// Vertically blurred value of channel `c` of pixel `(x, y)`.
pub open spec fn v_blur_at(src: Seq<u8>, w: int, h: int, k: Seq<u32>, x: int, y: int, c: int) -> int {
    q16_round(v_acc(src, w, h, k, x, y, c, k.len() as int))
}

/// What a blur pass needs of its image and kernel: the image fits in both buffers, indices fit in
/// `i32`, and no accumulator can overflow.
pub open spec fn blur_pass_ok(src_len: int, dst_len: int, w: int, h: int, k: Seq<u32>) -> bool {
    &&& w * h * 4 <= src_len
    &&& w * h * 4 <= dst_len
    &&& w * h <= i32::MAX
    &&& w + k.len() <= i32::MAX
    &&& h + k.len() <= i32::MAX
    &&& kernel_sum(k, k.len() as int) * 255 + 32768 <= u64::MAX
}

proof fn lemma_kernel_sum_mono(k: Seq<u32>, i: int, n: int)
    requires
        0 <= i <= n <= k.len(),
    ensures
        0 <= kernel_sum(k, i) <= kernel_sum(k, n),
    decreases n - i,
{
    if i < n {
        lemma_kernel_sum_mono(k, i, n - 1);
    } else {
        lemma_kernel_sum_nonneg(k, n);
    }
}

proof fn lemma_kernel_sum_nonneg(k: Seq<u32>, n: int)
    ensures
        0 <= kernel_sum(k, n),
    decreases n,
{
    if n > 0 && n <= k.len() {
        lemma_kernel_sum_nonneg(k, n - 1);
    }
}

proof fn lemma_pidx_bounds(w: int, h: int, x: int, y: int, c: int)
    requires
        0 <= x < w,
        0 <= y < h,
        0 <= c < 4,
    ensures
        0 <= y * w + x < w * h,
        0 <= pidx(w, x, y, c) < w * h * 4,
        pidx(w, x, y, c) == (y * w + x) * 4 + c,
{
    assert(0 <= y * w + x < w * h) by (nonlinear_arith)
        requires 0 <= x < w, 0 <= y < h;
}

proof fn lemma_pidx_before(w: int, xx: int, yy: int, c: int, x: int, y: int)
    requires
        0 <= c < 4,
        0 <= xx < w,
        0 <= yy,
        0 <= x,
        (yy < y) || (yy == y && xx < x),
    ensures
        pidx(w, xx, yy, c) < (y * w + x) * 4,
{
    if yy < y {
        assert((yy + 1) * w <= y * w) by (nonlinear_arith)
            requires yy + 1 <= y, 0 <= w;
        assert(yy * w + w == (yy + 1) * w) by (nonlinear_arith);
    }
}

proof fn lemma_row_step(w: int, y: int)
    ensures
        y * w + w == (y + 1) * w,
{
    assert(y * w + w == (y + 1) * w) by (nonlinear_arith);
}

proof fn lemma_u32_as_i32(v: u32)
    requires
        v <= i32::MAX,
    ensures
        (v as i32) as int == v as int,
{
    assert(v <= 0x7fff_ffffu32 ==> (v as i32) as int == v as int) by (bit_vector);
}

/// Horizontal taps around pixel `(x, y)`: the four channel accumulators.
fn h_taps(src: &[u8], w: i32, h: i32, k: &[u32], x: i32, y: i32) -> (r: (u64, u64, u64, u64))
    requires
        blur_pass_ok(src@.len() as int, src@.len() as int, w as int, h as int, k@),
        0 <= x < w,
        0 <= y < h,
    ensures
        r.0 == h_acc(src@, w as int, k@, x as int, y as int, 0, k@.len() as int),
        r.1 == h_acc(src@, w as int, k@, x as int, y as int, 1, k@.len() as int),
        r.2 == h_acc(src@, w as int, k@, x as int, y as int, 2, k@.len() as int),
        r.3 == h_acc(src@, w as int, k@, x as int, y as int, 3, k@.len() as int),
        r.0 + 32768 <= u64::MAX,
        r.1 + 32768 <= u64::MAX,
        r.2 + 32768 <= u64::MAX,
        r.3 + 32768 <= u64::MAX,
{
    let ghost wi = w as int;
    let n = src.len();
    let klen = k.len();
    let radius = (klen / 2) as i32;
    proof {
        lemma_pidx_bounds(wi, h as int, x as int, y as int, 0);
    }
    let row: i32 = y * w;
    let mut a0: u64 = 0;
    let mut a1: u64 = 0;
    let mut a2: u64 = 0;
    let mut a3: u64 = 0;
    let mut ki: usize = 0;
    while ki < klen
        invariant
            0 <= y < h,
            0 <= x < w,
            n == src@.len(),
            row == y * wi,
            wi == w,
            klen == k@.len(),
            radius == klen / 2,
            ki <= klen,
            blur_pass_ok(src@.len() as int, src@.len() as int, wi, h as int, k@),
            a0 == h_acc(src@, wi, k@, x as int, y as int, 0, ki as int),
            a1 == h_acc(src@, wi, k@, x as int, y as int, 1, ki as int),
            a2 == h_acc(src@, wi, k@, x as int, y as int, 2, ki as int),
            a3 == h_acc(src@, wi, k@, x as int, y as int, 3, ki as int),
            a0 <= kernel_sum(k@, ki as int) * 255,
            a1 <= kernel_sum(k@, ki as int) * 255,
            a2 <= kernel_sum(k@, ki as int) * 255,
            a3 <= kernel_sum(k@, ki as int) * 255,
        decreases klen - ki,
    {
        let kw = k[ki] as u64;
        let dx = ki as i32 - radius;
        let mut sx = x + dx;
        if sx < 0 {
            sx = 0;
        }
        if sx > w - 1 {
            sx = w - 1;
        }
        assert(sx as int == clampi(x + ki - klen / 2, 0, wi - 1));
        proof {
            lemma_pidx_bounds(wi, h as int, sx as int, y as int, 0);
            lemma_pidx_bounds(wi, h as int, sx as int, y as int, 3);
            lemma_kernel_sum_mono(k@, ki as int + 1, k@.len() as int);
        }
        let idx = ((row + sx) as usize) * 4;
        proof {
            assert(kw * (src@[idx as int] as int) <= kw * 255) by (nonlinear_arith)
                requires src@[idx as int] <= 255, 0 <= kw;
            assert(kw * (src@[idx + 1] as int) <= kw * 255) by (nonlinear_arith)
                requires src@[idx + 1] <= 255, 0 <= kw;
            assert(kw * (src@[idx + 2] as int) <= kw * 255) by (nonlinear_arith)
                requires src@[idx + 2] <= 255, 0 <= kw;
            assert(kw * (src@[idx + 3] as int) <= kw * 255) by (nonlinear_arith)
                requires src@[idx + 3] <= 255, 0 <= kw;
            assert(kernel_sum(k@, ki + 1) == kernel_sum(k@, ki as int) + kw);
        }
        a0 = a0 + kw * (src[idx] as u64);
        a1 = a1 + kw * (src[idx + 1] as u64);
        a2 = a2 + kw * (src[idx + 2] as u64);
        a3 = a3 + kw * (src[idx + 3] as u64);
        ki = ki + 1;
    }
    (a0, a1, a2, a3)
}

/// Fill row `y` of `dst` with the horizontal pass.
fn h_row(src: &[u8], dst: &mut [u8], w: i32, h: i32, k: &[u32], y: i32)
    requires
        blur_pass_ok(src@.len() as int, old(dst)@.len() as int, w as int, h as int, k@),
        0 <= y < h,
        0 <= w,
        forall|xx: int, yy: int, c: int|
            #![trigger pidx(w as int, xx, yy, c)]
            0 <= xx < w && 0 <= yy < y && 0 <= c < 4 ==> old(dst)@[pidx(w as int, xx, yy, c)] == h_blur_at(src@, w as int, k@, xx, yy, c),
    ensures
        final(dst)@.len() == old(dst)@.len(),
        forall|xx: int, yy: int, c: int|
            #![trigger pidx(w as int, xx, yy, c)]
            0 <= xx < w && 0 <= yy <= y && 0 <= c < 4 ==> final(dst)@[pidx(w as int, xx, yy, c)] == h_blur_at(src@, w as int, k@, xx, yy, c),
        forall|i: int| ((y + 1) * w) * 4 <= i < old(dst)@.len() ==> final(dst)@[i] == old(dst)@[i],
{
    let ghost wi = w as int;
    let ghost orig = dst@;
    let n = dst.len();
    let mut x: i32 = 0;
    while x < w
        invariant
            0 <= y < h,
            0 <= x <= w,
            wi == w,
            n == dst@.len(),
            blur_pass_ok(src@.len() as int, orig.len() as int, wi, h as int, k@),
            dst@.len() == orig.len(),
            forall|xx: int, yy: int, c: int|
                #![trigger pidx(wi, xx, yy, c)]
                0 <= xx < wi && 0 <= c < 4 && (0 <= yy < y || (yy == y && xx < x))
                    ==> dst@[pidx(wi, xx, yy, c)] == h_blur_at(src@, wi, k@, xx, yy, c),
            forall|i: int| (y * wi + x) * 4 <= i < orig.len() ==> dst@[i] == orig[i],
        decreases w - x,
    {
        proof {
            lemma_pidx_bounds(wi, h as int, x as int, y as int, 0);
            lemma_pidx_bounds(wi, h as int, x as int, y as int, 3);
        }
        let (a0, a1, a2, a3) = h_taps(src, w, h, k, x, y);
        let out = ((y * w + x) as usize) * 4;
        assert(out as int == pidx(wi, x as int, y as int, 0));
        dst[out] = q16_to_u8(a0);
        dst[out + 1] = q16_to_u8(a1);
        dst[out + 2] = q16_to_u8(a2);
        dst[out + 3] = q16_to_u8(a3);
        proof {
            assert forall|xx: int, yy: int, c: int|
                #![trigger pidx(wi, xx, yy, c)]
                0 <= xx < wi && 0 <= c < 4 && (0 <= yy < y || (yy == y && xx < x + 1))
                    implies dst@[pidx(wi, xx, yy, c)] == h_blur_at(src@, wi, k@, xx, yy, c) by {
                if yy == y && xx == x {
                } else {
                    lemma_pidx_before(wi, xx, yy, c, x as int, y as int);
                }
            }
        }
        x = x + 1;
    }
    proof {
        lemma_row_step(wi, y as int);
    }
}

/// One horizontal pass: `dst[x, y] = round(sum_i k[i] * src[clamp(x + i - r), y] / 2^16)`.
///
/// Bytes of `dst` past the `width x height` image are kept.
pub fn horizontal_blur_q16(src: &[u8], dst: &mut [u8], width: u32, height: u32, k: &[u32])
    requires
        blur_pass_ok(src@.len() as int, old(dst)@.len() as int, width as int, height as int, k@),
    ensures
        final(dst)@.len() == old(dst)@.len(),
        forall|x: int, y: int, c: int|
            #![trigger pidx(width as int, x, y, c)]
            0 <= x < width && 0 <= y < height && 0 <= c < 4 ==> final(dst)@[pidx(width as int, x, y, c)]
                == h_blur_at(src@, width as int, k@, x, y, c),
        forall|i: int| width * height * 4 <= i < old(dst)@.len() ==> final(dst)@[i] == old(dst)@[i],
{
    let ghost wi = width as int;
    let ghost hi = height as int;
    let ghost orig = dst@;
    proof {
        lemma_u32_as_i32(width);
        lemma_u32_as_i32(height);
    }
    let w = width as i32;
    let h = height as i32;
    let mut y: i32 = 0;
    while y < h
        invariant
            0 <= y <= h,
            w == wi,
            h == hi,
            wi == width as int,
            hi == height as int,
            blur_pass_ok(src@.len() as int, orig.len() as int, wi, hi, k@),
            dst@.len() == orig.len(),
            forall|xx: int, yy: int, c: int|
                #![trigger pidx(wi, xx, yy, c)]
                0 <= xx < wi && 0 <= yy < y && 0 <= c < 4 ==> dst@[pidx(wi, xx, yy, c)] == h_blur_at(src@, wi, k@, xx, yy, c),
            forall|i: int| (y * wi) * 4 <= i < orig.len() ==> dst@[i] == orig[i],
        decreases h - y,
    {
        h_row(src, dst, w, h, k, y);
        proof {
            lemma_row_step(wi, y as int);
        }
        y = y + 1;
    }
    proof {
        assert(y * wi == wi * hi) by (nonlinear_arith) requires y == hi;
    }
}

/// Vertical taps around pixel `(x, y)`: the four channel accumulators.
fn v_taps(src: &[u8], w: i32, h: i32, k: &[u32], x: i32, y: i32) -> (r: (u64, u64, u64, u64))
    requires
        blur_pass_ok(src@.len() as int, src@.len() as int, w as int, h as int, k@),
        0 <= x < w,
        0 <= y < h,
    ensures
        r.0 == v_acc(src@, w as int, h as int, k@, x as int, y as int, 0, k@.len() as int),
        r.1 == v_acc(src@, w as int, h as int, k@, x as int, y as int, 1, k@.len() as int),
        r.2 == v_acc(src@, w as int, h as int, k@, x as int, y as int, 2, k@.len() as int),
        r.3 == v_acc(src@, w as int, h as int, k@, x as int, y as int, 3, k@.len() as int),
        r.0 + 32768 <= u64::MAX,
        r.1 + 32768 <= u64::MAX,
        r.2 + 32768 <= u64::MAX,
        r.3 + 32768 <= u64::MAX,
{
    let ghost wi = w as int;
    let n = src.len();
    let klen = k.len();
    let radius = (klen / 2) as i32;
    proof {
        lemma_pidx_bounds(wi, h as int, x as int, y as int, 0);
    }
    let mut a0: u64 = 0;
    let mut a1: u64 = 0;
    let mut a2: u64 = 0;
    let mut a3: u64 = 0;
    let mut ki: usize = 0;
    while ki < klen
        invariant
            0 <= y < h,
            0 <= x < w,
            n == src@.len(),
            wi == w,
            klen == k@.len(),
            radius == klen / 2,
            ki <= klen,
            blur_pass_ok(src@.len() as int, src@.len() as int, wi, h as int, k@),
            a0 == v_acc(src@, wi, h as int, k@, x as int, y as int, 0, ki as int),
            a1 == v_acc(src@, wi, h as int, k@, x as int, y as int, 1, ki as int),
            a2 == v_acc(src@, wi, h as int, k@, x as int, y as int, 2, ki as int),
            a3 == v_acc(src@, wi, h as int, k@, x as int, y as int, 3, ki as int),
            a0 <= kernel_sum(k@, ki as int) * 255,
            a1 <= kernel_sum(k@, ki as int) * 255,
            a2 <= kernel_sum(k@, ki as int) * 255,
            a3 <= kernel_sum(k@, ki as int) * 255,
        decreases klen - ki,
    {
        let kw = k[ki] as u64;
        let dy = ki as i32 - radius;
        let mut sy = y + dy;
        if sy < 0 {
            sy = 0;
        }
        if sy > h - 1 {
            sy = h - 1;
        }
        assert(sy as int == clampi(y + ki - klen / 2, 0, h - 1));
        proof {
            lemma_pidx_bounds(wi, h as int, x as int, sy as int, 0);
            lemma_pidx_bounds(wi, h as int, x as int, sy as int, 3);
            lemma_kernel_sum_mono(k@, ki as int + 1, k@.len() as int);
        }
        let idx = ((sy * w + x) as usize) * 4;
        proof {
            assert(kw * (src@[idx as int] as int) <= kw * 255) by (nonlinear_arith)
                requires src@[idx as int] <= 255, 0 <= kw;
            assert(kw * (src@[idx + 1] as int) <= kw * 255) by (nonlinear_arith)
                requires src@[idx + 1] <= 255, 0 <= kw;
            assert(kw * (src@[idx + 2] as int) <= kw * 255) by (nonlinear_arith)
                requires src@[idx + 2] <= 255, 0 <= kw;
            assert(kw * (src@[idx + 3] as int) <= kw * 255) by (nonlinear_arith)
                requires src@[idx + 3] <= 255, 0 <= kw;
            assert(kernel_sum(k@, ki + 1) == kernel_sum(k@, ki as int) + kw);
        }
        a0 = a0 + kw * (src[idx] as u64);
        a1 = a1 + kw * (src[idx + 1] as u64);
        a2 = a2 + kw * (src[idx + 2] as u64);
        a3 = a3 + kw * (src[idx + 3] as u64);
        ki = ki + 1;
    }
    (a0, a1, a2, a3)
}

/// Fill row `y` of `dst` with the vertical pass.
fn v_row(src: &[u8], dst: &mut [u8], w: i32, h: i32, k: &[u32], y: i32)
    requires
        blur_pass_ok(src@.len() as int, old(dst)@.len() as int, w as int, h as int, k@),
        0 <= y < h,
        0 <= w,
        forall|xx: int, yy: int, c: int|
            #![trigger pidx(w as int, xx, yy, c)]
            0 <= xx < w && 0 <= yy < y && 0 <= c < 4 ==> old(dst)@[pidx(w as int, xx, yy, c)] == v_blur_at(src@, w as int, h as int, k@, xx, yy, c),
    ensures
        final(dst)@.len() == old(dst)@.len(),
        forall|xx: int, yy: int, c: int|
            #![trigger pidx(w as int, xx, yy, c)]
            0 <= xx < w && 0 <= yy <= y && 0 <= c < 4 ==> final(dst)@[pidx(w as int, xx, yy, c)] == v_blur_at(src@, w as int, h as int, k@, xx, yy, c),
        forall|i: int| ((y + 1) * w) * 4 <= i < old(dst)@.len() ==> final(dst)@[i] == old(dst)@[i],
{
    let ghost wi = w as int;
    let ghost orig = dst@;
    let n = dst.len();
    let mut x: i32 = 0;
    while x < w
        invariant
            0 <= y < h,
            0 <= x <= w,
            wi == w,
            n == dst@.len(),
            blur_pass_ok(src@.len() as int, orig.len() as int, wi, h as int, k@),
            dst@.len() == orig.len(),
            forall|xx: int, yy: int, c: int|
                #![trigger pidx(wi, xx, yy, c)]
                0 <= xx < wi && 0 <= c < 4 && (0 <= yy < y || (yy == y && xx < x))
                    ==> dst@[pidx(wi, xx, yy, c)] == v_blur_at(src@, wi, h as int, k@, xx, yy, c),
            forall|i: int| (y * wi + x) * 4 <= i < orig.len() ==> dst@[i] == orig[i],
        decreases w - x,
    {
        proof {
            lemma_pidx_bounds(wi, h as int, x as int, y as int, 0);
            lemma_pidx_bounds(wi, h as int, x as int, y as int, 3);
        }
        let (a0, a1, a2, a3) = v_taps(src, w, h, k, x, y);
        let out = ((y * w + x) as usize) * 4;
        assert(out as int == pidx(wi, x as int, y as int, 0));
        dst[out] = q16_to_u8(a0);
        dst[out + 1] = q16_to_u8(a1);
        dst[out + 2] = q16_to_u8(a2);
        dst[out + 3] = q16_to_u8(a3);
        proof {
            assert forall|xx: int, yy: int, c: int|
                #![trigger pidx(wi, xx, yy, c)]
                0 <= xx < wi && 0 <= c < 4 && (0 <= yy < y || (yy == y && xx < x + 1))
                    implies dst@[pidx(wi, xx, yy, c)] == v_blur_at(src@, wi, h as int, k@, xx, yy, c) by {
                if yy == y && xx == x {
                } else {
                    lemma_pidx_before(wi, xx, yy, c, x as int, y as int);
                }
            }
        }
        x = x + 1;
    }
    proof {
        lemma_row_step(wi, y as int);
    }
}

/// One vertical pass: `dst[x, y] = round(sum_i k[i] * src[x, clamp(y + i - r)] / 2^16)`.
///
/// Bytes of `dst` past the `width x height` image are kept.
pub fn vertical_blur_q16(src: &[u8], dst: &mut [u8], width: u32, height: u32, k: &[u32])
    requires
        blur_pass_ok(src@.len() as int, old(dst)@.len() as int, width as int, height as int, k@),
    ensures
        final(dst)@.len() == old(dst)@.len(),
        forall|x: int, y: int, c: int|
            #![trigger pidx(width as int, x, y, c)]
            0 <= x < width && 0 <= y < height && 0 <= c < 4 ==> final(dst)@[pidx(width as int, x, y, c)]
                == v_blur_at(src@, width as int, height as int, k@, x, y, c),
        forall|i: int| width * height * 4 <= i < old(dst)@.len() ==> final(dst)@[i] == old(dst)@[i],
{
    let ghost wi = width as int;
    let ghost hi = height as int;
    let ghost orig = dst@;
    proof {
        lemma_u32_as_i32(width);
        lemma_u32_as_i32(height);
    }
    let w = width as i32;
    let h = height as i32;
    let mut y: i32 = 0;
    while y < h
        invariant
            0 <= y <= h,
            w == wi,
            h == hi,
            wi == width as int,
            hi == height as int,
            blur_pass_ok(src@.len() as int, orig.len() as int, wi, hi, k@),
            dst@.len() == orig.len(),
            forall|xx: int, yy: int, c: int|
                #![trigger pidx(wi, xx, yy, c)]
                0 <= xx < wi && 0 <= yy < y && 0 <= c < 4 ==> dst@[pidx(wi, xx, yy, c)] == v_blur_at(src@, wi, h as int, k@, xx, yy, c),
            forall|i: int| (y * wi) * 4 <= i < orig.len() ==> dst@[i] == orig[i],
        decreases h - y,
    {
        v_row(src, dst, w, h, k, y);
        proof {
            lemma_row_step(wi, y as int);
        }
        y = y + 1;
    }
    proof {
        assert(y * wi == wi * hi) by (nonlinear_arith) requires y == hi;
    }
}

/// Copy `src` into `dst` (equal lengths).
fn copy_bytes(dst: &mut [u8], src: &[u8])
    requires
        old(dst)@.len() == src@.len(),
    ensures
        final(dst)@ == src@,
{
    let n = src.len();
    let mut i: usize = 0;
    while i < n
        invariant
            n == src@.len(),
            dst@.len() == n,
            i <= n,
            forall|j: int| 0 <= j < i ==> dst@[j] == src@[j],
        decreases n - i,
    {
        dst[i] = src[i];
        i = i + 1;
    }
    assert(dst@ =~= src@);
}

/// What the two-pass blur needs of its buffers and kernel.
pub open spec fn blur_ok(src_len: int, dst_len: int, tmp_len: int, w: int, h: int, k: Seq<u32>) -> bool {
    if k.len() == 1 {
        dst_len == src_len
    } else {
        blur_pass_ok(src_len, tmp_len, w, h, k) && blur_pass_ok(tmp_len, dst_len, w, h, k)
    }
}

/// Separable blur of a premultiplied RGBA8 image: horizontal pass into `tmp`, vertical pass from
/// `tmp` into `dst`. A single-tap kernel copies `src` into `dst` unchanged.
pub fn blur_rgba8_premul_q16(src: &[u8], dst: &mut [u8], tmp: &mut [u8], width: u32, height: u32, kernel_q16: &[u32])
    requires
        blur_ok(src@.len() as int, old(dst)@.len() as int, old(tmp)@.len() as int, width as int, height as int, kernel_q16@),
    ensures
        kernel_q16@.len() == 1 ==> final(dst)@ == src@ && final(tmp)@ == old(tmp)@,
        kernel_q16@.len() != 1 ==> {
            &&& final(tmp)@.len() == old(tmp)@.len()
            &&& final(dst)@.len() == old(dst)@.len()
            &&& forall|x: int, y: int, c: int|
                #![trigger pidx(width as int, x, y, c)]
                0 <= x < width && 0 <= y < height && 0 <= c < 4 ==> {
                    &&& final(tmp)@[pidx(width as int, x, y, c)] == h_blur_at(src@, width as int, kernel_q16@, x, y, c)
                    &&& final(dst)@[pidx(width as int, x, y, c)] == v_blur_at(final(tmp)@, width as int, height as int, kernel_q16@, x, y, c)
                }
            &&& forall|i: int| width * height * 4 <= i < old(tmp)@.len() ==> final(tmp)@[i] == old(tmp)@[i]
            &&& forall|i: int| width * height * 4 <= i < old(dst)@.len() ==> final(dst)@[i] == old(dst)@[i]
        },
{
    if kernel_q16.len() == 1 {
        copy_bytes(dst, src);
        return;
    }
    horizontal_blur_q16(src, tmp, width, height, kernel_q16);
    vertical_blur_q16(tmp, dst, width, height, kernel_q16);
}

/// An image whose in-bounds pixels all equal `px`.
pub open spec fn is_constant_image(src: Seq<u8>, w: int, h: int, px: Seq<u8>) -> bool {
    forall|x: int, y: int, c: int|
        #![trigger pidx(w, x, y, c)]
        0 <= x < w && 0 <= y < h && 0 <= c < 4 ==> src[pidx(w, x, y, c)] == px[c]
}

proof fn lemma_h_acc_constant(src: Seq<u8>, w: int, h: int, k: Seq<u32>, px: Seq<u8>, x: int, y: int, c: int, n: int)
    requires
        is_constant_image(src, w, h, px),
        0 <= x < w,
        0 <= y < h,
        0 <= c < 4,
        0 <= n <= k.len(),
    ensures
        h_acc(src, w, k, x, y, c, n) == kernel_sum(k, n) * px[c],
    decreases n,
{
    if n > 0 {
        lemma_h_acc_constant(src, w, h, k, px, x, y, c, n - 1);
        let sx = clampi(x + (n - 1) - k.len() / 2, 0, w - 1);
        assert(src[pidx(w, sx, y, c)] == px[c]);
        assert(kernel_sum(k, n - 1) * px[c] + k[n - 1] * px[c] == kernel_sum(k, n) * px[c]) by (nonlinear_arith)
            requires kernel_sum(k, n) == kernel_sum(k, n - 1) + k[n - 1];
    }
}

proof fn lemma_v_acc_constant(src: Seq<u8>, w: int, h: int, k: Seq<u32>, px: Seq<u8>, x: int, y: int, c: int, n: int)
    requires
        is_constant_image(src, w, h, px),
        0 <= x < w,
        0 <= y < h,
        0 <= c < 4,
        0 <= n <= k.len(),
    ensures
        v_acc(src, w, h, k, x, y, c, n) == kernel_sum(k, n) * px[c],
    decreases n,
{
    if n > 0 {
        lemma_v_acc_constant(src, w, h, k, px, x, y, c, n - 1);
        let sy = clampi(y + (n - 1) - k.len() / 2, 0, h - 1);
        assert(src[pidx(w, x, sy, c)] == px[c]);
        assert(kernel_sum(k, n - 1) * px[c] + k[n - 1] * px[c] == kernel_sum(k, n) * px[c]) by (nonlinear_arith)
            requires kernel_sum(k, n) == kernel_sum(k, n - 1) + k[n - 1];
    }
}

/// A blur whose kernel weights sum to one (`65536` in Q16) leaves a constant image unchanged:
/// both the horizontal and the vertical pass give back the constant pixel everywhere in the image.
pub proof fn law_blur_keeps_constant_image(src: Seq<u8>, w: int, h: int, k: Seq<u32>, px: Seq<u8>)
    requires
        px.len() == 4,
        kernel_sum(k, k.len() as int) == 65536,
        is_constant_image(src, w, h, px),
    ensures
        forall|x: int, y: int, c: int|
            0 <= x < w && 0 <= y < h && 0 <= c < 4 ==> #[trigger] h_blur_at(src, w, k, x, y, c) == px[c],
        forall|x: int, y: int, c: int|
            0 <= x < w && 0 <= y < h && 0 <= c < 4 ==> #[trigger] v_blur_at(src, w, h, k, x, y, c) == px[c],
{
    assert forall|x: int, y: int, c: int|
        0 <= x < w && 0 <= y < h && 0 <= c < 4 implies #[trigger] h_blur_at(src, w, k, x, y, c) == px[c] by {
        lemma_h_acc_constant(src, w, h, k, px, x, y, c, k.len() as int);
        assert((65536 * (px[c] as int) + 32768) / 65536 == px[c]) by (nonlinear_arith)
            requires 0 <= px[c] <= 255;
    }
    assert forall|x: int, y: int, c: int|
        0 <= x < w && 0 <= y < h && 0 <= c < 4 implies #[trigger] v_blur_at(src, w, h, k, x, y, c) == px[c] by {
        lemma_v_acc_constant(src, w, h, k, px, x, y, c, k.len() as int);
        assert((65536 * (px[c] as int) + 32768) / 65536 == px[c]) by (nonlinear_arith)
            requires 0 <= px[c] <= 255;
    }
}

} // verus!
