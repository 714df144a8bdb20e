//! Stable 128-bit fingerprint of a render plan.
//!
//! The plan is serialized into a canonical little-endian byte stream and hashed with seeded
//! XXH3-128. Equal plans always give equal fingerprints; the stream itself is injective enough
//! that changing any field changes the bytes hashed.
use vstd::prelude::*;
use crate::plan::{
    BlendMode, CompositeOp, IrisShape, MaskGenSource, MaskMode, Op, OpKind, PassFx, PixelFormat, RenderPlan,
    ShapeIR, SlideDir, SurfaceDesc, SurfaceId, UnitKey, WipeDir,
};

verus! {

/// Seed of the plan hash.
pub const XXH3_SEED: u64 = 0x8b5a_d4a0_c7d8_e9f1;

/// 128-bit frame fingerprint, split into halves.
#[derive(Debug, Clone, Copy, PartialEq, Eq)]
pub struct FrameFingerprint {
    /// High 64 bits.
    pub hi: u64,
    /// Low 64 bits.
    pub lo: u64,
}

/// XXH3-128 of `data` under `seed`, as computed by the `xxhash-rust` crate.
pub uninterp spec fn xxh3_128_seeded(data: Seq<u8>, seed: u64) -> u128;

/// Seeded XXH3-128 of a byte slice.
///
/// Calls `xxhash_rust::xxh3::xxh3_128_with_seed`; the contract claims only that the result is
/// the crate's hash of exactly these bytes under this seed.
#[verifier::external_body]
fn xxh3_128(data: &[u8], seed: u64) -> (r: u128)
    ensures
        r == xxh3_128_seeded(data@, seed),
{
    xxhash_rust::xxh3::xxh3_128_with_seed(data, seed)
}

/// The halves of a 128-bit digest.
pub open spec fn split_digest(v: u128) -> FrameFingerprint {
    FrameFingerprint { hi: (v >> 64u128) as u64, lo: (v % 0x1_0000_0000_0000_0000u128) as u64 }
}

/// Split a 128-bit digest into its high and low halves.
pub fn fingerprint_from_digest(v: u128) -> (r: FrameFingerprint)
    ensures
        r == split_digest(v),
        r.hi as int * 0x1_0000_0000_0000_0000int + r.lo as int == v as int,
{
    let hi = (v >> 64) as u64;
    let lo = v as u64;
    assert(lo == (v % 0x1_0000_0000_0000_0000u128) as u64) by (bit_vector)
        requires lo == v as u64;
    assert((v >> 64u128) as u64 as int * 0x1_0000_0000_0000_0000int + (v % 0x1_0000_0000_0000_0000u128) as u64 as int == v as int) by (bit_vector);
    FrameFingerprint { hi, lo }
}

// ---------------------------------------------------------------------------------------------
// Canonical byte encoding
// ---------------------------------------------------------------------------------------------

/// Little-endian bytes of a `u32`.
pub open spec fn le32(v: u32) -> Seq<u8> {
    seq![(v & 0xff) as u8, ((v >> 8u32) & 0xff) as u8, ((v >> 16u32) & 0xff) as u8, ((v >> 24u32) & 0xff) as u8]
}

/// Little-endian bytes of a `u64`.
pub open spec fn le64(v: u64) -> Seq<u8> {
    seq![
        (v & 0xff) as u8, ((v >> 8u64) & 0xff) as u8, ((v >> 16u64) & 0xff) as u8, ((v >> 24u64) & 0xff) as u8,
        ((v >> 32u64) & 0xff) as u8, ((v >> 40u64) & 0xff) as u8, ((v >> 48u64) & 0xff) as u8, ((v >> 56u64) & 0xff) as u8,
    ]
}

/// One byte for a boolean.
pub open spec fn enc_bool(b: bool) -> Seq<u8> {
    seq![if b { 1u8 } else { 0u8 }]
}

/// Encoding of a surface descriptor.
pub open spec fn enc_surface_desc(s: SurfaceDesc) -> Seq<u8> {
    le32(s.width) + le32(s.height) + match s.format {
        PixelFormat::Rgba8Premul => seq![0u8],
    }
}

/// Encoding of a render-unit key.
pub open spec fn enc_unit_key(u: UnitKey) -> Seq<u8> {
    match u {
        UnitKey::Leaf(n) => seq![0u8] + le32(n.0),
        UnitKey::Group(n) => seq![1u8] + le32(n.0),
        UnitKey::MaskNode(n) => seq![2u8] + le32(n.0),
    }
}

/// Encoding of a mask mode.
pub open spec fn enc_mask_mode(m: MaskMode) -> Seq<u8> {
    match m {
        MaskMode::Alpha => seq![0u8],
        MaskMode::Luma => seq![1u8],
        MaskMode::Stencil { threshold_bits } => seq![2u8] + le32(threshold_bits),
    }
}

/// Code of a blend mode.
pub open spec fn blend_code(b: BlendMode) -> u8 {
    match b {
        BlendMode::Normal => 0,
        BlendMode::Multiply => 1,
        BlendMode::Screen => 2,
        BlendMode::Overlay => 3,
        BlendMode::Darken => 4,
        BlendMode::Lighten => 5,
        BlendMode::ColorDodge => 6,
        BlendMode::ColorBurn => 7,
        BlendMode::SoftLight => 8,
        BlendMode::HardLight => 9,
        BlendMode::Difference => 10,
        BlendMode::Exclusion => 11,
    }
}

/// Code of a wipe direction.
pub open spec fn wipe_code(d: WipeDir) -> u8 {
    match d {
        WipeDir::LeftToRight => 0,
        WipeDir::RightToLeft => 1,
        WipeDir::TopToBottom => 2,
        WipeDir::BottomToTop => 3,
    }
}

/// Code of a slide direction.
pub open spec fn slide_code(d: SlideDir) -> u8 {
    match d {
        SlideDir::Left => 0,
        SlideDir::Right => 1,
        SlideDir::Up => 2,
        SlideDir::Down => 3,
    }
}

/// Code of an iris shape.
pub open spec fn iris_code(s: IrisShape) -> u8 {
    match s {
        IrisShape::Circle => 0,
        IrisShape::Rect => 1,
        IrisShape::Diamond => 2,
    }
}

/// Encoding of a procedural shape.
pub open spec fn enc_shape(s: ShapeIR) -> Seq<u8> {
    match s {
        ShapeIR::Rect { width_bits, height_bits } => seq![0u8] + le64(width_bits) + le64(height_bits),
        ShapeIR::RoundedRect { width_bits, height_bits, radius_bits } =>
            seq![1u8] + le64(width_bits) + le64(height_bits) + le64(radius_bits),
        ShapeIR::Ellipse { rx_bits, ry_bits } => seq![2u8] + le64(rx_bits) + le64(ry_bits),
        ShapeIR::Path { svg_path_d } => seq![3u8] + le32(svg_path_d.0),
    }
}

/// Encoding of the first `n` entries of a colour matrix.
pub open spec fn enc_matrix(m: Seq<u32>, n: int) -> Seq<u8>
    decreases n,
{
    if n <= 0 || n > m.len() { Seq::empty() } else { enc_matrix(m, n - 1) + le32(m[n - 1]) }
}

/// Encoding of an effect pass.
pub open spec fn enc_pass_fx(fx: PassFx) -> Seq<u8> {
    match fx {
        PassFx::Blur { radius_px, sigma_bits } => seq![0u8] + le32(radius_px) + le32(sigma_bits),
        PassFx::ColorMatrix { matrix_bits } => seq![1u8] + enc_matrix(matrix_bits@, 20),
        PassFx::MaskApply { mode, inverted } => seq![2u8] + enc_mask_mode(mode) + enc_bool(inverted),
        PassFx::DropShadow { offset_x_bits, offset_y_bits, blur_radius_px, sigma_bits, color } =>
            seq![3u8] + le64(offset_x_bits) + le64(offset_y_bits) + le32(blur_radius_px) + le32(sigma_bits)
                + seq![color.r, color.g, color.b, color.a],
    }
}

/// Encoding of a mask-generation source.
pub open spec fn enc_mask_gen_source(s: MaskGenSource) -> Seq<u8> {
    match s {
        MaskGenSource::Asset(a) => seq![0u8] + le32(a.0),
        MaskGenSource::Shape(sh) => seq![1u8] + enc_shape(sh),
    }
}

/// Encoding of one composite step.
pub open spec fn enc_composite_op(c: CompositeOp) -> Seq<u8> {
    match c {
        CompositeOp::Over { src, opacity_bits, blend } => seq![0u8] + le32(src.0) + le32(opacity_bits) + seq![blend_code(blend)],
        CompositeOp::Crossfade { a, b, t_bits } => seq![1u8] + le32(a.0) + le32(b.0) + le32(t_bits),
        CompositeOp::Wipe { a, b, t_bits, dir, soft_edge_bits } =>
            seq![2u8] + le32(a.0) + le32(b.0) + le32(t_bits) + seq![wipe_code(dir)] + le32(soft_edge_bits),
        CompositeOp::Slide { a, b, t_bits, dir, push } =>
            seq![3u8] + le32(a.0) + le32(b.0) + le32(t_bits) + seq![slide_code(dir)] + enc_bool(push),
        CompositeOp::Zoom { a, b, t_bits, origin_x_bits, origin_y_bits, from_scale_bits } =>
            seq![4u8] + le32(a.0) + le32(b.0) + le32(t_bits) + le64(origin_x_bits) + le64(origin_y_bits) + le32(from_scale_bits),
        CompositeOp::Iris { a, b, t_bits, origin_x_bits, origin_y_bits, shape, soft_edge_bits } =>
            seq![5u8] + le32(a.0) + le32(b.0) + le32(t_bits) + le64(origin_x_bits) + le64(origin_y_bits)
                + seq![iris_code(shape)] + le32(soft_edge_bits),
    }
}

/// Encoding of a list of composite steps (without its length).
pub open spec fn enc_composite_ops(cs: Seq<CompositeOp>) -> Seq<u8>
    decreases cs.len(),
{
    if cs.len() == 0 { Seq::empty() } else { enc_composite_ops(cs.drop_last()) + enc_composite_op(cs.last()) }
}

/// Encoding of a list of surface ids (without its length).
pub open spec fn enc_surface_ids(ss: Seq<SurfaceId>) -> Seq<u8>
    decreases ss.len(),
{
    if ss.len() == 0 { Seq::empty() } else { enc_surface_ids(ss.drop_last()) + le32(ss.last().0) }
}

/// Encoding of an op kind.
pub open spec fn enc_op_kind(kind: OpKind) -> Seq<u8> {
    match kind {
        OpKind::Draw { unit, leaves_start, leaves_end, clear_to_transparent, transform_post_bits, opacity_mul_bits } =>
            seq![0u8] + enc_unit_key(unit) + le64(leaves_start as u64) + le64(leaves_end as u64) + enc_bool(clear_to_transparent)
                + le64(transform_post_bits[0]) + le64(transform_post_bits[1]) + le64(transform_post_bits[2])
                + le64(transform_post_bits[3]) + le64(transform_post_bits[4]) + le64(transform_post_bits[5])
                + le32(opacity_mul_bits),
        OpKind::Pass { fx } => seq![1u8] + enc_pass_fx(fx),
        OpKind::MaskGen { source } => seq![2u8] + enc_mask_gen_source(source),
        OpKind::Composite { clear_to_transparent, ops } =>
            seq![3u8] + enc_bool(clear_to_transparent) + le32(ops@.len() as u32) + enc_composite_ops(ops@),
    }
}

/// Encoding of an op's signature: output, inputs, then kind. Ids and deps are not part of it.
pub open spec fn enc_op(op: Op) -> Seq<u8> {
    le32(op.output.0) + le32(op.inputs@.len() as u32) + enc_surface_ids(op.inputs@) + enc_op_kind(op.kind)
}

/// Encoding of a list of surface descriptors (without its length).
pub open spec fn enc_surface_descs(ss: Seq<SurfaceDesc>) -> Seq<u8>
    decreases ss.len(),
{
    if ss.len() == 0 { Seq::empty() } else { enc_surface_descs(ss.drop_last()) + enc_surface_desc(ss.last()) }
}

/// Encoding of a list of ops (without its length).
pub open spec fn enc_ops(ops: Seq<Op>) -> Seq<u8>
    decreases ops.len(),
{
    if ops.len() == 0 { Seq::empty() } else { enc_ops(ops.drop_last()) + enc_op(ops.last()) }
}

/// Canonical byte stream of a plan.
pub open spec fn enc_plan(plan: RenderPlan) -> Seq<u8> {
    le32(plan.surfaces@.len() as u32) + enc_surface_descs(plan.surfaces@)
        + le32(plan.ops@.len() as u32) + enc_ops(plan.ops@)
        + le32(plan.roots@.len() as u32) + enc_surface_ids(plan.roots@)
}

/// The fingerprint of a plan.
pub open spec fn spec_fingerprint(plan: RenderPlan) -> FrameFingerprint {
    split_digest(xxh3_128_seeded(enc_plan(plan), XXH3_SEED))
}

// ---------------------------------------------------------------------------------------------
// Executable encoder
// ---------------------------------------------------------------------------------------------

/// Byte sink that accumulates the canonical stream before hashing.
pub struct StableHasher {
    buf: Vec<u8>,
}

impl View for StableHasher {
    type V = Seq<u8>;

    closed spec fn view(&self) -> Seq<u8> {
        self.buf@
    }
}

impl StableHasher {
    /// An empty stream.
    pub fn new() -> (h: Self)
        ensures
            h@ == Seq::<u8>::empty(),
    {
        StableHasher { buf: Vec::new() }
    }

    /// Append raw bytes.
    pub fn write_bytes(&mut self, b: &[u8])
        ensures
            final(self)@ == old(self)@ + b@,
    {
        let ghost start = self.buf@;
        let n = b.len();
        let mut i: usize = 0;
        while i < n
            invariant
                n == b@.len(),
                i <= n,
                self.buf@ == start + b@.take(i as int),
            decreases n - i,
        {
            self.buf.push(b[i]);
            assert(b@.take(i + 1) =~= b@.take(i as int).push(b@[i as int]));
            i = i + 1;
        }
        assert(b@.take(n as int) =~= b@);
    }

    /// Append one byte.
    pub fn write_u8(&mut self, v: u8)
        ensures
            final(self)@ == old(self)@.push(v),
    {
        self.buf.push(v);
    }

    /// Append a boolean as one byte (`0` or `1`).
    pub fn write_bool(&mut self, v: bool)
        ensures
            final(self)@ == old(self)@ + enc_bool(v),
    {
        self.buf.push(if v { 1u8 } else { 0u8 });
        assert(self.buf@ =~= old(self).buf@ + enc_bool(v));
    }

    /// Append a `u32`, little-endian.
    pub fn write_u32(&mut self, v: u32)
        ensures
            final(self)@ == old(self)@ + le32(v),
    {
        self.buf.push((v & 0xff) as u8);
        self.buf.push(((v >> 8) & 0xff) as u8);
        self.buf.push(((v >> 16) & 0xff) as u8);
        self.buf.push(((v >> 24) & 0xff) as u8);
        assert(self.buf@ =~= old(self).buf@ + le32(v));
    }

    /// Append a `u64`, little-endian.
    pub fn write_u64(&mut self, v: u64)
        ensures
            final(self)@ == old(self)@ + le64(v),
    {
        self.buf.push((v & 0xff) as u8);
        self.buf.push(((v >> 8) & 0xff) as u8);
        self.buf.push(((v >> 16) & 0xff) as u8);
        self.buf.push(((v >> 24) & 0xff) as u8);
        self.buf.push(((v >> 32) & 0xff) as u8);
        self.buf.push(((v >> 40) & 0xff) as u8);
        self.buf.push(((v >> 48) & 0xff) as u8);
        self.buf.push(((v >> 56) & 0xff) as u8);
        assert(self.buf@ =~= old(self).buf@ + le64(v));
    }

    /// Hash the stream.
    pub fn finish(self) -> (r: FrameFingerprint)
        ensures
            r == split_digest(xxh3_128_seeded(self@, XXH3_SEED)),
    {
        let v = xxh3_128(self.buf.as_slice(), XXH3_SEED);
        fingerprint_from_digest(v)
    }
}

/// Append a surface descriptor.
pub fn write_surface_desc(h: &mut StableHasher, s: &SurfaceDesc)
    ensures
        final(h)@ == old(h)@ + enc_surface_desc(*s),
{
    h.write_u32(s.width);
    h.write_u32(s.height);
    match s.format {
        PixelFormat::Rgba8Premul => h.write_u8(0),
    }
    assert(h@ =~= old(h)@ + enc_surface_desc(*s));
}

/// Append a surface id.
pub fn write_surface_id(h: &mut StableHasher, s: SurfaceId)
    ensures
        final(h)@ == old(h)@ + le32(s.0),
{
    h.write_u32(s.0);
}

/// Append a render-unit key.
pub fn write_unit_key(h: &mut StableHasher, u: UnitKey)
    ensures
        final(h)@ == old(h)@ + enc_unit_key(u),
{
    match u {
        UnitKey::Leaf(n) => {
            h.write_u8(0);
            h.write_u32(n.0);
        },
        UnitKey::Group(n) => {
            h.write_u8(1);
            h.write_u32(n.0);
        },
        UnitKey::MaskNode(n) => {
            h.write_u8(2);
            h.write_u32(n.0);
        },
    }
    assert(h@ =~= old(h)@ + enc_unit_key(u));
}

/// Append a mask mode.
pub fn write_mask_mode(h: &mut StableHasher, m: MaskMode)
    ensures
        final(h)@ == old(h)@ + enc_mask_mode(m),
{
    match m {
        MaskMode::Alpha => h.write_u8(0),
        MaskMode::Luma => h.write_u8(1),
        MaskMode::Stencil { threshold_bits } => {
            h.write_u8(2);
            h.write_u32(threshold_bits);
        },
    }
    assert(h@ =~= old(h)@ + enc_mask_mode(m));
}

/// Append a blend mode.
pub fn write_blend_mode(h: &mut StableHasher, b: BlendMode)
    ensures
        final(h)@ == old(h)@.push(blend_code(b)),
{
    h.write_u8(
        match b {
            BlendMode::Normal => 0,
            BlendMode::Multiply => 1,
            BlendMode::Screen => 2,
            BlendMode::Overlay => 3,
            BlendMode::Darken => 4,
            BlendMode::Lighten => 5,
            BlendMode::ColorDodge => 6,
            BlendMode::ColorBurn => 7,
            BlendMode::SoftLight => 8,
            BlendMode::HardLight => 9,
            BlendMode::Difference => 10,
            BlendMode::Exclusion => 11,
        },
    );
}

/// Append a wipe direction.
pub fn write_wipe_dir(h: &mut StableHasher, d: WipeDir)
    ensures
        final(h)@ == old(h)@.push(wipe_code(d)),
{
    h.write_u8(
        match d {
            WipeDir::LeftToRight => 0,
            WipeDir::RightToLeft => 1,
            WipeDir::TopToBottom => 2,
            WipeDir::BottomToTop => 3,
        },
    );
}

/// Append a slide direction.
pub fn write_slide_dir(h: &mut StableHasher, d: SlideDir)
    ensures
        final(h)@ == old(h)@.push(slide_code(d)),
{
    h.write_u8(
        match d {
            SlideDir::Left => 0,
            SlideDir::Right => 1,
            SlideDir::Up => 2,
            SlideDir::Down => 3,
        },
    );
}

/// Append an iris shape.
pub fn write_iris_shape(h: &mut StableHasher, s: IrisShape)
    ensures
        final(h)@ == old(h)@.push(iris_code(s)),
{
    h.write_u8(
        match s {
            IrisShape::Circle => 0,
            IrisShape::Rect => 1,
            IrisShape::Diamond => 2,
        },
    );
}

/// Append a procedural shape.
pub fn write_shape(h: &mut StableHasher, s: &ShapeIR)
    ensures
        final(h)@ == old(h)@ + enc_shape(*s),
{
    match s {
        ShapeIR::Rect { width_bits, height_bits } => {
            h.write_u8(0);
            h.write_u64(*width_bits);
            h.write_u64(*height_bits);
        },
        ShapeIR::RoundedRect { width_bits, height_bits, radius_bits } => {
            h.write_u8(1);
            h.write_u64(*width_bits);
            h.write_u64(*height_bits);
            h.write_u64(*radius_bits);
        },
        ShapeIR::Ellipse { rx_bits, ry_bits } => {
            h.write_u8(2);
            h.write_u64(*rx_bits);
            h.write_u64(*ry_bits);
        },
        ShapeIR::Path { svg_path_d } => {
            h.write_u8(3);
            h.write_u32(svg_path_d.0);
        },
    }
    assert(h@ =~= old(h)@ + enc_shape(*s));
}

/// Append an effect pass.
pub fn write_pass_fx(h: &mut StableHasher, fx: &PassFx)
    ensures
        final(h)@ == old(h)@ + enc_pass_fx(*fx),
{
    match fx {
        PassFx::Blur { radius_px, sigma_bits } => {
            h.write_u8(0);
            h.write_u32(*radius_px);
            h.write_u32(*sigma_bits);
            assert(h@ =~= old(h)@ + enc_pass_fx(*fx));
        },
        PassFx::ColorMatrix { matrix_bits } => {
            h.write_u8(1);
            let ghost start = h@;
            let mut i: usize = 0;
            while i < 20
                invariant
                    i <= 20,
                    h@ == start + enc_matrix(matrix_bits@, i as int),
                decreases 20 - i,
            {
                h.write_u32(matrix_bits[i]);
                assert(h@ =~= start + enc_matrix(matrix_bits@, i + 1));
                i = i + 1;
            }
            assert(h@ =~= old(h)@ + enc_pass_fx(*fx));
        },
        PassFx::MaskApply { mode, inverted } => {
            h.write_u8(2);
            write_mask_mode(h, *mode);
            h.write_bool(*inverted);
            assert(h@ =~= old(h)@ + enc_pass_fx(*fx));
        },
        PassFx::DropShadow { offset_x_bits, offset_y_bits, blur_radius_px, sigma_bits, color } => {
            h.write_u8(3);
            h.write_u64(*offset_x_bits);
            h.write_u64(*offset_y_bits);
            h.write_u32(*blur_radius_px);
            h.write_u32(*sigma_bits);
            h.write_u8(color.r);
            h.write_u8(color.g);
            h.write_u8(color.b);
            h.write_u8(color.a);
            assert(h@ =~= old(h)@ + enc_pass_fx(*fx));
        },
    }
}

/// Append a mask-generation source.
pub fn write_mask_gen_source(h: &mut StableHasher, src: &MaskGenSource)
    ensures
        final(h)@ == old(h)@ + enc_mask_gen_source(*src),
{
    match src {
        MaskGenSource::Asset(a) => {
            h.write_u8(0);
            h.write_u32(a.0);
        },
        MaskGenSource::Shape(s) => {
            h.write_u8(1);
            write_shape(h, s);
        },
    }
    assert(h@ =~= old(h)@ + enc_mask_gen_source(*src));
}

/// Append one composite step.
pub fn write_composite_op(h: &mut StableHasher, c: &CompositeOp)
    ensures
        final(h)@ == old(h)@ + enc_composite_op(*c),
{
    match c {
        CompositeOp::Over { src, opacity_bits, blend } => {
            h.write_u8(0);
            write_surface_id(h, *src);
            h.write_u32(*opacity_bits);
            write_blend_mode(h, *blend);
        },
        CompositeOp::Crossfade { a, b, t_bits } => {
            h.write_u8(1);
            write_surface_id(h, *a);
            write_surface_id(h, *b);
            h.write_u32(*t_bits);
        },
        CompositeOp::Wipe { a, b, t_bits, dir, soft_edge_bits } => {
            h.write_u8(2);
            write_surface_id(h, *a);
            write_surface_id(h, *b);
            h.write_u32(*t_bits);
            write_wipe_dir(h, *dir);
            h.write_u32(*soft_edge_bits);
        },
        CompositeOp::Slide { a, b, t_bits, dir, push } => {
            h.write_u8(3);
            write_surface_id(h, *a);
            write_surface_id(h, *b);
            h.write_u32(*t_bits);
            write_slide_dir(h, *dir);
            h.write_bool(*push);
        },
        CompositeOp::Zoom { a, b, t_bits, origin_x_bits, origin_y_bits, from_scale_bits } => {
            h.write_u8(4);
            write_surface_id(h, *a);
            write_surface_id(h, *b);
            h.write_u32(*t_bits);
            h.write_u64(*origin_x_bits);
            h.write_u64(*origin_y_bits);
            h.write_u32(*from_scale_bits);
        },
        CompositeOp::Iris { a, b, t_bits, origin_x_bits, origin_y_bits, shape, soft_edge_bits } => {
            h.write_u8(5);
            write_surface_id(h, *a);
            write_surface_id(h, *b);
            h.write_u32(*t_bits);
            h.write_u64(*origin_x_bits);
            h.write_u64(*origin_y_bits);
            write_iris_shape(h, *shape);
            h.write_u32(*soft_edge_bits);
        },
    }
    assert(h@ =~= old(h)@ + enc_composite_op(*c));
}

/// Append a list of surface ids.
fn write_surface_ids(h: &mut StableHasher, inputs: &[SurfaceId])
    ensures
        final(h)@ == old(h)@ + enc_surface_ids(inputs@),
{
    let ghost start = h@;
    let n = inputs.len();
    let mut i: usize = 0;
    assert(start + enc_surface_ids(inputs@.take(0)) =~= start) by {
        assert(inputs@.take(0) =~= Seq::<SurfaceId>::empty());
    }
    while i < n
        invariant
            n == inputs@.len(),
            i <= n,
            h@ == start + enc_surface_ids(inputs@.take(i as int)),
        decreases n - i,
    {
        write_surface_id(h, inputs[i]);
        assert(inputs@.take(i + 1).drop_last() =~= inputs@.take(i as int));
        assert(h@ =~= start + enc_surface_ids(inputs@.take(i + 1)));
        i = i + 1;
    }
    assert(inputs@.take(n as int) =~= inputs@);
}

/// Append the composite steps of a composite op.
fn write_composite_ops(h: &mut StableHasher, ops: &Vec<CompositeOp>)
    ensures
        final(h)@ == old(h)@ + enc_composite_ops(ops@),
{
    let ghost cstart = h@;
    let m = ops.len();
    let mut j: usize = 0;
    assert(cstart + enc_composite_ops(ops@.take(0)) =~= cstart) by {
        assert(ops@.take(0) =~= Seq::<CompositeOp>::empty());
    }
    while j < m
        invariant
            m == ops@.len(),
            j <= m,
            h@ == cstart + enc_composite_ops(ops@.take(j as int)),
        decreases m - j,
    {
        write_composite_op(h, &ops[j]);
        assert(ops@.take(j + 1).drop_last() =~= ops@.take(j as int));
        assert(h@ =~= cstart + enc_composite_ops(ops@.take(j + 1)));
        j = j + 1;
    }
    assert(ops@.take(m as int) =~= ops@);
}

/// Append an op kind.
fn write_op_kind(h: &mut StableHasher, kind: &OpKind)
    ensures
        final(h)@ == old(h)@ + enc_op_kind(*kind),
{
    let ghost mid = h@;
    match kind {
        OpKind::Draw { unit, leaves_start, leaves_end, clear_to_transparent, transform_post_bits, opacity_mul_bits } => {
            h.write_u8(0);
            write_unit_key(h, *unit);
            h.write_u64(*leaves_start as u64);
            h.write_u64(*leaves_end as u64);
            h.write_bool(*clear_to_transparent);
            h.write_u64(transform_post_bits[0]);
            h.write_u64(transform_post_bits[1]);
            h.write_u64(transform_post_bits[2]);
            h.write_u64(transform_post_bits[3]);
            h.write_u64(transform_post_bits[4]);
            h.write_u64(transform_post_bits[5]);
            h.write_u32(*opacity_mul_bits);
        },
        OpKind::Pass { fx } => {
            h.write_u8(1);
            write_pass_fx(h, fx);
        },
        OpKind::MaskGen { source } => {
            h.write_u8(2);
            write_mask_gen_source(h, source);
        },
        OpKind::Composite { clear_to_transparent, ops } => {
            h.write_u8(3);
            h.write_bool(*clear_to_transparent);
            h.write_u32(ops.len() as u32);
            write_composite_ops(h, ops);
        },
    }
    assert(h@ =~= mid + enc_op_kind(*kind));
}

/// Append an op's signature: output, inputs and kind.
pub fn write_op(h: &mut StableHasher, output: SurfaceId, kind: &OpKind, inputs: &[SurfaceId])
    ensures
        final(h)@ == old(h)@ + le32(output.0) + le32(inputs@.len() as u32) + enc_surface_ids(inputs@) + enc_op_kind(*kind),
{
    let ghost h0 = h@;
    write_surface_id(h, output);
    h.write_u32(inputs.len() as u32);
    write_surface_ids(h, inputs);
    write_op_kind(h, kind);
    assert(h@ =~= h0 + le32(output.0) + le32(inputs@.len() as u32) + enc_surface_ids(inputs@) + enc_op_kind(*kind));
}

/// Append a whole plan.
pub fn write_plan(h: &mut StableHasher, plan: &RenderPlan)
    ensures
        final(h)@ == old(h)@ + enc_plan(*plan),
{
    h.write_u32(plan.surfaces.len() as u32);
    let ghost s0 = h@;
    let n = plan.surfaces.len();
    let mut i: usize = 0;
    while i < n
        invariant
            n == plan.surfaces@.len(),
            i <= n,
            h@ == s0 + enc_surface_descs(plan.surfaces@.take(i as int)),
        decreases n - i,
    {
        write_surface_desc(h, &plan.surfaces[i]);
        assert(plan.surfaces@.take(i + 1).drop_last() =~= plan.surfaces@.take(i as int));
        assert(h@ =~= s0 + enc_surface_descs(plan.surfaces@.take(i + 1)));
        i = i + 1;
    }
    assert(plan.surfaces@.take(n as int) =~= plan.surfaces@);

    h.write_u32(plan.ops.len() as u32);
    let ghost s1 = h@;
    let m = plan.ops.len();
    let mut j: usize = 0;
    while j < m
        invariant
            m == plan.ops@.len(),
            j <= m,
            h@ == s1 + enc_ops(plan.ops@.take(j as int)),
        decreases m - j,
    {
        let op = &plan.ops[j];
        write_op(h, op.output, &op.kind, op.inputs.as_slice());
        assert(plan.ops@.take(j + 1).drop_last() =~= plan.ops@.take(j as int));
        assert(h@ =~= s1 + enc_ops(plan.ops@.take(j + 1)));
        j = j + 1;
    }
    assert(plan.ops@.take(m as int) =~= plan.ops@);

    h.write_u32(plan.roots.len() as u32);
    let ghost s2 = h@;
    let r = plan.roots.len();
    let mut k: usize = 0;
    while k < r
        invariant
            r == plan.roots@.len(),
            k <= r,
            h@ == s2 + enc_surface_ids(plan.roots@.take(k as int)),
        decreases r - k,
    {
        write_surface_id(h, plan.roots[k]);
        assert(plan.roots@.take(k + 1).drop_last() =~= plan.roots@.take(k as int));
        assert(h@ =~= s2 + enc_surface_ids(plan.roots@.take(k + 1)));
        k = k + 1;
    }
    assert(plan.roots@.take(r as int) =~= plan.roots@);
    assert(h@ =~= old(h)@ + enc_plan(*plan));
}

/// Stable fingerprint of a plan: seeded XXH3-128 of its canonical byte stream.
pub fn fingerprint_plan(plan: &RenderPlan) -> (r: FrameFingerprint)
    ensures
        r == spec_fingerprint(*plan),
{
    let mut h = StableHasher::new();
    write_plan(&mut h, plan);
    assert(h@ =~= enc_plan(*plan));
    h.finish()
}

} // verus!
