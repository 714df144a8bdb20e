//! Render plan: a DAG of raster ops over pooled surfaces.
//!
//! Floating-point parameters are carried as their IEEE-754 bit patterns (`*_bits` fields): the
//! plan logic here only moves and hashes them; arithmetic on them happens in the rasterizer.
use vstd::prelude::*;

verus! {

/// Index of a surface in [`RenderPlan::surfaces`].
#[derive(Debug, Clone, Copy, PartialEq, Eq)]
pub struct SurfaceId(pub u32);

/// Index of an op in [`RenderPlan::ops`].
#[derive(Debug, Clone, Copy, PartialEq, Eq)]
pub struct OpId(pub u32);

/// Index of a node in the normalized node arena.
#[derive(Debug, Clone, Copy, PartialEq, Eq)]
pub struct NodeIdx(pub u32);

/// Index of an asset in the composition's asset table.
#[derive(Debug, Clone, Copy, PartialEq, Eq)]
pub struct AssetIdx(pub u32);

/// Id of an interned string.
#[derive(Debug, Clone, Copy, PartialEq, Eq)]
pub struct InternId(pub u32);

/// Pixel format of a surface.
#[derive(Debug, Clone, Copy, PartialEq, Eq)]
pub enum PixelFormat {
    /// Premultiplied RGBA, 8 bits per channel.
    Rgba8Premul,
}

/// Size and format of a surface.
#[derive(Debug, Clone, Copy, PartialEq, Eq)]
pub struct SurfaceDesc {
    /// Width in pixels.
    pub width: u32,
    /// Height in pixels.
    pub height: u32,
    /// Pixel format.
    pub format: PixelFormat,
}

/// Which render unit a draw op rasterizes.
#[derive(Debug, Clone, Copy, PartialEq, Eq)]
pub enum UnitKey {
    /// A single leaf node.
    Leaf(NodeIdx),
    /// An isolated group.
    Group(NodeIdx),
    /// A node used as a mask source.
    MaskNode(NodeIdx),
}

/// Premultiplied RGBA8 colour.
#[derive(Debug, Clone, Copy, PartialEq, Eq)]
pub struct Rgba8Premul {
    /// Red.
    pub r: u8,
    /// Green.
    pub g: u8,
    /// Blue.
    pub b: u8,
    /// Alpha.
    pub a: u8,
}

/// How a mask pass weighs the source.
#[derive(Debug, Clone, Copy, PartialEq, Eq)]
pub enum MaskMode {
    /// By the mask's alpha.
    Alpha,
    /// By the mask's luma.
    Luma,
    /// All-or-nothing at a threshold in `0..=1` (`f32` bits).
    Stencil { threshold_bits: u32 },
}

/// Blend mode of an over-composite.
#[derive(Debug, Clone, Copy, PartialEq, Eq, Structural)]
pub enum BlendMode {
    /// Plain source-over.
    Normal,
    /// Multiply.
    Multiply,
    /// Screen.
    Screen,
    /// Overlay.
    Overlay,
    /// Darken.
    Darken,
    /// Lighten.
    Lighten,
    /// Colour dodge.
    ColorDodge,
    /// Colour burn.
    ColorBurn,
    /// Soft light.
    SoftLight,
    /// Hard light.
    HardLight,
    /// Difference.
    Difference,
    /// Exclusion.
    Exclusion,
}

/// Direction of a wipe transition.
#[derive(Debug, Clone, Copy, PartialEq, Eq)]
pub enum WipeDir {
    /// Left to right.
    LeftToRight,
    /// Right to left.
    RightToLeft,
    /// Top to bottom.
    TopToBottom,
    /// Bottom to top.
    BottomToTop,
}

/// Direction of a slide transition.
#[derive(Debug, Clone, Copy, PartialEq, Eq)]
pub enum SlideDir {
    /// Towards the left.
    Left,
    /// Towards the right.
    Right,
    /// Upwards.
    Up,
    /// Downwards.
    Down,
}

/// Shape of an iris transition.
#[derive(Debug, Clone, Copy, PartialEq, Eq)]
pub enum IrisShape {
    /// Circle.
    Circle,
    /// Axis-aligned rectangle.
    Rect,
    /// Diamond.
    Diamond,
}

/// Procedural mask shape (`f64` sizes as bits).
#[derive(Debug, Clone, Copy, PartialEq, Eq)]
pub enum ShapeIR {
    /// Rectangle.
    Rect { width_bits: u64, height_bits: u64 },
    /// Rounded rectangle.
    RoundedRect { width_bits: u64, height_bits: u64, radius_bits: u64 },
    /// Ellipse.
    Ellipse { rx_bits: u64, ry_bits: u64 },
    /// SVG path data (interned).
    Path { svg_path_d: InternId },
}

/// Source of a generated mask.
#[derive(Debug, Clone, Copy, PartialEq, Eq)]
pub enum MaskGenSource {
    /// An image asset.
    Asset(AssetIdx),
    /// A procedural shape.
    Shape(ShapeIR),
}

/// An offscreen effect pass.
#[derive(Debug, Clone, Copy, PartialEq, Eq)]
pub enum PassFx {
    /// Gaussian blur.
    Blur { radius_px: u32, sigma_bits: u32 },
    /// 4x5 colour matrix (row-major, `f32` bits).
    ColorMatrix { matrix_bits: [u32; 20] },
    /// Mask application (`[src, mask]` inputs).
    MaskApply { mode: MaskMode, inverted: bool },
    /// Drop shadow.
    DropShadow { offset_x_bits: u64, offset_y_bits: u64, blur_radius_px: u32, sigma_bits: u32, color: Rgba8Premul },
}

/// One step of a composite op.
#[derive(Debug, Clone, Copy, PartialEq, Eq)]
pub enum CompositeOp {
    /// Source-over with opacity and blend mode.
    Over { src: SurfaceId, opacity_bits: u32, blend: BlendMode },
    /// Crossfade from `a` to `b`.
    Crossfade { a: SurfaceId, b: SurfaceId, t_bits: u32 },
    /// Wipe from `a` to `b`.
    Wipe { a: SurfaceId, b: SurfaceId, t_bits: u32, dir: WipeDir, soft_edge_bits: u32 },
    /// Slide from `a` to `b`.
    Slide { a: SurfaceId, b: SurfaceId, t_bits: u32, dir: SlideDir, push: bool },
    /// Zoom from `a` to `b`.
    Zoom { a: SurfaceId, b: SurfaceId, t_bits: u32, origin_x_bits: u64, origin_y_bits: u64, from_scale_bits: u32 },
    /// Iris from `a` to `b`.
    Iris { a: SurfaceId, b: SurfaceId, t_bits: u32, origin_x_bits: u64, origin_y_bits: u64, shape: IrisShape, soft_edge_bits: u32 },
}

/// What an op does.
#[derive(Debug, Clone)]
pub enum OpKind {
    /// Rasterize leaves `leaves_start..leaves_end` of `unit` into the output.
    Draw {
        unit: UnitKey,
        leaves_start: usize,
        leaves_end: usize,
        clear_to_transparent: bool,
        /// Affine coefficients `[a, b, c, d, e, f]` as `f64` bits.
        transform_post_bits: [u64; 6],
        opacity_mul_bits: u32,
    },
    /// Offscreen effect pass.
    Pass { fx: PassFx },
    /// Generate a mask surface.
    MaskGen { source: MaskGenSource },
    /// Composite inputs into the output.
    Composite { clear_to_transparent: bool, ops: Vec<CompositeOp> },
}

/// One node of the plan DAG.
#[derive(Debug, Clone)]
pub struct Op {
    /// Position of the op in the plan.
    pub id: OpId,
    /// What the op does.
    pub kind: OpKind,
    /// Surfaces read.
    pub inputs: Vec<SurfaceId>,
    /// Surface written.
    pub output: SurfaceId,
    /// Ops that must finish first.
    pub deps: Vec<OpId>,
}

/// A frame's render plan.
#[derive(Debug, Clone)]
pub struct RenderPlan {
    /// Surfaces used by the plan.
    pub surfaces: Vec<SurfaceDesc>,
    /// Ops in emission order.
    pub ops: Vec<Op>,
    /// Surfaces composited into the final frame.
    pub roots: Vec<SurfaceId>,
}

} // verus!
