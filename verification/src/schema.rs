//! Structural validation of a composition: ids, ranges and references.
//!
//! Errors are collected, not stopped at: the version, the root range, then a pre-order pass
//! over the node tree for ids and ranges, then a second pre-order pass for references, then the
//! asset parameter errors found by the caller.
use vstd::prelude::*;
use crate::parser::{is_white_space, trim_str, trim_ws, white_space};
use crate::text::{decimal, is_word, push_char, push_decimal, push_str};
use crate::plan::{BlendMode, MaskMode, PassFx};

verus! {

/// One step of a path into the document.
#[derive(Debug, Clone, Copy, PartialEq, Eq)]
pub enum SchemaPathElem {
    /// Object field.
    Field(&'static str),
    /// Array index.
    Index(usize),
}

/// A validation error and where it is.
#[derive(Debug, Clone)]
pub struct SchemaError {
    /// Location.
    pub path: Vec<SchemaPathElem>,
    /// Description.
    pub message: String,
}

/// All validation errors of a document.
#[derive(Debug, Clone)]
pub struct SchemaErrors {
    /// Errors, in the order found.
    pub errors: Vec<SchemaError>,
}

/// How a collection arranges its children.
#[derive(Debug, Clone, Copy, PartialEq, Eq)]
pub enum CollectionMode {
    /// Children overlaid.
    Group,
    /// Children one after another.
    Sequence,
    /// Children stacked by layout.
    Stack,
    /// One child active at a time.
    Switch,
}

/// A procedural mask shape (sizes are `f64` bit patterns).
#[derive(Debug, Clone)]
pub enum ShapeDef {
    /// Rectangle.
    Rect { width_bits: u64, height_bits: u64 },
    /// Rounded rectangle.
    RoundedRect { width_bits: u64, height_bits: u64, radius_bits: u64 },
    /// Ellipse.
    Ellipse { rx_bits: u64, ry_bits: u64 },
    /// SVG path data.
    Path { svg_path_d: String },
}

/// Source of a node's mask.
#[derive(Debug, Clone)]
pub enum MaskRef {
    /// Another node, by id.
    Node(String),
    /// An asset, by key.
    Asset(String),
    /// A procedural shape.
    Shape(ShapeDef),
}

/// A node's mask.
#[derive(Debug, Clone)]
pub struct MaskDef {
    /// What the mask is drawn from.
    pub source: MaskRef,
    /// How the mask weighs the node.
    pub mode: MaskMode,
    /// Whether the mask is inverted.
    pub inverted: bool,
}

/// A transition's kind, easing name and length.
#[derive(Debug, Clone)]
pub struct TransitionRef {
    /// Transition kind.
    pub kind: String,
    /// Easing name.
    pub ease: Option<String>,
    /// Length in frames.
    pub duration_frames: u32,
}

/// What a node is.
#[derive(Debug)]
pub enum SceneKind {
    /// Draws an asset.
    Leaf { asset: String },
    /// Holds children.
    Collection { mode: CollectionMode, children: Vec<SceneNode> },
    /// Embeds another composition.
    CompRef,
}

/// The parts of a node that structural validation reads.
#[derive(Debug)]
pub struct SceneNode {
    /// Node id.
    pub id: String,
    /// Frame range `[start, end]`.
    pub range: [u64; 2],
    /// Kind.
    pub kind: SceneKind,
    /// Kinds of the node's effects, in order.
    pub effect_kinds: Vec<String>,
    /// The offscreen passes the node's effects resolve to from their parameters, in order
    /// (an effect without a pass has none).
    pub effect_passes: Vec<PassFx>,
    /// How the node is blended over what lies below it.
    pub blend: BlendMode,
    /// Mask, if masked.
    pub mask: Option<MaskDef>,
    /// Incoming transition.
    pub transition_in: Option<TransitionRef>,
    /// Outgoing transition.
    pub transition_out: Option<TransitionRef>,
}

/// Playback parameters of a video or audio asset, as `f64` bit patterns.
#[derive(Debug, Clone, Copy)]
pub struct MediaParams {
    /// Seconds trimmed from the start.
    pub trim_start_sec_bits: u64,
    /// Second at which the clip ends, if trimmed.
    pub trim_end_sec_bits: Option<u64>,
    /// Playback speed.
    pub playback_rate_bits: u64,
    /// Gain.
    pub volume_bits: u64,
    /// Fade-in length in seconds.
    pub fade_in_sec_bits: u64,
    /// Fade-out length in seconds.
    pub fade_out_sec_bits: u64,
}

/// The parts of a composition that structural validation reads.
#[derive(Debug)]
pub struct SceneSkeleton {
    /// Declared schema version.
    pub version: String,
    /// Duration in frames.
    pub duration: u64,
    /// Asset keys, in table order.
    pub asset_keys: Vec<String>,
    /// Playback parameters of asset `k` when it is a video or audio clip; an entry past the
    /// end counts as none.
    pub asset_media: Vec<Option<MediaParams>>,
    /// Root node.
    pub root: SceneNode,
}

// ---------------------------------------------------------------------------------------------
// Abstract model
// ---------------------------------------------------------------------------------------------

/// Path step with names as characters.
pub enum PathV {
    Field(Seq<char>),
    Index(nat),
}

/// Error with its path and message as characters.
pub struct SErrV {
    pub path: Seq<PathV>,
    pub message: Seq<char>,
}

/// Mask source with names as characters.
pub enum MaskV {
    Node(Seq<char>),
    Asset(Seq<char>),
    Shape,
}

/// Transition with names as characters.
pub struct TransV {
    pub kind: Seq<char>,
    pub ease: Option<Seq<char>>,
}

/// Node kind with names as characters.
pub enum KindV {
    Leaf(Seq<char>),
    Collection(CollectionMode, Seq<NodeV>),
    CompRef,
}

/// Node with names as characters.
pub struct NodeV {
    pub id: Seq<char>,
    pub range: (u64, u64),
    pub kind: KindV,
    pub mask: Option<MaskV>,
    pub tin: Option<TransV>,
    pub tout: Option<TransV>,
}

pub open spec fn path_elem_view(e: SchemaPathElem) -> PathV {
    match e {
        SchemaPathElem::Field(s) => PathV::Field(s@),
        SchemaPathElem::Index(i) => PathV::Index(i as nat),
    }
}

pub open spec fn path_view(p: Seq<SchemaPathElem>) -> Seq<PathV> {
    Seq::new(p.len(), |i: int| path_elem_view(p[i]))
}

pub open spec fn serr_view(e: SchemaError) -> SErrV {
    SErrV { path: path_view(e.path@), message: e.message@ }
}

pub open spec fn serrs_view(es: Seq<SchemaError>) -> Seq<SErrV> {
    Seq::new(es.len(), |i: int| serr_view(es[i]))
}

pub open spec fn mask_view(m: MaskRef) -> MaskV {
    match m {
        MaskRef::Node(s) => MaskV::Node(s@),
        MaskRef::Asset(s) => MaskV::Asset(s@),
        MaskRef::Shape(_) => MaskV::Shape,
    }
}

pub open spec fn trans_view(t: TransitionRef) -> TransV {
    TransV { kind: t.kind@, ease: match t.ease { Some(e) => Some(e@), None => None } }
}

/// Placeholder node (never read).
pub open spec fn empty_node() -> NodeV {
    NodeV { id: Seq::empty(), range: (0, 0), kind: KindV::CompRef, mask: None, tin: None, tout: None }
}

pub open spec fn node_view(n: SceneNode) -> NodeV
    decreases n,
{
    NodeV {
        id: n.id@,
        range: (n.range[0], n.range[1]),
        kind: match n.kind {
            SceneKind::Leaf { asset } => KindV::Leaf(asset@),
            SceneKind::Collection { mode, children } => KindV::Collection(
                mode,
                Seq::new(children@.len(), |i: int| if 0 <= i < children@.len() { node_view(children@[i]) } else { empty_node() }),
            ),
            SceneKind::CompRef => KindV::CompRef,
        },
        mask: match n.mask { Some(m) => Some(mask_view(m.source)), None => None },
        tin: match n.transition_in { Some(t) => Some(trans_view(t)), None => None },
        tout: match n.transition_out { Some(t) => Some(trans_view(t)), None => None },
    }
}

pub open spec fn strs_view(v: Seq<String>) -> Seq<Seq<char>> {
    Seq::new(v.len(), |i: int| v[i]@)
}

/// Every character is white space (the text is empty once trimmed).
pub open spec fn is_blank(s: Seq<char>) -> bool {
    forall|i: int| 0 <= i < s.len() ==> is_white_space(#[trigger] s[i])
}

/// ASCII letters lowered; other characters unchanged.
pub open spec fn ascii_lower(s: Seq<char>) -> Seq<char> {
    s.map_values(|c: char| if 'A' <= c <= 'Z' { ((c as u32) + 32) as char } else { c })
}

/// A known transition kind once trimmed and lowered.
pub open spec fn known_kind(k: Seq<char>) -> bool {
    let l = ascii_lower(trim_ws(k));
    l == "crossfade"@ || l == "wipe"@ || l == "slide"@ || l == "zoom"@ || l == "iris"@
}

/// A known easing name.
pub open spec fn known_ease(e: Seq<char>) -> bool {
    e == "hold"@ || e == "linear"@ || e == "ease_in"@ || e == "ease_out"@ || e == "ease_in_out"@
        || e == "elastic_out"@ || e == "bounce_out"@
}

pub open spec fn err_at(path: Seq<PathV>, m: Seq<char>) -> SErrV {
    SErrV { path, message: m }
}

pub open spec fn fld(s: Seq<char>) -> PathV {
    PathV::Field(s)
}

/// `"` + `s` + `"`.
pub open spec fn dq(s: Seq<char>) -> Seq<char> {
    "\""@ + s + "\""@
}

/// Path of child `k` of the node at `path`.
pub open spec fn child_path(path: Seq<PathV>, k: int) -> Seq<PathV> {
    path + seq![fld("kind"@), fld("children"@), PathV::Index(k as nat)]
}

/// Errors for children of a sequence whose range does not start at `0`, from child `k` on.
pub open spec fn seq_start_errs(children: Seq<NodeV>, path: Seq<PathV>, k: int, errs: Seq<SErrV>) -> Seq<SErrV>
    decreases children.len() - k,
{
    if k < 0 || k >= children.len() {
        errs
    } else {
        let errs = if children[k].range.0 != 0 {
            errs.push(err_at(child_path(path, k) + seq![fld("range"@)], "sequence child range.start must be 0"@))
        } else {
            errs
        };
        seq_start_errs(children, path, k + 1, errs)
    }
}

/// First pass over a node and its subtree: id and range errors, and the ids met (pre-order).
pub open spec fn collect_spec(n: NodeV, path: Seq<PathV>, st: (Seq<SErrV>, Seq<Seq<char>>)) -> (Seq<SErrV>, Seq<Seq<char>>)
    decreases n, 0int,
{
    let errs = st.0;
    let ids = st.1;
    let idp = path + seq![fld("id"@)];
    let (errs, ids) = if is_blank(n.id) {
        (errs.push(err_at(idp, "node id must be non-empty"@)), ids)
    } else if ids.contains(n.id) {
        (errs.push(err_at(idp, "duplicate node id "@ + dq(n.id))), ids.push(n.id))
    } else {
        (errs, ids.push(n.id))
    };
    let errs = if n.range.0 > n.range.1 {
        errs.push(err_at(path + seq![fld("range"@)], "range must satisfy start <= end"@))
    } else {
        errs
    };
    match n.kind {
        KindV::Collection(mode, children) => {
            let errs = if mode == CollectionMode::Sequence { seq_start_errs(children, path, 0, errs) } else { errs };
            collect_children(children, path, 0, (errs, ids))
        },
        _ => (errs, ids),
    }
}

/// First pass over children `k..` of the node at `path`.
pub open spec fn collect_children(children: Seq<NodeV>, path: Seq<PathV>, k: int, st: (Seq<SErrV>, Seq<Seq<char>>)) -> (Seq<SErrV>, Seq<Seq<char>>)
    decreases children, children.len() - k,
{
    if k < 0 || k >= children.len() {
        st
    } else {
        collect_children(children, path, k + 1, collect_spec(children[k], child_path(path, k), st))
    }
}

/// Errors of a transition at `base`.
pub open spec fn trans_errs(t: TransV, base: Seq<PathV>, errs: Seq<SErrV>) -> Seq<SErrV> {
    let kp = base + seq![fld("kind"@)];
    let errs = if is_blank(t.kind) {
        errs.push(err_at(kp, "transition kind must be non-empty"@))
    } else if !known_kind(t.kind) {
        errs.push(err_at(kp, "unknown transition kind "@ + dq(t.kind)))
    } else {
        errs
    };
    match t.ease {
        Some(e) => if known_ease(e) { errs } else { errs.push(err_at(base + seq![fld("ease"@)], "unknown transition ease "@ + dq(e))) },
        None => errs,
    }
}

/// Reference errors of the node itself (not its children).
pub open spec fn own_ref_errs(n: NodeV, path: Seq<PathV>, ids: Seq<Seq<char>>, assets: Seq<Seq<char>>, errs: Seq<SErrV>) -> Seq<SErrV> {
    let errs = match n.tin { Some(t) => trans_errs(t, path + seq![fld("transition_in"@)], errs), None => errs };
    let errs = match n.tout { Some(t) => trans_errs(t, path + seq![fld("transition_out"@)], errs), None => errs };
    let errs = match n.kind {
        KindV::Leaf(a) => if assets.contains(a) { errs } else {
            errs.push(err_at(path + seq![fld("kind"@), fld("asset"@)], "unknown asset "@ + dq(a)))
        },
        _ => errs,
    };
    let mp = path + seq![fld("mask"@), fld("source"@)];
    let errs = match n.mask {
        Some(MaskV::Node(id)) => if id == n.id {
            errs.push(err_at(mp, "mask source cannot refer to the same node id (self-mask)"@))
        } else if !ids.contains(id) {
            errs.push(err_at(mp, "unknown mask source node id "@ + dq(id)))
        } else {
            errs
        },
        Some(MaskV::Asset(k)) => if assets.contains(k) { errs } else {
            errs.push(err_at(mp, "unknown mask source asset "@ + dq(k)))
        },
        _ => errs,
    };
    let errs = match n.tin {
        Some(t) => if is_blank(t.kind) {
            errs.push(err_at(path + seq![fld("transition_in"@), fld("kind"@)], "transition kind must be non-empty"@))
        } else { errs },
        None => errs,
    };
    match n.tout {
        Some(t) => if is_blank(t.kind) {
            errs.push(err_at(path + seq![fld("transition_out"@), fld("kind"@)], "transition kind must be non-empty"@))
        } else { errs },
        None => errs,
    }
}

/// Second pass over a node and its subtree (pre-order).
pub open spec fn refs_spec(n: NodeV, path: Seq<PathV>, ids: Seq<Seq<char>>, assets: Seq<Seq<char>>, errs: Seq<SErrV>) -> Seq<SErrV>
    decreases n, 0int,
{
    let errs = own_ref_errs(n, path, ids, assets, errs);
    match n.kind {
        KindV::Collection(_, children) => refs_children(children, path, 0, ids, assets, errs),
        _ => errs,
    }
}

/// Second pass over children `k..`.
pub open spec fn refs_children(children: Seq<NodeV>, path: Seq<PathV>, k: int, ids: Seq<Seq<char>>, assets: Seq<Seq<char>>, errs: Seq<SErrV>) -> Seq<SErrV>
    decreases children, children.len() - k,
{
    if k < 0 || k >= children.len() {
        errs
    } else {
        refs_children(children, path, k + 1, ids, assets, refs_spec(children[k], child_path(path, k), ids, assets, errs))
    }
}

/// Version and root-range errors.
pub open spec fn head_errs(version: Seq<char>, duration: u64, root_range: (u64, u64)) -> Seq<SErrV> {
    let e0 = if version == "0.3"@ { Seq::empty() } else { seq![err_at(seq![fld("version"@)], "version must be \"0.3\""@)] };
    if root_range.0 != 0 || root_range.1 != duration {
        e0.push(err_at(seq![fld("root"@), fld("range"@)], "root.range must be [0, composition.duration]"@))
    } else {
        e0
    }
}

/// All structural errors of a composition, in report order (asset parameter errors excluded).
pub open spec fn structural_errs(version: Seq<char>, duration: u64, assets: Seq<Seq<char>>, root: NodeV) -> Seq<SErrV> {
    let e1 = head_errs(version, duration, root.range);
    let (e2, ids) = collect_spec(root, seq![fld("root"@)], (e1, Seq::empty()));
    refs_spec(root, seq![fld("root"@)], ids, assets, e2)
}

/// Magnitude bits of an `f64` (sign cleared).
pub open spec fn f64_mag(b: u64) -> u64 {
    b % 0x8000_0000_0000_0000
}

/// The `f64` with bits `b` is NaN.
pub open spec fn f64_is_nan(b: u64) -> bool {
    f64_mag(b) > 0x7ff0_0000_0000_0000
}

/// The `f64` with bits `b` is finite.
pub open spec fn f64_is_finite(b: u64) -> bool {
    f64_mag(b) < 0x7ff0_0000_0000_0000
}

/// Position of a non-NaN `f64` on the number line, as an integer that orders like the value
/// (both zeros map to `0`).
pub open spec fn f64_key(b: u64) -> int {
    if b >= 0x8000_0000_0000_0000 { -(f64_mag(b) as int) } else { f64_mag(b) as int }
}

/// `a < b` for the `f64` values with these bits (false when either is NaN).
pub open spec fn f64_lt(a: u64, b: u64) -> bool {
    !f64_is_nan(a) && !f64_is_nan(b) && f64_key(a) < f64_key(b)
}

/// `a <= b` for the `f64` values with these bits (false when either is NaN).
pub open spec fn f64_le(a: u64, b: u64) -> bool {
    !f64_is_nan(a) && !f64_is_nan(b) && f64_key(a) <= f64_key(b)
}

/// Not finite, or below zero.
pub open spec fn bad_nonneg(b: u64) -> bool {
    !f64_is_finite(b) || f64_lt(b, 0)
}

/// Not finite, or not above zero.
pub open spec fn bad_positive(b: u64) -> bool {
    !f64_is_finite(b) || f64_le(b, 0)
}

/// `asset '<key>': <what>`.
pub open spec fn asset_msg(key: Seq<char>, what: Seq<char>) -> Seq<char> {
    "asset '"@ + key + "': "@ + what
}

/// Errors of one asset's playback parameters, in check order.
pub open spec fn media_errs(key: Seq<char>, m: Option<MediaParams>) -> Seq<SErrV> {
    let p = seq![fld("assets"@)];
    match m {
        None => Seq::empty(),
        Some(mp) => {
            let e = Seq::<SErrV>::empty();
            let e = if bad_nonneg(mp.trim_start_sec_bits) {
                e.push(err_at(p, asset_msg(key, "trim_start_sec must be finite and >= 0"@)))
            } else { e };
            let e = match mp.trim_end_sec_bits {
                Some(end) => {
                    let e = if bad_nonneg(end) {
                        e.push(err_at(p, asset_msg(key, "trim_end_sec must be finite and >= 0"@)))
                    } else { e };
                    if f64_lt(end, mp.trim_start_sec_bits) {
                        e.push(err_at(p, asset_msg(key, "trim_end_sec must be >= trim_start_sec"@)))
                    } else { e }
                },
                None => e,
            };
            let e = if bad_positive(mp.playback_rate_bits) {
                e.push(err_at(p, asset_msg(key, "playback_rate must be finite and > 0"@)))
            } else { e };
            let e = if bad_nonneg(mp.volume_bits) {
                e.push(err_at(p, asset_msg(key, "volume must be finite and >= 0"@)))
            } else { e };
            let e = if bad_nonneg(mp.fade_in_sec_bits) {
                e.push(err_at(p, asset_msg(key, "fade_in_sec must be finite and >= 0"@)))
            } else { e };
            if bad_nonneg(mp.fade_out_sec_bits) {
                e.push(err_at(p, asset_msg(key, "fade_out_sec must be finite and >= 0"@)))
            } else { e }
        },
    }
}

/// Playback parameters of asset `k` (none past the end).
pub open spec fn media_at(media: Seq<Option<MediaParams>>, k: int) -> Option<MediaParams> {
    if 0 <= k < media.len() { media[k] } else { None }
}

/// Parameter errors of assets `0..k`, in table order.
pub open spec fn asset_errs(keys: Seq<Seq<char>>, media: Seq<Option<MediaParams>>, k: int) -> Seq<SErrV>
    decreases k,
{
    if k <= 0 || k > keys.len() {
        Seq::empty()
    } else {
        asset_errs(keys, media, k - 1) + media_errs(keys[k - 1], media_at(media, k - 1))
    }
}

/// All errors of a composition, in report order.
pub open spec fn all_errs(skel: SceneSkeleton) -> Seq<SErrV> {
    structural_errs(skel.version@, skel.duration, strs_view(skel.asset_keys@), node_view(skel.root))
        + asset_errs(strs_view(skel.asset_keys@), skel.asset_media@, skel.asset_keys@.len() as int)
}

/// `$` followed by `.name` for fields and `[i]` for indices.
pub open spec fn path_text(p: Seq<PathV>) -> Seq<char>
    decreases p.len(),
{
    if p.len() == 0 {
        "$"@
    } else {
        path_text(p.drop_last()) + match p.last() {
            PathV::Field(s) => "."@ + s,
            PathV::Index(i) => "["@ + decimal(i) + "]"@,
        }
    }
}

/// Text of one error: the message, after `<path>: ` when the path is not empty.
pub open spec fn error_line(e: SErrV) -> Seq<char> {
    if e.path.len() == 0 { e.message } else { path_text(e.path) + ": "@ + e.message }
}

/// Lines of all errors joined with newlines.
pub open spec fn errors_text(es: Seq<SErrV>) -> Seq<char>
    decreases es.len(),
{
    if es.len() == 0 {
        Seq::empty()
    } else if es.len() == 1 {
        error_line(es[0])
    } else {
        errors_text(es.drop_last()) + "\n"@ + error_line(es.last())
    }
}

// ---------------------------------------------------------------------------------------------
// Executable
// ---------------------------------------------------------------------------------------------

impl SchemaError {
    /// An error at `path` with message `message`.
    pub fn at(path: &[SchemaPathElem], message: &str) -> (e: Self)
        ensures
            e.path@ == path@,
            e.message@ == message@,
    {
        let mut p: Vec<SchemaPathElem> = Vec::new();
        let n = path.len();
        let mut i: usize = 0;
        while i < n
            invariant
                n == path@.len(),
                i <= n,
                p@ == path@.take(i as int),
            decreases n - i,
        {
            p.push(path[i]);
            assert(p@ =~= path@.take(i + 1));
            i = i + 1;
        }
        assert(path@.take(n as int) =~= path@);
        SchemaError { path: p, message: String::from_str(message) }
    }

    /// Text of the error (see [`error_line`]).
    pub fn text(&self) -> (r: String)
        ensures
            r@ == error_line(serr_view(*self)),
    {
        if self.path.len() == 0 {
            return self.message.clone();
        }
        let mut s = format_path(self.path.as_slice());
        push_str(&mut s, ": ");
        push_str(&mut s, self.message.as_str());
        s
    }
}

impl SchemaErrors {
    /// Text of all errors, one per line.
    pub fn text(&self) -> (r: String)
        ensures
            r@ == errors_text(serrs_view(self.errors@)),
    {
        let n = self.errors.len();
        let mut s = String::new();
        let mut i: usize = 0;
        let ghost v = serrs_view(self.errors@);
        assert(v.take(0) =~= Seq::<SErrV>::empty());
        while i < n
            invariant
                n == self.errors@.len(),
                v == serrs_view(self.errors@),
                i <= n,
                s@ == errors_text(v.take(i as int)),
            decreases n - i,
        {
            assert(v.take(i + 1).drop_last() =~= v.take(i as int));
            if i > 0 {
                push_str(&mut s, "\n");
            }
            let line = self.errors[i].text();
            push_str(&mut s, line.as_str());
            proof {
                reveal_strlit("\n");
                assert(s@ =~= errors_text(v.take(i + 1)));
            }
            i = i + 1;
        }
        assert(v.take(n as int) =~= v);
        s
    }
}

/// `$` followed by `.name` for fields and `[i]` for indices.
pub fn format_path(path: &[SchemaPathElem]) -> (r: String)
    ensures
        r@ == path_text(path_view(path@)),
{
    let ghost pv = path_view(path@);
    let mut s = String::from_str("$");
    let n = path.len();
    let mut i: usize = 0;
    assert(pv.take(0) =~= Seq::<PathV>::empty());
    while i < n
        invariant
            n == path@.len(),
            pv == path_view(path@),
            i <= n,
            s@ == path_text(pv.take(i as int)),
        decreases n - i,
    {
        assert(pv.take(i + 1).drop_last() =~= pv.take(i as int));
        match path[i] {
            SchemaPathElem::Field(name) => {
                push_char(&mut s, '.');
                push_str(&mut s, name);
                proof {
                    reveal_strlit(".");
                    assert(s@ =~= path_text(pv.take(i + 1)));
                }
            },
            SchemaPathElem::Index(k) => {
                push_char(&mut s, '[');
                push_decimal(&mut s, k as u64);
                push_char(&mut s, ']');
                proof {
                    reveal_strlit("[");
                    reveal_strlit("]");
                    assert(s@ =~= path_text(pv.take(i + 1)));
                }
            },
        }
        i = i + 1;
    }
    assert(pv.take(n as int) =~= pv);
    s
}


/// Every character of `s` is white space.
pub fn is_blank_str(s: &str) -> (r: bool)
    ensures
        r == is_blank(s@),
{
    let n = s.unicode_len();
    let mut i: usize = 0;
    while i < n
        invariant
            n == s@.len(),
            i <= n,
            forall|k: int| 0 <= k < i ==> is_white_space(#[trigger] s@[k]),
        decreases n - i,
    {
        if !white_space(s.get_char(i)) {
            return false;
        }
        i = i + 1;
    }
    true
}

fn lower_ascii(s: &str) -> (r: String)
    ensures
        r@ == ascii_lower(s@),
{
    let n = s.unicode_len();
    let mut out = String::new();
    let mut i: usize = 0;
    while i < n
        invariant
            n == s@.len(),
            i <= n,
            out@ == ascii_lower(s@).take(i as int),
        decreases n - i,
    {
        let c = s.get_char(i);
        let d = if 'A' <= c && c <= 'Z' { ((c as u32) + 32) as u8 as char } else { c };
        proof {
            if 'A' <= c && c <= 'Z' {
                assert(((c as u32) + 32) as u8 as char == ((c as u32) + 32) as char);
            }
        }
        push_char(&mut out, d);
        assert(out@ =~= ascii_lower(s@).take(i + 1));
        i = i + 1;
    }
    assert(ascii_lower(s@).take(n as int) =~= ascii_lower(s@));
    out
}

/// A known transition kind once trimmed and lowered.
pub fn is_known_kind(k: &String) -> (r: bool)
    ensures
        r == known_kind(k@),
{
    let l = lower_ascii(trim_str(k.as_str()));
    is_word(&l, "crossfade") || is_word(&l, "wipe") || is_word(&l, "slide") || is_word(&l, "zoom") || is_word(&l, "iris")
}

/// A known easing name.
pub fn is_known_ease(e: &String) -> (r: bool)
    ensures
        r == known_ease(e@),
{
    is_word(e, "hold") || is_word(e, "linear") || is_word(e, "ease_in") || is_word(e, "ease_out")
        || is_word(e, "ease_in_out") || is_word(e, "elastic_out") || is_word(e, "bounce_out")
}

fn has_str(v: &Vec<String>, s: &String) -> (r: bool)
    ensures
        r == strs_view(v@).contains(s@),
{
    let n = v.len();
    let mut i: usize = 0;
    while i < n
        invariant
            n == v@.len(),
            i <= n,
            forall|k: int| 0 <= k < i ==> v@[k]@ != s@,
        decreases n - i,
    {
        if is_word(&v[i], s.as_str()) {
            assert(strs_view(v@)[i as int] == s@);
            return true;
        }
        i = i + 1;
    }
    proof {
        if strs_view(v@).contains(s@) {
            let k = choose|k: int| 0 <= k < strs_view(v@).len() && strs_view(v@)[k] == s@;
            assert(v@[k]@ == s@);
        }
    }
    false
}

proof fn lemma_path_push(p: Seq<SchemaPathElem>, e: SchemaPathElem)
    ensures
        path_view(p.push(e)) == path_view(p) + seq![path_elem_view(e)],
{
    assert(path_view(p.push(e)) =~= path_view(p) + seq![path_elem_view(e)]);
}

fn push_field(path: &mut Vec<SchemaPathElem>, name: &'static str)
    ensures
        path_view(final(path)@) == path_view(old(path)@) + seq![fld(name@)],
        final(path)@ == old(path)@.push(SchemaPathElem::Field(name)),
{
    proof { lemma_path_push(path@, SchemaPathElem::Field(name)); }
    path.push(SchemaPathElem::Field(name));
}

fn pop_elem(path: &mut Vec<SchemaPathElem>)
    requires
        old(path)@.len() > 0,
    ensures
        final(path)@ == old(path)@.drop_last(),
{
    path.pop();
}

fn push_err(errors: &mut Vec<SchemaError>, path: &Vec<SchemaPathElem>, msg: &str)
    ensures
        serrs_view(final(errors)@) == serrs_view(old(errors)@).push(err_at(path_view(path@), msg@)),
{
    let e = SchemaError::at(path.as_slice(), msg);
    let ghost before = serrs_view(errors@);
    errors.push(e);
    assert(serrs_view(errors@) =~= before.push(err_at(path_view(path@), msg@)));
}

fn push_err_dq(errors: &mut Vec<SchemaError>, path: &Vec<SchemaPathElem>, prefix: &str, s: &String)
    ensures
        serrs_view(final(errors)@) == serrs_view(old(errors)@).push(err_at(path_view(path@), prefix@ + dq(s@))),
{
    let mut m = String::from_str(prefix);
    push_str(&mut m, "\"");
    push_str(&mut m, s.as_str());
    push_str(&mut m, "\"");
    assert(m@ =~= prefix@ + dq(s@));
    let e = SchemaError::at(path.as_slice(), m.as_str());
    let ghost before = serrs_view(errors@);
    errors.push(e);
    assert(serrs_view(errors@) =~= before.push(err_at(path_view(path@), prefix@ + dq(s@))));
}


pub(crate) proof fn lemma_children_view(node: SceneNode, mode: CollectionMode, children: Vec<SceneNode>)
    requires
        node.kind == (SceneKind::Collection { mode, children }),
    ensures
        node_view(node).kind is Collection,
        node_view(node).kind->Collection_0 == mode,
        node_view(node).kind->Collection_1 == Seq::new(children@.len(), |i: int| node_view(children@[i])),
{
    assert(node_view(node).kind->Collection_1 =~= Seq::new(children@.len(), |i: int| node_view(children@[i])));
}

proof fn lemma_child_path(path: Seq<SchemaPathElem>, k: usize)
    ensures
        path_view(path.push(SchemaPathElem::Field("kind")).push(SchemaPathElem::Field("children")).push(SchemaPathElem::Index(k)))
            == child_path(path_view(path), k as int),
{
    assert(path_view(path.push(SchemaPathElem::Field("kind")).push(SchemaPathElem::Field("children")).push(SchemaPathElem::Index(k)))
        =~= child_path(path_view(path), k as int));
}

fn push_child_path(path: &mut Vec<SchemaPathElem>, k: usize)
    ensures
        final(path)@ == old(path)@.push(SchemaPathElem::Field("kind")).push(SchemaPathElem::Field("children")).push(SchemaPathElem::Index(k)),
        path_view(final(path)@) == child_path(path_view(old(path)@), k as int),
{
    proof { lemma_child_path(path@, k); }
    path.push(SchemaPathElem::Field("kind"));
    path.push(SchemaPathElem::Field("children"));
    path.push(SchemaPathElem::Index(k));
}

fn pop_child_path(path: &mut Vec<SchemaPathElem>, Ghost(p0): Ghost<Seq<SchemaPathElem>>, k: usize)
    requires
        old(path)@ == p0.push(SchemaPathElem::Field("kind")).push(SchemaPathElem::Field("children")).push(SchemaPathElem::Index(k)),
    ensures
        final(path)@ == p0,
{
    path.pop();
    path.pop();
    path.pop();
    assert(path@ =~= p0);
}

/// First pass: id and range errors of `node` and its subtree, and the ids met.
fn collect_ids(node: &SceneNode, path: &mut Vec<SchemaPathElem>, ids: &mut Vec<String>, errors: &mut Vec<SchemaError>)
    ensures
        final(path)@ == old(path)@,
        (serrs_view(final(errors)@), strs_view(final(ids)@))
            == collect_spec(node_view(*node), path_view(old(path)@), (serrs_view(old(errors)@), strs_view(old(ids)@))),
    decreases node,
{
    let ghost p0 = path@;
    let ghost pv = path_view(path@);
    push_field(path, "id");
    if is_blank_str(node.id.as_str()) {
        push_err(errors, path, "node id must be non-empty");
    } else {
        let dup = has_str(ids, &node.id);
        let ghost before = strs_view(ids@);
        ids.push(node.id.clone());
        assert(strs_view(ids@) =~= before.push(node.id@));
        if dup {
            push_err_dq(errors, path, "duplicate node id ", &node.id);
        }
    }
    pop_elem(path);
    assert(path@ =~= p0);
    if node.range[0] > node.range[1] {
        push_field(path, "range");
        push_err(errors, path, "range must satisfy start <= end");
        pop_elem(path);
        assert(path@ =~= p0);
    }
    match &node.kind {
        SceneKind::Collection { mode, children } => {
            proof {
                lemma_children_view(*node, *mode, *children);
            }
            let ghost cv = Seq::new(children@.len(), |i: int| node_view(children@[i]));
            let n = children.len();
            if matches!(mode, CollectionMode::Sequence) {
                let ghost e0 = serrs_view(errors@);
                let mut k: usize = 0;
                while k < n
                    invariant
                        n == children@.len(),
                        cv == Seq::new(children@.len(), |i: int| node_view(children@[i])),
                        path@ == p0,
                        pv == path_view(p0),
                        k <= n,
                        seq_start_errs(cv, pv, 0, e0) == seq_start_errs(cv, pv, k as int, serrs_view(errors@)),
                    decreases n - k,
                {
                    assert(cv[k as int].range.0 == children@[k as int].range[0]);
                    if children[k].range[0] != 0 {
                        push_child_path(path, k);
                        let ghost pc = path@;
                        push_field(path, "range");
                        push_err(errors, path, "sequence child range.start must be 0");
                        pop_elem(path);
                        assert(path@ =~= pc);
                        pop_child_path(path, Ghost(p0), k);
                    }
                    k = k + 1;
                }
            }
            let ghost st0 = (serrs_view(errors@), strs_view(ids@));
            let mut k: usize = 0;
            while k < n
                invariant
                    n == children@.len(),
                    cv == Seq::new(children@.len(), |i: int| node_view(children@[i])),
                    path@ == p0,
                    pv == path_view(p0),
                    k <= n,
                    collect_children(cv, pv, 0, st0) == collect_children(cv, pv, k as int, (serrs_view(errors@), strs_view(ids@))),
                    node.kind == (SceneKind::Collection { mode: *mode, children: *children }),
                decreases n - k,
            {
                push_child_path(path, k);
                proof {
                    assert(decreases_to!(*node => node.kind));
                    assert(node.kind->children == *children);
                    assert(decreases_to!(node.kind => node.kind->children));
                    assert(decreases_to!(*children => children@));
                    assert(decreases_to!(children@ => children@[k as int]));
                }
                collect_ids(&children[k], path, ids, errors);
                pop_child_path(path, Ghost(p0), k);
                k = k + 1;
            }
        },
        _ => {},
    }
}


/// Errors of transition `t` at `path` (the path of the transition field).
fn check_transition(t: &TransitionRef, path: &mut Vec<SchemaPathElem>, errors: &mut Vec<SchemaError>)
    ensures
        final(path)@ == old(path)@,
        serrs_view(final(errors)@) == trans_errs(trans_view(*t), path_view(old(path)@), serrs_view(old(errors)@)),
{
    let ghost p0 = path@;
    push_field(path, "kind");
    if is_blank_str(t.kind.as_str()) {
        push_err(errors, path, "transition kind must be non-empty");
    } else if !is_known_kind(&t.kind) {
        push_err_dq(errors, path, "unknown transition kind ", &t.kind);
    }
    pop_elem(path);
    assert(path@ =~= p0);
    match &t.ease {
        Some(e) => {
            if !is_known_ease(e) {
                push_field(path, "ease");
                push_err_dq(errors, path, "unknown transition ease ", e);
                pop_elem(path);
                assert(path@ =~= p0);
            }
        },
        None => {},
    }
}

fn push_two(path: &mut Vec<SchemaPathElem>, a: &'static str, b: &'static str)
    ensures
        final(path)@ == old(path)@.push(SchemaPathElem::Field(a)).push(SchemaPathElem::Field(b)),
        path_view(final(path)@) == path_view(old(path)@) + seq![fld(a@), fld(b@)],
{
    let ghost p0 = path_view(path@);
    push_field(path, a);
    push_field(path, b);
    assert(path_view(path@) =~= p0 + seq![fld(a@), fld(b@)]);
}

fn pop_two(path: &mut Vec<SchemaPathElem>, Ghost(p0): Ghost<Seq<SchemaPathElem>>, Ghost(a): Ghost<SchemaPathElem>, Ghost(b): Ghost<SchemaPathElem>)
    requires
        old(path)@ == p0.push(a).push(b),
    ensures
        final(path)@ == p0,
{
    path.pop();
    path.pop();
    assert(path@ =~= p0);
}

/// Reference errors of `node` itself.
fn check_own_refs(node: &SceneNode, path: &mut Vec<SchemaPathElem>, ids: &Vec<String>, assets: &Vec<String>, errors: &mut Vec<SchemaError>)
    ensures
        final(path)@ == old(path)@,
        serrs_view(final(errors)@) == own_ref_errs(node_view(*node), path_view(old(path)@), strs_view(ids@), strs_view(assets@), serrs_view(old(errors)@)),
{
    let ghost p0 = path@;
    match &node.transition_in {
        Some(t) => {
            push_field(path, "transition_in");
            check_transition(t, path, errors);
            pop_elem(path);
            assert(path@ =~= p0);
        },
        None => {},
    }
    match &node.transition_out {
        Some(t) => {
            push_field(path, "transition_out");
            check_transition(t, path, errors);
            pop_elem(path);
            assert(path@ =~= p0);
        },
        None => {},
    }
    match &node.kind {
        SceneKind::Leaf { asset } => {
            if !has_str(assets, asset) {
                push_two(path, "kind", "asset");
                push_err_dq(errors, path, "unknown asset ", asset);
                pop_two(path, Ghost(p0), Ghost(SchemaPathElem::Field("kind")), Ghost(SchemaPathElem::Field("asset")));
            }
        },
        _ => {},
    }
    let mask_source = match &node.mask {
        Some(m) => Some(&m.source),
        None => None,
    };
    match mask_source {
        Some(MaskRef::Node(id)) => {
            if is_word(id, node.id.as_str()) {
                push_two(path, "mask", "source");
                push_err(errors, path, "mask source cannot refer to the same node id (self-mask)");
                pop_two(path, Ghost(p0), Ghost(SchemaPathElem::Field("mask")), Ghost(SchemaPathElem::Field("source")));
            } else if !has_str(ids, id) {
                push_two(path, "mask", "source");
                push_err_dq(errors, path, "unknown mask source node id ", id);
                pop_two(path, Ghost(p0), Ghost(SchemaPathElem::Field("mask")), Ghost(SchemaPathElem::Field("source")));
            }
        },
        Some(MaskRef::Asset(k)) => {
            if !has_str(assets, k) {
                push_two(path, "mask", "source");
                push_err_dq(errors, path, "unknown mask source asset ", k);
                pop_two(path, Ghost(p0), Ghost(SchemaPathElem::Field("mask")), Ghost(SchemaPathElem::Field("source")));
            }
        },
        _ => {},
    }
    match &node.transition_in {
        Some(t) => {
            if is_blank_str(t.kind.as_str()) {
                push_two(path, "transition_in", "kind");
                push_err(errors, path, "transition kind must be non-empty");
                pop_two(path, Ghost(p0), Ghost(SchemaPathElem::Field("transition_in")), Ghost(SchemaPathElem::Field("kind")));
            }
        },
        None => {},
    }
    match &node.transition_out {
        Some(t) => {
            if is_blank_str(t.kind.as_str()) {
                push_two(path, "transition_out", "kind");
                push_err(errors, path, "transition kind must be non-empty");
                pop_two(path, Ghost(p0), Ghost(SchemaPathElem::Field("transition_out")), Ghost(SchemaPathElem::Field("kind")));
            }
        },
        None => {},
    }
}

/// Second pass: reference errors of `node` and its subtree.
fn check_refs(node: &SceneNode, path: &mut Vec<SchemaPathElem>, ids: &Vec<String>, assets: &Vec<String>, errors: &mut Vec<SchemaError>)
    ensures
        final(path)@ == old(path)@,
        serrs_view(final(errors)@) == refs_spec(node_view(*node), path_view(old(path)@), strs_view(ids@), strs_view(assets@), serrs_view(old(errors)@)),
    decreases node,
{
    let ghost p0 = path@;
    let ghost pv = path_view(path@);
    check_own_refs(node, path, ids, assets, errors);
    match &node.kind {
        SceneKind::Collection { mode, children } => {
            proof {
                lemma_children_view(*node, *mode, *children);
            }
            let ghost cv = Seq::new(children@.len(), |i: int| node_view(children@[i]));
            let ghost e0 = serrs_view(errors@);
            let n = children.len();
            let mut k: usize = 0;
            while k < n
                invariant
                    n == children@.len(),
                    cv == Seq::new(children@.len(), |i: int| node_view(children@[i])),
                    path@ == p0,
                    pv == path_view(p0),
                    k <= n,
                    refs_children(cv, pv, 0, strs_view(ids@), strs_view(assets@), e0)
                        == refs_children(cv, pv, k as int, strs_view(ids@), strs_view(assets@), serrs_view(errors@)),
                    node.kind == (SceneKind::Collection { mode: *mode, children: *children }),
                decreases n - k,
            {
                push_child_path(path, k);
                proof {
                    assert(decreases_to!(*node => node.kind));
                    assert(node.kind->children == *children);
                    assert(decreases_to!(node.kind => node.kind->children));
                    assert(decreases_to!(*children => children@));
                    assert(decreases_to!(children@ => children@[k as int]));
                }
                check_refs(&children[k], path, ids, assets, errors);
                pop_child_path(path, Ghost(p0), k);
                k = k + 1;
            }
        },
        _ => {},
    }
}

/// `f64` bits `b` are NaN.
fn bits_is_nan(b: u64) -> (r: bool)
    ensures
        r == f64_is_nan(b),
{
    b % 0x8000_0000_0000_0000 > 0x7ff0_0000_0000_0000
}

/// `a < b` on `f64` bits.
fn bits_lt(a: u64, b: u64) -> (r: bool)
    ensures
        r == f64_lt(a, b),
{
    if bits_is_nan(a) || bits_is_nan(b) {
        return false;
    }
    let ma = a % 0x8000_0000_0000_0000;
    let mb = b % 0x8000_0000_0000_0000;
    let na = a >= 0x8000_0000_0000_0000;
    let nb = b >= 0x8000_0000_0000_0000;
    if na && nb {
        mb < ma
    } else if na {
        !(ma == 0 && mb == 0)
    } else if nb {
        false
    } else {
        ma < mb
    }
}

/// Not finite, or below zero.
fn bits_bad_nonneg(b: u64) -> (r: bool)
    ensures
        r == bad_nonneg(b),
{
    !(b % 0x8000_0000_0000_0000 < 0x7ff0_0000_0000_0000) || bits_lt(b, 0)
}

/// Not finite, or not above zero.
fn bits_bad_positive(b: u64) -> (r: bool)
    ensures
        r == bad_positive(b),
{
    !(b % 0x8000_0000_0000_0000 < 0x7ff0_0000_0000_0000) || bits_is_nan(b) || !bits_lt(0, b)
}

/// Push `asset '<key>': <what>` at `$.assets`.
fn push_asset_err(errors: &mut Vec<SchemaError>, key: &String, what: &str)
    ensures
        serrs_view(final(errors)@) == serrs_view(old(errors)@).push(err_at(seq![fld("assets"@)], asset_msg(key@, what@))),
{
    let mut m = String::from_str("asset '");
    push_str(&mut m, key.as_str());
    push_str(&mut m, "': ");
    push_str(&mut m, what);
    assert(m@ =~= asset_msg(key@, what@));
    let mut path: Vec<SchemaPathElem> = Vec::new();
    push_field(&mut path, "assets");
    assert(path_view(path@) =~= seq![fld("assets"@)]);
    push_err(errors, &path, m.as_str());
}

/// Errors of one asset's playback parameters.
fn check_media(key: &String, m: &Option<MediaParams>, errors: &mut Vec<SchemaError>)
    ensures
        serrs_view(final(errors)@) == serrs_view(old(errors)@) + media_errs(key@, *m),
{
    let ghost e0 = serrs_view(errors@);
    match m {
        None => {
            assert(e0 + Seq::<SErrV>::empty() =~= e0);
        },
        Some(mp) => {
            let ghost p = seq![fld("assets"@)];
            let ghost mut e = Seq::<SErrV>::empty();
            if bits_bad_nonneg(mp.trim_start_sec_bits) {
                push_asset_err(errors, key, "trim_start_sec must be finite and >= 0");
                proof { e = e.push(err_at(p, asset_msg(key@, "trim_start_sec must be finite and >= 0"@))); }
            }
            assert(serrs_view(errors@) =~= e0 + e);
            match mp.trim_end_sec_bits {
                Some(end) => {
                    if bits_bad_nonneg(end) {
                        push_asset_err(errors, key, "trim_end_sec must be finite and >= 0");
                        proof { e = e.push(err_at(p, asset_msg(key@, "trim_end_sec must be finite and >= 0"@))); }
                    }
                    assert(serrs_view(errors@) =~= e0 + e);
                    if bits_lt(end, mp.trim_start_sec_bits) {
                        push_asset_err(errors, key, "trim_end_sec must be >= trim_start_sec");
                        proof { e = e.push(err_at(p, asset_msg(key@, "trim_end_sec must be >= trim_start_sec"@))); }
                    }
                    assert(serrs_view(errors@) =~= e0 + e);
                },
                None => {},
            }
            if bits_bad_positive(mp.playback_rate_bits) {
                push_asset_err(errors, key, "playback_rate must be finite and > 0");
                proof { e = e.push(err_at(p, asset_msg(key@, "playback_rate must be finite and > 0"@))); }
            }
            assert(serrs_view(errors@) =~= e0 + e);
            if bits_bad_nonneg(mp.volume_bits) {
                push_asset_err(errors, key, "volume must be finite and >= 0");
                proof { e = e.push(err_at(p, asset_msg(key@, "volume must be finite and >= 0"@))); }
            }
            assert(serrs_view(errors@) =~= e0 + e);
            if bits_bad_nonneg(mp.fade_in_sec_bits) {
                push_asset_err(errors, key, "fade_in_sec must be finite and >= 0");
                proof { e = e.push(err_at(p, asset_msg(key@, "fade_in_sec must be finite and >= 0"@))); }
            }
            assert(serrs_view(errors@) =~= e0 + e);
            if bits_bad_nonneg(mp.fade_out_sec_bits) {
                push_asset_err(errors, key, "fade_out_sec must be finite and >= 0");
                proof { e = e.push(err_at(p, asset_msg(key@, "fade_out_sec must be finite and >= 0"@))); }
            }
            assert(serrs_view(errors@) =~= e0 + e);
            assert(e == media_errs(key@, *m));
        },
    }
}

/// Validate a composition: version, root range, node ids and ranges, references, then the
/// playback parameters of video and audio assets. `Ok` exactly when no error was found.
pub fn validate_composition(skel: &SceneSkeleton) -> (r: Result<(), SchemaErrors>)
    ensures
        match r {
            Ok(()) => all_errs(*skel).len() == 0,
            Err(e) => serrs_view(e.errors@) == all_errs(*skel) && e.errors@.len() > 0,
        },
{
    let mut errors: Vec<SchemaError> = Vec::new();
    let mut path: Vec<SchemaPathElem> = Vec::new();
    let ghost nv = node_view(skel.root);
    assert(nv.range == (skel.root.range[0], skel.root.range[1]));
    if !is_word(&skel.version, "0.3") {
        push_field(&mut path, "version");
        push_err(&mut errors, &path, "version must be \"0.3\"");
        pop_elem(&mut path);
        assert(path_view(Seq::<SchemaPathElem>::empty()) + seq![fld("version"@)] =~= seq![fld("version"@)]);
    }
    assert(path@ =~= Seq::<SchemaPathElem>::empty());
    let ghost e0 = serrs_view(errors@);
    assert(e0 =~= (if skel.version@ == "0.3"@ { Seq::<SErrV>::empty() } else { seq![err_at(seq![fld("version"@)], "version must be \"0.3\""@)] }));
    if skel.root.range[0] != 0 || skel.root.range[1] != skel.duration {
        push_two(&mut path, "root", "range");
        push_err(&mut errors, &path, "root.range must be [0, composition.duration]");
        pop_two(&mut path, Ghost(Seq::empty()), Ghost(SchemaPathElem::Field("root")), Ghost(SchemaPathElem::Field("range")));
        assert(path_view(Seq::<SchemaPathElem>::empty()) + seq![fld("root"@), fld("range"@)] =~= seq![fld("root"@), fld("range"@)]);
    }
    assert(serrs_view(errors@) == head_errs(skel.version@, skel.duration, nv.range));
    push_field(&mut path, "root");
    assert(path_view(path@) =~= seq![fld("root"@)]);
    let mut ids: Vec<String> = Vec::new();
    assert(strs_view(ids@) =~= Seq::<Seq<char>>::empty());
    collect_ids(&skel.root, &mut path, &mut ids, &mut errors);
    check_refs(&skel.root, &mut path, &ids, &skel.asset_keys, &mut errors);
    let ghost before = serrs_view(errors@);
    let ghost keys = strs_view(skel.asset_keys@);
    let nk = skel.asset_keys.len();
    let mut k: usize = 0;
    assert(before + asset_errs(keys, skel.asset_media@, 0) =~= before);
    while k < nk
        invariant
            nk == skel.asset_keys@.len(),
            keys == strs_view(skel.asset_keys@),
            k <= nk,
            serrs_view(errors@) == before + asset_errs(keys, skel.asset_media@, k as int),
        decreases nk - k,
    {
        let none: Option<MediaParams> = None;
        let m = if k < skel.asset_media.len() { &skel.asset_media[k] } else { &none };
        assert(*m == media_at(skel.asset_media@, k as int));
        check_media(&skel.asset_keys[k], m, &mut errors);
        assert(asset_errs(keys, skel.asset_media@, k as int + 1)
            == asset_errs(keys, skel.asset_media@, k as int) + media_errs(keys[k as int], media_at(skel.asset_media@, k as int)));
        assert(serrs_view(errors@) =~= before + asset_errs(keys, skel.asset_media@, k as int + 1));
        k = k + 1;
    }
    if errors.len() == 0 {
        Ok(())
    } else {
        Err(SchemaErrors { errors })
    }
}


/// Validation accepts exactly the transition eases that name an easing curve: an ease passes
/// if and only if `ease_by_name` finds a curve for it.
pub proof fn law_known_eases_are_the_easing_curves(e: Seq<char>)
    ensures
        known_ease(e) <==> crate::transition::ease_named(e) is Some,
{
}

} // verus!
