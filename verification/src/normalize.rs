//! Normalization of a validated scene tree into the node arena that time, visibility,
//! evaluation and plan compilation read.
//!
//! The asset keys are interned first, in table order, so asset `k` has intern id `k`. Then the
//! nodes are laid out in pre-order: a node's index is allocated before its children's, so every
//! child index is larger than its parent's. Each node interns, in this order, its id, its effect
//! kinds, the name in its mask source, its transition kinds and, for a leaf, its asset key;
//! then its children follow.
use vstd::prelude::*;
use crate::intern::StringInterner;
use crate::plan::{AssetIdx, InternId, NodeIdx, PassFx, ShapeIR};
use crate::schema::{
    all_errs, lemma_children_view, node_view, own_ref_errs, refs_children, refs_spec, serrs_view, strs_view,
    structural_errs, validate_composition, CollectionMode, KindV, MaskDef, MaskRef, NodeV, PathV, SErrV, SceneKind,
    SceneNode, SceneSkeleton, SchemaErrors, ShapeDef, TransitionRef,
};
use crate::tree::{children_of, tree_wf, MaskIR, MaskSourceIR, NodeIR, NodeKindIR, TransitionSpecIR};

verus! {

// ---------------------------------------------------------------------------------------------
// The scene tree in pre-order
// ---------------------------------------------------------------------------------------------

/// The nodes of the subtree at `n`, in pre-order.
pub open spec fn flat(n: SceneNode) -> Seq<SceneNode>
    decreases n, 0int,
{
    seq![n] + match n.kind {
        SceneKind::Collection { children, .. } => flat_upto(children@, children@.len() as int),
        _ => Seq::empty(),
    }
}

/// The pre-order nodes of children `0..k`.
pub open spec fn flat_upto(ch: Seq<SceneNode>, k: int) -> Seq<SceneNode>
    decreases ch, k,
{
    if 0 < k <= ch.len() {
        flat_upto(ch, k - 1) + flat(ch[k - 1])
    } else {
        Seq::empty()
    }
}

/// Names in a mask source that are interned.
pub open spec fn mask_strs(m: Option<MaskDef>) -> Seq<Seq<char>> {
    match m {
        Some(md) => match md.source {
            MaskRef::Node(s) => seq![s@],
            MaskRef::Asset(s) => seq![s@],
            MaskRef::Shape(ShapeDef::Path { svg_path_d }) => seq![svg_path_d@],
            MaskRef::Shape(_) => Seq::empty(),
        },
        None => Seq::empty(),
    }
}

/// The kind name of a transition, if any.
pub open spec fn trans_strs(t: Option<TransitionRef>) -> Seq<Seq<char>> {
    match t {
        Some(tr) => seq![tr.kind@],
        None => Seq::empty(),
    }
}

/// The asset key of a leaf.
pub open spec fn leaf_strs(k: SceneKind) -> Seq<Seq<char>> {
    match k {
        SceneKind::Leaf { asset } => seq![asset@],
        _ => Seq::empty(),
    }
}

/// Strings a node interns before its leaf asset: id, effect kinds, mask name, transition kinds.
pub open spec fn own_strs(n: SceneNode) -> Seq<Seq<char>> {
    seq![n.id@] + strs_view(n.effect_kinds@) + mask_strs(n.mask) + trans_strs(n.transition_in)
        + trans_strs(n.transition_out)
}

/// Strings the subtree at `n` interns, in order.
pub open spec fn tree_strs(n: SceneNode) -> Seq<Seq<char>>
    decreases n, 0int,
{
    own_strs(n) + leaf_strs(n.kind) + match n.kind {
        SceneKind::Collection { children, .. } => strs_upto(children@, children@.len() as int),
        _ => Seq::empty(),
    }
}

/// Strings children `0..k` intern, in order.
pub open spec fn strs_upto(ch: Seq<SceneNode>, k: int) -> Seq<Seq<char>>
    decreases ch, k,
{
    if 0 < k <= ch.len() {
        strs_upto(ch, k - 1) + tree_strs(ch[k - 1])
    } else {
        Seq::empty()
    }
}

/// Strings the children of a collection intern, in order.
pub open spec fn child_strs(k: SceneKind) -> Seq<Seq<char>> {
    match k {
        SceneKind::Collection { children, .. } => strs_upto(children@, children@.len() as int),
        _ => Seq::empty(),
    }
}

/// Interning one string: appended when new.
pub open spec fn intern1(t: Seq<Seq<char>>, s: Seq<char>) -> Seq<Seq<char>> {
    if t.contains(s) { t } else { t.push(s) }
}

/// Interning strings in order.
pub open spec fn intern_all(t: Seq<Seq<char>>, ss: Seq<Seq<char>>) -> Seq<Seq<char>>
    decreases ss.len(),
{
    if ss.len() == 0 { t } else { intern1(intern_all(t, ss.drop_last()), ss.last()) }
}

/// `u64` addition that stops at the maximum.
pub open spec fn sat_add(a: u64, b: u64) -> u64 {
    if a + b > u64::MAX { u64::MAX } else { (a + b) as u64 }
}

/// Start offset of sequence child `k`: the running sum of the range ends of children `0..k`.
pub open spec fn prefix_start(ch: Seq<SceneNode>, k: int) -> u64
    decreases k,
{
    if k <= 0 || k > ch.len() { 0 } else { sat_add(prefix_start(ch, k - 1), ch[k - 1].range[1]) }
}

// ---------------------------------------------------------------------------------------------
// What a normalized node is
// ---------------------------------------------------------------------------------------------

/// Id `id` names `s` in table `t`.
pub open spec fn names(t: Seq<Seq<char>>, id: InternId, s: Seq<char>) -> bool {
    id.0 < t.len() && t[id.0 as int] == s
}

pub open spec fn shape_ok(ir: ShapeIR, d: ShapeDef, t: Seq<Seq<char>>) -> bool {
    match d {
        ShapeDef::Rect { width_bits, height_bits } => ir == (ShapeIR::Rect { width_bits, height_bits }),
        ShapeDef::RoundedRect { width_bits, height_bits, radius_bits } =>
            ir == (ShapeIR::RoundedRect { width_bits, height_bits, radius_bits }),
        ShapeDef::Ellipse { rx_bits, ry_bits } => ir == (ShapeIR::Ellipse { rx_bits, ry_bits }),
        ShapeDef::Path { svg_path_d } => ir matches ShapeIR::Path { svg_path_d: id } && names(t, id, svg_path_d@),
    }
}

pub open spec fn mask_ok(ir: Option<MaskIR>, d: Option<MaskDef>, t: Seq<Seq<char>>) -> bool {
    match d {
        None => ir is None,
        Some(md) => ir matches Some(m) && m.mode == md.mode && m.inverted == md.inverted && match md.source {
            MaskRef::Node(s) => m.source matches MaskSourceIR::Node(id) && names(t, id, s@),
            MaskRef::Asset(s) => m.source matches MaskSourceIR::Asset(id) && names(t, id, s@),
            MaskRef::Shape(sh) => m.source matches MaskSourceIR::Shape(si) && shape_ok(si, sh, t),
        },
    }
}

pub open spec fn trans_ok(ir: Option<TransitionSpecIR>, d: Option<TransitionRef>, t: Seq<Seq<char>>) -> bool {
    match d {
        None => ir is None,
        Some(tr) => ir matches Some(x) && names(t, x.kind, tr.kind@) && x.duration_frames == tr.duration_frames,
    }
}

/// The kind of the node at arena index `idx`: a leaf names its asset's table index; a
/// collection lists its children's indices (each after the subtrees of the ones before it)
/// and, for a sequence, the children's start offsets.
pub open spec fn kind_ok(ir: NodeKindIR, d: SceneKind, idx: int, nkeys: int, t: Seq<Seq<char>>) -> bool {
    match d {
        SceneKind::Leaf { asset } => ir matches NodeKindIR::Leaf { asset: a } && a.0 < nkeys
            && a.0 < t.len() && t[a.0 as int] == asset@,
        SceneKind::Collection { mode, children } => ir matches NodeKindIR::Collection {
            mode: m, children: c, sequence_prefix_starts: p } && m == mode
            && c@.len() == children@.len()
            && (forall|k: int| 0 <= k < c@.len() ==> #[trigger] c@[k].0 == idx + 1 + flat_upto(children@, k).len())
            && (if mode == CollectionMode::Sequence {
                p matches Some(v) && v@.len() == children@.len() + 1
                    && forall|k: int| 0 <= k <= children@.len() ==> #[trigger] v@[k] == prefix_start(children@, k)
            } else {
                p is None
            }),
        SceneKind::CompRef => ir is CompRef,
    }
}

/// Node `ir` at arena index `idx` is the normalized form of `d`.
pub open spec fn node_ok(ir: NodeIR, d: SceneNode, idx: int, nkeys: int, t: Seq<Seq<char>>) -> bool {
    &&& ir.range_start == d.range[0]
    &&& ir.range_end == d.range[1]
    &&& kind_ok(ir.kind, d.kind, idx, nkeys, t)
    &&& mask_ok(ir.mask, d.mask, t)
    &&& ir.has_effects == (d.effect_kinds@.len() > 0)
    &&& ir.effect_passes@ == d.effect_passes@
    &&& ir.blend == d.blend
    &&& trans_ok(ir.transition_in, d.transition_in, t)
    &&& trans_ok(ir.transition_out, d.transition_out, t)
}

/// The children of node `j` lie after it and before `end`.
pub open spec fn children_in(nodes: Seq<NodeIR>, j: int, end: int) -> bool {
    forall|k: int| 0 <= k < children_of(nodes, j).len() ==> j < (#[trigger] children_of(nodes, j)[k]).0 < end
}

/// A leaf names a key in `keys` (other nodes trivially do).
pub open spec fn leaf_known(n: SceneNode, keys: Seq<Seq<char>>) -> bool {
    match n.kind {
        SceneKind::Leaf { asset } => keys.contains(asset@),
        _ => true,
    }
}

/// Every leaf of the subtree at `n` names a key in `keys`.
pub open spec fn leaves_known(n: SceneNode, keys: Seq<Seq<char>>) -> bool {
    forall|i: int| 0 <= i < flat(n).len() ==> leaf_known(#[trigger] flat(n)[i], keys)
}

/// The normalized scene tree: the node arena in pre-order, the interned strings and the
/// lookup tables from interned names to nodes and assets.
pub struct NormalizedTree {
    /// Interned strings.
    pub interner: StringInterner,
    /// The node arena, in pre-order.
    pub nodes: Vec<NodeIR>,
    /// Index of the root node.
    pub root: NodeIdx,
    /// Interned id of each node.
    pub node_id_by_idx: Vec<InternId>,
    /// Node by interned id, over all interned strings.
    pub node_idx_by_intern: Vec<Option<NodeIdx>>,
    /// Interned key of each asset.
    pub asset_key_by_idx: Vec<InternId>,
    /// Asset by interned key, over all interned strings.
    pub asset_idx_by_intern: Vec<Option<AssetIdx>>,
}

/// The last of the first `n` nodes whose id is intern id `i`.
pub open spec fn last_node_named(ids: Seq<InternId>, i: int, n: int) -> Option<NodeIdx>
    decreases n,
{
    if n <= 0 {
        None
    } else if ids[n - 1].0 == i {
        Some(NodeIdx((n - 1) as u32))
    } else {
        last_node_named(ids, i, n - 1)
    }
}

/// `t` is the normalized form of a composition with asset keys `keys` (in table order) and
/// root `root`.
pub open spec fn normalized(t: NormalizedTree, keys: Seq<Seq<char>>, root: SceneNode) -> bool {
    let nk = keys.len() as int;
    let tab = intern_all(keys, tree_strs(root));
    let fl = flat(root);
    &&& t.interner.wf()
    &&& t.interner@ == tab
    &&& extends(tab, keys)
    &&& t.root == NodeIdx(0)
    &&& t.nodes@.len() == fl.len()
    &&& t.node_id_by_idx@.len() == fl.len()
    &&& tree_wf(t.nodes@)
    &&& forall|j: int| 0 <= j < fl.len() ==> {
        &&& node_ok(#[trigger] t.nodes@[j], fl[j], j, nk, tab)
        &&& names(tab, t.node_id_by_idx@[j], fl[j].id@)
    }
    &&& t.asset_key_by_idx@.len() == nk
    &&& forall|k: int| 0 <= k < nk ==> #[trigger] t.asset_key_by_idx@[k] == InternId(k as u32)
    &&& t.asset_idx_by_intern@.len() == tab.len()
    &&& forall|i: int| 0 <= i < tab.len() ==> #[trigger] t.asset_idx_by_intern@[i]
        == (if i < nk { Some(AssetIdx(i as u32)) } else { None })
    &&& t.node_idx_by_intern@.len() == tab.len()
    &&& forall|i: int| 0 <= i < tab.len() ==> #[trigger] t.node_idx_by_intern@[i]
        == last_node_named(t.node_id_by_idx@, i, fl.len() as int)
}

// ---------------------------------------------------------------------------------------------
// Lemmas
// ---------------------------------------------------------------------------------------------

proof fn lemma_intern_all_concat(t: Seq<Seq<char>>, a: Seq<Seq<char>>, b: Seq<Seq<char>>)
    ensures
        intern_all(t, a + b) == intern_all(intern_all(t, a), b),
    decreases b.len(),
{
    if b.len() == 0 {
        assert(a + b =~= a);
    } else {
        assert((a + b).drop_last() =~= a + b.drop_last());
        assert((a + b).last() == b.last());
        lemma_intern_all_concat(t, a, b.drop_last());
    }
}

/// Interning keeps the table's entries, adds at most one entry per string, keeps entries
/// distinct and ends up holding every interned string.
proof fn lemma_intern_all_grows(t: Seq<Seq<char>>, ss: Seq<Seq<char>>)
    ensures
        t.len() <= intern_all(t, ss).len() <= t.len() + ss.len(),
        forall|i: int| 0 <= i < t.len() ==> #[trigger] intern_all(t, ss)[i] == t[i],
        forall|i: int| 0 <= i < ss.len() ==> intern_all(t, ss).contains(#[trigger] ss[i]),
        (forall|i: int, j: int| 0 <= i < j < t.len() ==> t[i] != t[j]) ==>
            (forall|i: int, j: int| 0 <= i < j < intern_all(t, ss).len() ==> intern_all(t, ss)[i] != intern_all(t, ss)[j]),
    decreases ss.len(),
{
    if ss.len() > 0 {
        let p = intern_all(t, ss.drop_last());
        lemma_intern_all_grows(t, ss.drop_last());
        let r = intern1(p, ss.last());
        assert(r == intern_all(t, ss));
        assert forall|i: int| 0 <= i < ss.len() implies r.contains(#[trigger] ss[i]) by {
            if i < ss.len() - 1 {
                assert(ss.drop_last()[i] == ss[i]);
                let w = choose|w: int| 0 <= w < p.len() && p[w] == ss[i];
                assert(r[w] == ss[i]);
            } else {
                if !p.contains(ss.last()) {
                    assert(r[p.len() as int] == ss.last());
                }
            }
        }
        if forall|i: int, j: int| 0 <= i < j < t.len() ==> t[i] != t[j] {
            assert forall|i: int, j: int| 0 <= i < j < r.len() implies r[i] != r[j] by {
                if j == p.len() {
                    assert(!p.contains(ss.last()));
                    assert(r[i] == p[i]);
                }
            }
        }
    }
}

proof fn lemma_flat_upto_prefix(ch: Seq<SceneNode>, k: int, k2: int)
    requires
        0 <= k <= k2 <= ch.len(),
    ensures
        flat_upto(ch, k).len() <= flat_upto(ch, k2).len(),
        forall|i: int| 0 <= i < flat_upto(ch, k).len() ==> #[trigger] flat_upto(ch, k2)[i] == flat_upto(ch, k)[i],
        k < k2 ==> flat_upto(ch, k).len() < flat_upto(ch, k2).len(),
    decreases k2 - k,
{
    if k < k2 {
        lemma_flat_upto_prefix(ch, k, k2 - 1);
        assert(flat_upto(ch, k2) == flat_upto(ch, k2 - 1) + flat(ch[k2 - 1]));
        assert(flat(ch[k2 - 1]).len() > 0);
    }
}

/// A subtree has no more nodes than strings: each node interns its id.
proof fn lemma_flat_le_strs(n: SceneNode)
    ensures
        flat(n).len() <= tree_strs(n).len(),
    decreases n, 0int,
{
    match n.kind {
        SceneKind::Collection { children, .. } => {
            lemma_flat_le_strs_upto(children@, children@.len() as int);
        },
        _ => {},
    }
}

proof fn lemma_flat_le_strs_upto(ch: Seq<SceneNode>, k: int)
    ensures
        flat_upto(ch, k).len() <= strs_upto(ch, k).len(),
    decreases ch, k,
{
    if 0 < k <= ch.len() {
        lemma_flat_le_strs_upto(ch, k - 1);
        lemma_flat_le_strs(ch[k - 1]);
    }
}


/// `t2` keeps the entries of `t` and may add more after them.
pub open spec fn extends(t2: Seq<Seq<char>>, t: Seq<Seq<char>>) -> bool {
    t.len() <= t2.len() && forall|i: int| 0 <= i < t.len() ==> #[trigger] t2[i] == t[i]
}

proof fn lemma_node_ok_extends(ir: NodeIR, d: SceneNode, idx: int, nkeys: int, t: Seq<Seq<char>>, t2: Seq<Seq<char>>)
    requires
        node_ok(ir, d, idx, nkeys, t),
        extends(t2, t),
    ensures
        node_ok(ir, d, idx, nkeys, t2),
{
    match d.mask {
        Some(md) => {
            match md.source {
                MaskRef::Shape(sh) => {
                    match sh {
                        ShapeDef::Path { svg_path_d } => {},
                        _ => {},
                    }
                },
                _ => {},
            }
        },
        None => {},
    }
}

proof fn lemma_node_ok_extends_aux(mask: Option<MaskIR>, tin: Option<TransitionSpecIR>, tout: Option<TransitionSpecIR>,
    d: SceneNode, t: Seq<Seq<char>>, t2: Seq<Seq<char>>)
    requires
        mask_ok(mask, d.mask, t),
        trans_ok(tin, d.transition_in, t),
        trans_ok(tout, d.transition_out, t),
        extends(t2, t),
    ensures
        mask_ok(mask, d.mask, t2),
        trans_ok(tin, d.transition_in, t2),
        trans_ok(tout, d.transition_out, t2),
{
    match d.mask {
        Some(md) => {
            match md.source {
                MaskRef::Shape(sh) => {
                    match sh {
                        ShapeDef::Path { svg_path_d } => {},
                        _ => {},
                    }
                },
                _ => {},
            }
        },
        None => {},
    }
}

proof fn lemma_extends_trans(t3: Seq<Seq<char>>, t2: Seq<Seq<char>>, t: Seq<Seq<char>>)
    requires
        extends(t3, t2),
        extends(t2, t),
    ensures
        extends(t3, t),
{
    assert forall|i: int| 0 <= i < t.len() implies #[trigger] t3[i] == t[i] by {
        assert(t3[i] == t2[i]);
    }
}

proof fn lemma_strs_upto_len(ch: Seq<SceneNode>, k: int, k2: int)
    requires
        0 <= k <= k2 <= ch.len(),
    ensures
        strs_upto(ch, k).len() <= strs_upto(ch, k2).len(),
    decreases k2 - k,
{
    if k < k2 {
        lemma_strs_upto_len(ch, k, k2 - 1);
    }
}

/// Child `k`'s subtree sits in the children's pre-order right after the subtrees before it.
proof fn lemma_flat_child(ch: Seq<SceneNode>, k: int)
    requires
        0 <= k < ch.len(),
    ensures
        flat_upto(ch, k).len() + flat(ch[k]).len() <= flat_upto(ch, ch.len() as int).len(),
        forall|m: int| 0 <= m < flat(ch[k]).len() ==>
            #[trigger] flat_upto(ch, ch.len() as int)[flat_upto(ch, k).len() + m] == flat(ch[k])[m],
{
    lemma_flat_upto_prefix(ch, k + 1, ch.len() as int);
    assert(flat_upto(ch, k + 1) == flat_upto(ch, k) + flat(ch[k]));
    assert forall|m: int| 0 <= m < flat(ch[k]).len() implies
        #[trigger] flat_upto(ch, ch.len() as int)[flat_upto(ch, k).len() + m] == flat(ch[k])[m] by {
        assert(flat_upto(ch, ch.len() as int)[flat_upto(ch, k).len() + m] == flat_upto(ch, k + 1)[flat_upto(ch, k).len() + m]);
    }
}

/// Every leaf of the viewed subtree names a known asset.
pub open spec fn leaves_known_v(n: NodeV, assets: Seq<Seq<char>>) -> bool
    decreases n, 0int,
{
    match n.kind {
        KindV::Leaf(a) => assets.contains(a),
        KindV::Collection(_, children) => leaves_known_v_from(children, 0, assets),
        KindV::CompRef => true,
    }
}

/// Every leaf below children `k..` names a known asset.
pub open spec fn leaves_known_v_from(ch: Seq<NodeV>, k: int, assets: Seq<Seq<char>>) -> bool
    decreases ch, ch.len() - k,
{
    if 0 <= k < ch.len() {
        leaves_known_v(ch[k], assets) && leaves_known_v_from(ch, k + 1, assets)
    } else {
        true
    }
}

/// The reference pass only adds errors, and adds one for a leaf whose asset is unknown.
proof fn lemma_refs_grow(n: NodeV, path: Seq<PathV>, ids: Seq<Seq<char>>, assets: Seq<Seq<char>>, errs: Seq<SErrV>)
    ensures
        refs_spec(n, path, ids, assets, errs).len() >= errs.len(),
        refs_spec(n, path, ids, assets, errs).len() == errs.len() ==> leaves_known_v(n, assets),
    decreases n, 0int,
{
    let e1 = own_ref_errs(n, path, ids, assets, errs);
    assert(e1.len() >= errs.len());
    match n.kind {
        KindV::Leaf(a) => {
            assert(!assets.contains(a) ==> e1.len() > errs.len());
        },
        KindV::Collection(_, children) => {
            lemma_refs_children_grow(children, path, 0, ids, assets, e1);
        },
        KindV::CompRef => {},
    }
}

proof fn lemma_refs_children_grow(ch: Seq<NodeV>, path: Seq<PathV>, k: int, ids: Seq<Seq<char>>, assets: Seq<Seq<char>>, errs: Seq<SErrV>)
    ensures
        refs_children(ch, path, k, ids, assets, errs).len() >= errs.len(),
        refs_children(ch, path, k, ids, assets, errs).len() == errs.len() ==> leaves_known_v_from(ch, k, assets),
    decreases ch, ch.len() - k,
{
    if 0 <= k < ch.len() {
        let e1 = refs_spec(ch[k], crate::schema::child_path(path, k), ids, assets, errs);
        lemma_refs_grow(ch[k], crate::schema::child_path(path, k), ids, assets, errs);
        lemma_refs_children_grow(ch, path, k + 1, ids, assets, e1);
    }
}

proof fn lemma_known_from_all(ch: Seq<NodeV>, k: int, assets: Seq<Seq<char>>)
    requires
        0 <= k,
        leaves_known_v_from(ch, k, assets),
    ensures
        forall|m: int| k <= m < ch.len() ==> leaves_known_v(#[trigger] ch[m], assets),
    decreases ch.len() - k,
{
    if k < ch.len() {
        lemma_known_from_all(ch, k + 1, assets);
    }
}

/// Known leaves of the viewed tree are known leaves of the tree.
proof fn lemma_leaves_known_view(n: SceneNode, keys: Seq<Seq<char>>)
    requires
        leaves_known_v(node_view(n), keys),
    ensures
        leaves_known(n, keys),
    decreases n, 0int,
{
    match n.kind {
        SceneKind::Collection { mode, children } => {
            lemma_children_view(n, mode, children);
            let cv = Seq::new(children@.len(), |i: int| node_view(children@[i]));
            lemma_known_from_all(cv, 0, keys);
            assert forall|m: int| 0 <= m < children@.len() implies leaves_known_v(node_view(#[trigger] children@[m]), keys) by {
                assert(cv[m] == node_view(children@[m]));
            }
            lemma_leaves_known_view_upto(children@, children@.len() as int, keys);
            assert forall|i: int| 0 <= i < flat(n).len() implies leaf_known(#[trigger] flat(n)[i], keys) by {
                if i > 0 {
                    assert(flat(n)[i] == flat_upto(children@, children@.len() as int)[i - 1]);
                }
            }
        },
        _ => {
            assert(flat(n) =~= seq![n]);
        },
    }
}

proof fn lemma_leaves_known_view_upto(ch: Seq<SceneNode>, k: int, keys: Seq<Seq<char>>)
    requires
        forall|m: int| 0 <= m < ch.len() ==> leaves_known_v(node_view(#[trigger] ch[m]), keys),
    ensures
        forall|i: int| 0 <= i < flat_upto(ch, k).len() ==> leaf_known(#[trigger] flat_upto(ch, k)[i], keys),
    decreases ch, k,
{
    if 0 < k <= ch.len() {
        lemma_leaves_known_view_upto(ch, k - 1, keys);
        lemma_leaves_known_view(ch[k - 1], keys);
        assert(flat_upto(ch, k) == flat_upto(ch, k - 1) + flat(ch[k - 1]));
        assert forall|i: int| 0 <= i < flat_upto(ch, k).len() implies leaf_known(#[trigger] flat_upto(ch, k)[i], keys) by {
            if i >= flat_upto(ch, k - 1).len() {
                assert(flat_upto(ch, k)[i] == flat(ch[k - 1])[i - flat_upto(ch, k - 1).len()]);
            } else {
                assert(flat_upto(ch, k)[i] == flat_upto(ch, k - 1)[i]);
            }
        }
    }
}

proof fn lemma_last_named(ids: Seq<InternId>, i: int, j: int, n: int)
    requires
        0 <= j < n <= ids.len(),
        ids[j].0 == i,
        forall|m: int| j < m < n ==> (#[trigger] ids[m]).0 != i,
    ensures
        last_node_named(ids, i, n) == Some(NodeIdx(j as u32)),
    decreases n,
{
    if n - 1 > j {
        lemma_last_named(ids, i, j, n - 1);
    }
}

/// Looking a node up by its interned id gives back that node, when node ids are distinct
/// (as validation guarantees).
pub proof fn law_node_lookup_by_id(t: NormalizedTree, keys: Seq<Seq<char>>, root: SceneNode, j: int)
    requires
        normalized(t, keys, root),
        forall|a: int, b: int| 0 <= a < b < flat(root).len() ==> flat(root)[a].id@ != flat(root)[b].id@,
        0 <= j < flat(root).len(),
    ensures
        t.node_id_by_idx@[j].0 < t.node_idx_by_intern@.len(),
        t.node_idx_by_intern@[t.node_id_by_idx@[j].0 as int] == Some(NodeIdx(j as u32)),
{
    let fl = flat(root);
    let tab = intern_all(keys, tree_strs(root));
    let ids = t.node_id_by_idx@;
    let i = ids[j].0 as int;
    assert(node_ok(t.nodes@[j], fl[j], j, keys.len() as int, tab));
    assert forall|m: int| j < m < fl.len() implies (#[trigger] ids[m]).0 != i by {
        assert(node_ok(t.nodes@[m], fl[m], m, keys.len() as int, tab));
        assert(tab[ids[m].0 as int] == fl[m].id@);
        assert(fl[j].id@ != fl[m].id@);
    }
    lemma_last_named(ids, i, j, fl.len() as int);
}

// ---------------------------------------------------------------------------------------------
// Executable
// ---------------------------------------------------------------------------------------------

/// Intern `s` as the next string after `done`.
fn intern_step(interner: &mut StringInterner, s: &str, Ghost(t0): Ghost<Seq<Seq<char>>>, Ghost(done): Ghost<Seq<Seq<char>>>) -> (id: InternId)
    requires
        old(interner).wf(),
        old(interner)@ == intern_all(t0, done),
        old(interner)@.len() <= u32::MAX,
    ensures
        final(interner).wf(),
        final(interner)@ == intern_all(t0, done.push(s@)),
        names(final(interner)@, id, s@),
        extends(final(interner)@, old(interner)@),
        final(interner)@.len() <= old(interner)@.len() + 1,
{
    let id = interner.intern(s);
    assert(done.push(s@).drop_last() =~= done);
    id
}

/// The normalized form of a mask shape.
fn shape_ir(sh: &ShapeDef, interner: &mut StringInterner, Ghost(t0): Ghost<Seq<Seq<char>>>, Ghost(done): Ghost<Seq<Seq<char>>>) -> (r: ShapeIR)
    requires
        old(interner).wf(),
        old(interner)@ == intern_all(t0, done),
        sh is Path ==> old(interner)@.len() <= u32::MAX,
    ensures
        final(interner).wf(),
        final(interner)@ == intern_all(t0, done + mask_strs(Some(MaskDef { source: MaskRef::Shape(*sh), mode: crate::plan::MaskMode::Alpha, inverted: false }))),
        shape_ok(r, *sh, final(interner)@),
        extends(final(interner)@, old(interner)@),
        final(interner)@.len() <= old(interner)@.len() + 1,
{
    match sh {
        ShapeDef::Rect { width_bits, height_bits } => {
            assert(done + Seq::<Seq<char>>::empty() =~= done);
            ShapeIR::Rect { width_bits: *width_bits, height_bits: *height_bits }
        },
        ShapeDef::RoundedRect { width_bits, height_bits, radius_bits } => {
            assert(done + Seq::<Seq<char>>::empty() =~= done);
            ShapeIR::RoundedRect { width_bits: *width_bits, height_bits: *height_bits, radius_bits: *radius_bits }
        },
        ShapeDef::Ellipse { rx_bits, ry_bits } => {
            assert(done + Seq::<Seq<char>>::empty() =~= done);
            ShapeIR::Ellipse { rx_bits: *rx_bits, ry_bits: *ry_bits }
        },
        ShapeDef::Path { svg_path_d } => {
            let id = intern_step(interner, svg_path_d.as_str(), Ghost(t0), Ghost(done));
            assert(done + seq![svg_path_d@] =~= done.push(svg_path_d@));
            ShapeIR::Path { svg_path_d: id }
        },
    }
}

/// Intern a node's own strings (id, effect kinds, mask name, transition kinds) and build its
/// mask and transitions.
fn intern_own(node: &SceneNode, interner: &mut StringInterner) -> (r: (InternId, Option<MaskIR>, Option<TransitionSpecIR>, Option<TransitionSpecIR>))
    requires
        old(interner).wf(),
        old(interner)@.len() + own_strs(*node).len() <= u32::MAX + 1,
    ensures
        final(interner).wf(),
        final(interner)@ == intern_all(old(interner)@, own_strs(*node)),
        names(final(interner)@, r.0, node.id@),
        mask_ok(r.1, node.mask, final(interner)@),
        trans_ok(r.2, node.transition_in, final(interner)@),
        trans_ok(r.3, node.transition_out, final(interner)@),
{
    let ghost t0 = interner@;
    let ghost own = own_strs(*node);
    assert(own.len() == 1 + node.effect_kinds@.len() + mask_strs(node.mask).len() + trans_strs(node.transition_in).len()
        + trans_strs(node.transition_out).len());
    let ghost done: Seq<Seq<char>> = Seq::empty();
    let id = intern_step(interner, node.id.as_str(), Ghost(t0), Ghost(done));
    let ghost t1 = interner@;
    proof { done = done.push(node.id@); }
    assert(done =~= seq![node.id@]);
    let n = node.effect_kinds.len();
    let mut k: usize = 0;
    while k < n
        invariant
            n == node.effect_kinds@.len(),
            k <= n,
            interner.wf(),
            done == seq![node.id@] + strs_view(node.effect_kinds@).subrange(0, k as int),
            interner@ == intern_all(t0, done),
            interner@.len() <= t0.len() + done.len(),
            t0.len() + own_strs(*node).len() <= u32::MAX + 1,
            own_strs(*node).len() >= 1 + n,
            names(interner@, id, node.id@),
        decreases n - k,
    {
        let ghost before = interner@;
        intern_step(interner, node.effect_kinds[k].as_str(), Ghost(t0), Ghost(done));
        proof {
            assert(strs_view(node.effect_kinds@).subrange(0, k + 1) =~= strs_view(node.effect_kinds@).subrange(0, k as int).push(node.effect_kinds@[k as int]@));
            done = done.push(node.effect_kinds@[k as int]@);
        }
        k = k + 1;
    }
    assert(done =~= seq![node.id@] + strs_view(node.effect_kinds@));
    let ghost d1 = done;
    let mask = match &node.mask {
        None => {
            assert(done + mask_strs(node.mask) =~= done);
            None
        },
        Some(m) => {
            let src = match &m.source {
                MaskRef::Node(s) => {
                    let i = intern_step(interner, s.as_str(), Ghost(t0), Ghost(done));
                    assert(done + mask_strs(node.mask) =~= done.push(s@));
                    MaskSourceIR::Node(i)
                },
                MaskRef::Asset(s) => {
                    let i = intern_step(interner, s.as_str(), Ghost(t0), Ghost(done));
                    assert(done + mask_strs(node.mask) =~= done.push(s@));
                    MaskSourceIR::Asset(i)
                },
                MaskRef::Shape(sh) => {
                    let si = shape_ir(sh, interner, Ghost(t0), Ghost(done));
                    assert(mask_strs(node.mask) == mask_strs(Some(MaskDef { source: MaskRef::Shape(*sh), mode: crate::plan::MaskMode::Alpha, inverted: false })));
                    MaskSourceIR::Shape(si)
                },
            };
            Some(MaskIR { source: src, mode: m.mode, inverted: m.inverted })
        },
    };
    proof { done = done + mask_strs(node.mask); }
    assert(interner@.len() <= t0.len() + done.len());
    let ghost t2 = interner@;
    assert(mask_ok(mask, node.mask, t2));
    let tin = match &node.transition_in {
        None => {
            assert(done + trans_strs(node.transition_in) =~= done);
            None
        },
        Some(t) => {
            let i = intern_step(interner, t.kind.as_str(), Ghost(t0), Ghost(done));
            assert(done + trans_strs(node.transition_in) =~= done.push(t.kind@));
            Some(TransitionSpecIR { kind: i, duration_frames: t.duration_frames })
        },
    };
    proof { done = done + trans_strs(node.transition_in); }
    assert(interner@.len() <= t0.len() + done.len());
    let ghost t3 = interner@;
    let tout = match &node.transition_out {
        None => {
            assert(done + trans_strs(node.transition_out) =~= done);
            None
        },
        Some(t) => {
            let i = intern_step(interner, t.kind.as_str(), Ghost(t0), Ghost(done));
            assert(done + trans_strs(node.transition_out) =~= done.push(t.kind@));
            Some(TransitionSpecIR { kind: i, duration_frames: t.duration_frames })
        },
    };
    proof { done = done + trans_strs(node.transition_out); }
    assert(done =~= own_strs(*node));
    (id, mask, tin, tout)
}

/// A copy of a node's effect passes.
fn copy_passes(v: &Vec<PassFx>) -> (r: Vec<PassFx>)
    ensures
        r@ == v@,
{
    let mut r: Vec<PassFx> = Vec::new();
    let mut i: usize = 0;
    while i < v.len()
        invariant
            i <= v@.len(),
            r@ == v@.subrange(0, i as int),
        decreases v@.len() - i,
    {
        r.push(v[i]);
        assert(r@ =~= v@.subrange(0, i + 1));
        i = i + 1;
    }
    assert(r@ =~= v@);
    r
}

/// Lay out the subtree at `node` in pre-order at the end of `nodes`, interning its strings;
/// returns the index of `node` itself.
fn normalize_node(
    node: &SceneNode,
    interner: &mut StringInterner,
    nkeys: usize,
    nodes: &mut Vec<NodeIR>,
    node_ids: &mut Vec<InternId>,
) -> (idx: NodeIdx)
    requires
        old(interner).wf(),
        nkeys <= old(interner)@.len(),
        leaves_known(*node, old(interner)@.subrange(0, nkeys as int)),
        old(interner)@.len() + tree_strs(*node).len() <= u32::MAX + 1,
        old(nodes)@.len() + flat(*node).len() <= u32::MAX + 1,
        old(node_ids)@.len() == old(nodes)@.len(),
    ensures
        final(interner).wf(),
        final(interner)@ == intern_all(old(interner)@, tree_strs(*node)),
        final(nodes)@.len() == old(nodes)@.len() + flat(*node).len(),
        final(node_ids)@.len() == final(nodes)@.len(),
        forall|j: int| 0 <= j < old(nodes)@.len() ==> #[trigger] final(nodes)@[j] == old(nodes)@[j],
        forall|j: int| 0 <= j < old(nodes)@.len() ==> #[trigger] final(node_ids)@[j] == old(node_ids)@[j],
        idx.0 == old(nodes)@.len(),
        forall|j: int| old(nodes)@.len() <= j < final(nodes)@.len() ==> {
            &&& node_ok(#[trigger] final(nodes)@[j], flat(*node)[j - old(nodes)@.len()], j, nkeys as int, final(interner)@)
            &&& names(final(interner)@, final(node_ids)@[j], flat(*node)[j - old(nodes)@.len()].id@)
            &&& children_in(final(nodes)@, j, final(nodes)@.len() as int)
        },
    decreases node,
{
    let ghost t0 = interner@;
    let ghost keys = t0.subrange(0, nkeys as int);
    let ghost base = nodes@.len() as int;
    let ghost old_nodes = nodes@;
    let ghost old_ids = node_ids@;
    let ghost ch_strs = child_strs(node.kind);
    assert(tree_strs(*node) == own_strs(*node) + leaf_strs(node.kind) + ch_strs);
    assert(flat(*node)[0] == *node);
    let base_u = nodes.len();
    let idx_u32 = base_u as u32;
    let (id, mask, tin, tout) = intern_own(node, interner);
    let ghost t1 = interner@;
    proof {
        lemma_intern_all_grows(t0, own_strs(*node));
        lemma_intern_all_grows(t0, tree_strs(*node));
        lemma_intern_all_concat(t0, own_strs(*node), leaf_strs(node.kind) + ch_strs);
        assert(own_strs(*node) + leaf_strs(node.kind) + ch_strs =~= own_strs(*node) + (leaf_strs(node.kind) + ch_strs));
        assert(keys == t1.subrange(0, nkeys as int));
    }
    node_ids.push(id);
    let has_effects = node.effect_kinds.len() > 0;
    nodes.push(NodeIR {
        range_start: node.range[0],
        range_end: node.range[1],
        kind: NodeKindIR::CompRef,
        mask,
        has_effects,
        effect_passes: copy_passes(&node.effect_passes),
        blend: node.blend,
        transition_in: tin,
        transition_out: tout,
    });
    match &node.kind {
        SceneKind::Leaf { asset } => {
            assert(leaf_known(flat(*node)[0], keys));
            assert(keys.contains(asset@));
            let ghost w = choose|w: int| 0 <= w < keys.len() && keys[w] == asset@;
            assert(t1[w] == asset@);
            let a = interner.intern(asset.as_str());
            assert(a.0 == w);
            proof {
                assert(seq![asset@].drop_last() =~= Seq::<Seq<char>>::empty());
                assert(t1.contains(asset@));
                assert(leaf_strs(node.kind) == seq![asset@]);
                assert(intern_all(t1, seq![asset@]) == intern1(intern_all(t1, seq![asset@].drop_last()), asset@));
                assert(intern_all(t1, leaf_strs(node.kind)) == t1);
                assert(leaf_strs(node.kind) + ch_strs =~= leaf_strs(node.kind));
            }
            nodes.set(base_u, NodeIR {
                range_start: node.range[0],
                range_end: node.range[1],
                kind: NodeKindIR::Leaf { asset: AssetIdx(a.0) },
                mask,
                has_effects,
                effect_passes: copy_passes(&node.effect_passes),
                blend: node.blend,
                transition_in: tin,
                transition_out: tout,
            });
            assert(flat(*node) =~= seq![*node]);
            assert(node_ok(nodes@[base], flat(*node)[0], base, nkeys as int, interner@));
        },
        SceneKind::CompRef => {
            proof {
                assert(leaf_strs(node.kind) + ch_strs =~= Seq::<Seq<char>>::empty());
                assert(intern_all(t1, Seq::<Seq<char>>::empty()) == t1);
            }
            assert(flat(*node) =~= seq![*node]);
            assert(node_ok(nodes@[base], flat(*node)[0], base, nkeys as int, interner@));
        },
        SceneKind::Collection { mode, children } => {
            let ghost ch = children@;
            let ghost ph = nodes@[base];
            let nch = children.len();
            proof {
                assert(leaf_strs(node.kind) + ch_strs =~= strs_upto(ch, nch as int));
                assert(flat(*node) == seq![*node] + flat_upto(ch, nch as int));
                lemma_intern_all_grows(t1, strs_upto(ch, nch as int));
            }
            let mut child_idxs: Vec<NodeIdx> = Vec::new();
            let mut k: usize = 0;
            while k < nch
                invariant
                    nch == ch.len(),
                    ch == children@,
                    node.kind == (SceneKind::Collection { mode: *mode, children: *children }),
                    flat(*node) == seq![*node] + flat_upto(ch, nch as int),
                    k <= nch,
                    interner.wf(),
                    interner@ == intern_all(t1, strs_upto(ch, k as int)),
                    extends(interner@, t1),
                    interner@.len() <= t1.len() + strs_upto(ch, k as int).len(),
                    t1.len() + strs_upto(ch, nch as int).len() <= u32::MAX + 1,
                    nkeys <= t1.len(),
                    keys == t1.subrange(0, nkeys as int),
                    leaves_known(*node, keys),
                    base + 1 + flat_upto(ch, nch as int).len() <= u32::MAX + 1,
                    base == old_nodes.len(),
                    nodes@.len() == base + 1 + flat_upto(ch, k as int).len(),
                    node_ids@.len() == nodes@.len(),
                    forall|j: int| 0 <= j < base ==> #[trigger] nodes@[j] == old_nodes[j],
                    forall|j: int| 0 <= j < base ==> #[trigger] node_ids@[j] == old_ids[j],
                    nodes@[base] == ph,
                    node_ids@[base] == id,
                    ph.kind is CompRef,
                    names(interner@, id, node.id@),
                    mask_ok(mask, node.mask, interner@),
                    trans_ok(tin, node.transition_in, interner@),
                    trans_ok(tout, node.transition_out, interner@),
                    child_idxs@.len() == k,
                    forall|m: int| 0 <= m < k ==> #[trigger] child_idxs@[m].0 == base + 1 + flat_upto(ch, m).len(),
                    forall|j: int| base + 1 <= j < nodes@.len() ==> {
                        &&& node_ok(#[trigger] nodes@[j], flat_upto(ch, k as int)[j - base - 1], j, nkeys as int, interner@)
                        &&& names(interner@, node_ids@[j], flat_upto(ch, k as int)[j - base - 1].id@)
                        &&& children_in(nodes@, j, nodes@.len() as int)
                    },
                decreases nch - k,
            {
                let ghost tk = interner@;
                let ghost nk = nodes@;
                let ghost ik = node_ids@;
                let ghost bk = nodes@.len() as int;
                proof {
                    lemma_flat_child(ch, k as int);
                    lemma_flat_upto_prefix(ch, k as int + 1, nch as int);
                    lemma_strs_upto_len(ch, k as int + 1, nch as int);
                    assert(strs_upto(ch, k as int + 1) == strs_upto(ch, k as int) + tree_strs(ch[k as int]));
                    assert(flat_upto(ch, k as int + 1) == flat_upto(ch, k as int) + flat(ch[k as int]));
                    assert forall|i: int| 0 <= i < flat(ch[k as int]).len() implies leaf_known(#[trigger] flat(ch[k as int])[i], keys) by {
                        assert(flat(*node)[1 + flat_upto(ch, k as int).len() + i] == flat(ch[k as int])[i]);
                        assert(leaf_known(flat(*node)[1 + flat_upto(ch, k as int).len() + i], keys));
                    }
                    assert(keys == tk.subrange(0, nkeys as int));
                    assert(decreases_to!(*node => node.kind));
                    assert(node.kind->children == *children);
                    assert(decreases_to!(node.kind => node.kind->children));
                    assert(decreases_to!(*children => children@));
                    assert(decreases_to!(children@ => children@[k as int]));
                }
                let c = normalize_node(&children[k], interner, nkeys, nodes, node_ids);
                proof {
                    lemma_intern_all_concat(t1, strs_upto(ch, k as int), tree_strs(ch[k as int]));
                    lemma_intern_all_grows(tk, tree_strs(ch[k as int]));
                    assert(extends(interner@, tk));
                    lemma_extends_trans(interner@, tk, t1);
                    let fk = flat_upto(ch, k as int + 1);
                    assert forall|j: int| base + 1 <= j < nodes@.len() implies {
                        &&& node_ok(#[trigger] nodes@[j], fk[j - base - 1], j, nkeys as int, interner@)
                        &&& names(interner@, node_ids@[j], fk[j - base - 1].id@)
                        &&& children_in(nodes@, j, nodes@.len() as int)
                    } by {
                        if j < bk {
                            assert(nodes@[j] == nk[j]);
                            assert(node_ids@[j] == ik[j]);
                            assert(fk[j - base - 1] == flat_upto(ch, k as int)[j - base - 1]);
                            assert(node_ok(nk[j], flat_upto(ch, k as int)[j - base - 1], j, nkeys as int, tk));
                            lemma_node_ok_extends(nk[j], fk[j - base - 1], j, nkeys as int, tk, interner@);
                            assert(names(tk, ik[j], flat_upto(ch, k as int)[j - base - 1].id@));
                            assert(children_of(nodes@, j) == children_of(nk, j));
                            assert(children_in(nk, j, bk));
                        } else {
                            assert(fk[j - base - 1] == flat(ch[k as int])[j - bk]);
                            assert(node_ok(nodes@[j], flat(ch[k as int])[j - bk], j, nkeys as int, interner@));
                        }
                    }
                    lemma_node_ok_extends_aux(mask, tin, tout, *node, tk, interner@);
                }
                child_idxs.push(c);
                k = k + 1;
            }
            let is_seq = match mode {
                CollectionMode::Sequence => true,
                _ => false,
            };
            let prefix = if is_seq {
                let mut v: Vec<u64> = Vec::new();
                v.push(0);
                let mut acc: u64 = 0;
                let mut i: usize = 0;
                while i < nch
                    invariant
                        nch == ch.len(),
                        ch == children@,
                        i <= nch,
                        v@.len() == i + 1,
                        acc == prefix_start(ch, i as int),
                        forall|m: int| 0 <= m <= i ==> #[trigger] v@[m] == prefix_start(ch, m),
                    decreases nch - i,
                {
                    acc = acc.saturating_add(children[i].range[1]);
                    v.push(acc);
                    i = i + 1;
                }
                Some(v)
            } else {
                None
            };
            let ghost before_set = nodes@;
            nodes.set(base_u, NodeIR {
                range_start: node.range[0],
                range_end: node.range[1],
                kind: NodeKindIR::Collection { mode: *mode, children: child_idxs, sequence_prefix_starts: prefix },
                mask,
                has_effects,
                effect_passes: copy_passes(&node.effect_passes),
                blend: node.blend,
                transition_in: tin,
                transition_out: tout,
            });
            proof {
                lemma_intern_all_concat(t0, own_strs(*node), strs_upto(ch, nch as int));
                assert forall|m: int| 0 <= m < nch implies flat_upto(ch, m).len() < flat_upto(ch, nch as int).len() by {
                    lemma_flat_upto_prefix(ch, m, nch as int);
                }
                assert(node_ok(nodes@[base], flat(*node)[0], base, nkeys as int, interner@));
                assert forall|j: int| base + 1 <= j < nodes@.len() implies {
                    &&& node_ok(#[trigger] nodes@[j], flat(*node)[j - base], j, nkeys as int, interner@)
                    &&& names(interner@, node_ids@[j], flat(*node)[j - base].id@)
                    &&& children_in(nodes@, j, nodes@.len() as int)
                } by {
                    assert(flat(*node)[j - base] == flat_upto(ch, nch as int)[j - base - 1]);
                    assert(nodes@[j] == before_set[j]);
                    assert(children_of(nodes@, j) == children_of(before_set, j));
                }
            }
        },
    }
    NodeIdx(idx_u32)
}

/// Node by interned id: the last node carrying each id.
fn node_table(ids: &Vec<InternId>, n_strs: usize) -> (r: Vec<Option<NodeIdx>>)
    requires
        forall|j: int| 0 <= j < ids@.len() ==> (#[trigger] ids@[j]).0 < n_strs,
        ids@.len() <= u32::MAX + 1,
    ensures
        r@.len() == n_strs,
        forall|i: int| 0 <= i < n_strs ==> #[trigger] r@[i] == last_node_named(ids@, i, ids@.len() as int),
{
    let mut r: Vec<Option<NodeIdx>> = Vec::new();
    let mut i: usize = 0;
    while i < n_strs
        invariant
            i <= n_strs,
            r@.len() == i,
            forall|m: int| 0 <= m < i ==> #[trigger] r@[m] is None,
        decreases n_strs - i,
    {
        r.push(None);
        i = i + 1;
    }
    let n = ids.len();
    let mut j: usize = 0;
    while j < n
        invariant
            n == ids@.len(),
            n <= u32::MAX + 1,
            j <= n,
            r@.len() == n_strs,
            forall|m: int| 0 <= m < n ==> (#[trigger] ids@[m]).0 < n_strs,
            forall|m: int| 0 <= m < n_strs ==> #[trigger] r@[m] == last_node_named(ids@, m, j as int),
        decreases n - j,
    {
        r.set(ids[j].0 as usize, Some(NodeIdx(j as u32)));
        j = j + 1;
    }
    r
}

/// Asset by interned key: the first `nkeys` ids are the asset keys, in table order.
fn asset_table(nkeys: usize, n_strs: usize) -> (r: Vec<Option<AssetIdx>>)
    requires
        nkeys <= n_strs,
        nkeys <= u32::MAX + 1,
    ensures
        r@.len() == n_strs,
        forall|i: int| 0 <= i < n_strs ==> #[trigger] r@[i] == (if i < nkeys { Some(AssetIdx(i as u32)) } else { None }),
{
    let mut r: Vec<Option<AssetIdx>> = Vec::new();
    let mut i: usize = 0;
    while i < n_strs
        invariant
            nkeys <= n_strs,
            nkeys <= u32::MAX + 1,
            i <= n_strs,
            r@.len() == i,
            forall|m: int| 0 <= m < i ==> #[trigger] r@[m] == (if m < nkeys { Some(AssetIdx(m as u32)) } else { None }),
        decreases n_strs - i,
    {
        if i < nkeys {
            r.push(Some(AssetIdx(i as u32)));
        } else {
            r.push(None);
        }
        i = i + 1;
    }
    r
}

/// Validate the composition, then normalize its tree: asset keys interned first (asset `k`
/// gets id `k`), then the nodes laid out in pre-order with their strings interned, then the
/// lookup tables. Fails exactly when validation reports errors, with those errors.
pub fn normalize(skel: &SceneSkeleton) -> (r: Result<NormalizedTree, SchemaErrors>)
    requires
        forall|i: int, j: int| 0 <= i < j < skel.asset_keys@.len() ==> skel.asset_keys@[i]@ != skel.asset_keys@[j]@,
        skel.asset_keys@.len() + tree_strs(skel.root).len() <= u32::MAX + 1,
    ensures
        match r {
            Err(e) => e.errors@.len() > 0 && serrs_view(e.errors@) == all_errs(*skel),
            Ok(t) => all_errs(*skel).len() == 0 && normalized(t, strs_view(skel.asset_keys@), skel.root),
        },
{
    match validate_composition(skel) {
        Err(e) => {
            return Err(e);
        },
        Ok(()) => {},
    }
    let ghost keys = strs_view(skel.asset_keys@);
    let ghost root_v = node_view(skel.root);
    proof {
        let st = crate::schema::collect_spec(root_v, seq![crate::schema::fld("root"@)],
            (crate::schema::head_errs(skel.version@, skel.duration, root_v.range), Seq::empty()));
        lemma_refs_grow(root_v, seq![crate::schema::fld("root"@)], st.1, keys, st.0);
        lemma_leaves_known_view(skel.root, keys);
        lemma_flat_le_strs(skel.root);
        assert(tree_strs(skel.root).len() >= 1);
    }
    let mut interner = StringInterner::new();
    let nkeys = skel.asset_keys.len();
    let mut asset_key_by_idx: Vec<InternId> = Vec::new();
    let mut k: usize = 0;
    while k < nkeys
        invariant
            nkeys == skel.asset_keys@.len(),
            keys == strs_view(skel.asset_keys@),
            forall|i: int, j: int| 0 <= i < j < skel.asset_keys@.len() ==> skel.asset_keys@[i]@ != skel.asset_keys@[j]@,
            nkeys + tree_strs(skel.root).len() <= u32::MAX + 1,
            tree_strs(skel.root).len() >= 1,
            k <= nkeys,
            interner.wf(),
            interner@ == keys.subrange(0, k as int),
            asset_key_by_idx@.len() == k,
            forall|m: int| 0 <= m < k ==> #[trigger] asset_key_by_idx@[m] == InternId(m as u32),
        decreases nkeys - k,
    {
        let ghost before = interner@;
        assert(!before.contains(skel.asset_keys@[k as int]@)) by {
            if before.contains(skel.asset_keys@[k as int]@) {
                let w = choose|w: int| 0 <= w < before.len() && before[w] == skel.asset_keys@[k as int]@;
                assert(keys[w] == skel.asset_keys@[w]@);
            }
        }
        let id = interner.intern(skel.asset_keys[k].as_str());
        asset_key_by_idx.push(id);
        assert(interner@ =~= keys.subrange(0, k as int + 1));
        k = k + 1;
    }
    assert(interner@ =~= keys);
    let ghost t0 = interner@;
    let mut nodes: Vec<NodeIR> = Vec::new();
    let mut node_id_by_idx: Vec<InternId> = Vec::new();
    assert(t0.subrange(0, nkeys as int) =~= keys);
    let root = normalize_node(&skel.root, &mut interner, nkeys, &mut nodes, &mut node_id_by_idx);
    proof {
        lemma_intern_all_grows(t0, tree_strs(skel.root));
        assert forall|j: int| 0 <= j < node_id_by_idx@.len() implies (#[trigger] node_id_by_idx@[j]).0 < interner@.len() by {
            assert(node_ok(nodes@[j], flat(skel.root)[j - 0], j, nkeys as int, interner@));
            assert(names(interner@, node_id_by_idx@[j], flat(skel.root)[j].id@));
        }
    }
    let n_strs = interner.len();
    let node_idx_by_intern = node_table(&node_id_by_idx, n_strs);
    let asset_idx_by_intern = asset_table(nkeys, n_strs);
    let t = NormalizedTree {
        interner,
        nodes,
        root,
        node_id_by_idx,
        node_idx_by_intern,
        asset_key_by_idx,
        asset_idx_by_intern,
    };
    assert forall|i: int, c: int| 0 <= i < t.nodes@.len() && 0 <= c < children_of(t.nodes@, i).len() implies
        i < (#[trigger] children_of(t.nodes@, i)[c]).0 < t.nodes@.len() by {
        assert(children_in(t.nodes@, i, t.nodes@.len() as int));
    }
    assert(normalized(t, keys, skel.root));
    Ok(t)
}

} // verus!
