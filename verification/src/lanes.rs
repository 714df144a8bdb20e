//! Expression lanes: the sources a composition's property expressions are compiled from.
use vstd::prelude::*;
use crate::compile_expr::{ExprSourceIR, ValueTypeIR};
use crate::intern::StringInterner;
use crate::plan::NodeIdx;
use crate::tree::{children_of, tree_wf, NodeIR, NodeKindIR};
use crate::property::{spec_property_id, PropertyIndex, PropertyKey};
use crate::text::{push_char, push_str};

verus! {

/// A lane of a node whose value is given by an expression.
#[derive(Debug, Clone)]
pub struct ExprLaneDef {
    /// The node.
    pub node: NodeIdx,
    /// The lane.
    pub key: PropertyKey,
    /// The expression as written (with its leading `=`).
    pub text: String,
}

/// A Unicode `White_Space` character (what `str::trim` removes).
pub open spec fn is_white(c: char) -> bool {
    c == '\t' || c == '\n' || c == '\u{0B}' || c == '\u{0C}' || c == '\r' || c == ' ' || c == '\u{85}'
        || c == '\u{A0}' || c == '\u{1680}' || ('\u{2000}' <= c && c <= '\u{200A}') || c == '\u{2028}'
        || c == '\u{2029}' || c == '\u{202F}' || c == '\u{205F}' || c == '\u{3000}'
}

/// `s` without leading white space.
pub open spec fn trim_start(s: Seq<char>) -> Seq<char>
    decreases s.len(),
{
    if s.len() > 0 && is_white(s[0]) { trim_start(s.drop_first()) } else { s }
}

/// `s` without trailing white space.
pub open spec fn trim_end(s: Seq<char>) -> Seq<char>
    decreases s.len(),
{
    if s.len() > 0 && is_white(s.last()) { trim_end(s.drop_last()) } else { s }
}

/// An expression rescaled from degrees to radians: trimmed, its leading `=` dropped, and
/// rewritten as `=(<expr>)*<pi / 180>`.
pub open spec fn deg_to_rad_expr(text: Seq<char>) -> Seq<char> {
    let e = trim_end(trim_start(text));
    let inner = if e.len() > 0 && e[0] == '=' { e.drop_first() } else { e };
    "=("@ + inner + ")*0.017453292519943295"@
}

/// Value type of a lane: the switch index is an integer, every other lane a number.
pub open spec fn lane_value_type(key: PropertyKey) -> ValueTypeIR {
    if key == PropertyKey::SwitchActiveIndex { ValueTypeIR::U64 } else { ValueTypeIR::F64 }
}

/// Source text compiled for a lane: rotation is written in degrees and computed in radians.
pub open spec fn lane_source(key: PropertyKey, text: Seq<char>) -> Seq<char> {
    if key == PropertyKey::TransformRotationRad { deg_to_rad_expr(text) } else { text }
}

fn white(c: char) -> (r: bool)
    ensures
        r == is_white(c),
{
    c == '\t' || c == '\n' || c == '\u{0B}' || c == '\u{0C}' || c == '\r' || c == ' ' || c == '\u{85}'
        || c == '\u{A0}' || c == '\u{1680}' || ('\u{2000}' <= c && c <= '\u{200A}') || c == '\u{2028}'
        || c == '\u{2029}' || c == '\u{202F}' || c == '\u{205F}' || c == '\u{3000}'
}

/// The rotation expression rewritten over radians (see [`deg_to_rad_expr`]).
pub fn wrap_deg_to_rad(text: &str) -> (r: String)
    ensures
        r@ == deg_to_rad_expr(text@),
{
    let ghost s = text@;
    let n = text.unicode_len();
    let mut a: usize = 0;
    assert(s.subrange(0, n as int) =~= s);
    while a < n && white(text.get_char(a))
        invariant
            n == s.len(),
            s == text@,
            a <= n,
            trim_start(s) == trim_start(s.subrange(a as int, n as int)),
        decreases n - a,
    {
        assert(s.subrange(a as int, n as int).drop_first() =~= s.subrange(a + 1, n as int));
        a = a + 1;
    }
    assert(trim_start(s) == s.subrange(a as int, n as int));
    let mut b: usize = n;
    while b > a && white(text.get_char(b - 1))
        invariant
            n == s.len(),
            s == text@,
            a <= b <= n,
            trim_end(s.subrange(a as int, n as int)) == trim_end(s.subrange(a as int, b as int)),
        decreases b - a,
    {
        assert(s.subrange(a as int, b as int).drop_last() =~= s.subrange(a as int, b - 1));
        b = b - 1;
    }
    let ghost e = s.subrange(a as int, b as int);
    assert(trim_end(trim_start(s)) == e);
    let mut start = a;
    if a < b && text.get_char(a) == '=' {
        start = a + 1;
        assert(e.drop_first() =~= s.subrange(start as int, b as int));
    } else {
        assert(e =~= s.subrange(start as int, b as int));
    }
    let mut out = String::new();
    push_str(&mut out, "=(");
    let ghost head = out@;
    let mut i = start;
    while i < b
        invariant
            n == s.len(),
            s == text@,
            start <= i <= b <= n,
            out@ == head + s.subrange(start as int, i as int),
        decreases b - i,
    {
        push_char(&mut out, text.get_char(i));
        assert(s.subrange(start as int, i + 1) =~= s.subrange(start as int, i as int).push(s[i as int]));
        i = i + 1;
    }
    push_str(&mut out, ")*0.017453292519943295");
    out
}

/// The expression sources of the given lanes, in order: each writes its lane's property, has
/// the lane's value type, and names its source text in `interner` (interned as it goes).
pub fn expr_sources_for(lanes: &Vec<ExprLaneDef>, interner: &mut StringInterner) -> (r: Vec<ExprSourceIR>)
    requires
        old(interner).wf(),
        old(interner)@.len() + lanes@.len() <= u32::MAX,
    ensures
        final(interner).wf(),
        final(interner)@.len() <= old(interner)@.len() + lanes@.len(),
        forall|j: int| 0 <= j < old(interner)@.len() ==> #[trigger] final(interner)@[j] == old(interner)@[j],
        r@.len() == lanes@.len(),
        forall|i: int| 0 <= i < lanes@.len() ==> {
            &&& (#[trigger] r@[i]).target == spec_property_id(lanes@[i].node, lanes@[i].key)
            &&& r@[i].value_type == lane_value_type(lanes@[i].key)
            &&& (r@[i].src.0 as int) < final(interner)@.len()
            &&& final(interner)@[r@[i].src.0 as int] == lane_source(lanes@[i].key, lanes@[i].text@)
        },
{
    let ghost start = interner@;
    let mut out: Vec<ExprSourceIR> = Vec::new();
    let n = lanes.len();
    let mut i: usize = 0;
    while i < n
        invariant
            n == lanes@.len(),
            i <= n,
            interner.wf(),
            start.len() <= interner@.len() <= start.len() + i,
            start.len() + n <= u32::MAX,
            forall|j: int| 0 <= j < start.len() ==> #[trigger] interner@[j] == start[j],
            out@.len() == i,
            forall|k: int| 0 <= k < i ==> {
                &&& (#[trigger] out@[k]).target == spec_property_id(lanes@[k].node, lanes@[k].key)
                &&& out@[k].value_type == lane_value_type(lanes@[k].key)
                &&& (out@[k].src.0 as int) < interner@.len()
                &&& interner@[out@[k].src.0 as int] == lane_source(lanes@[k].key, lanes@[k].text@)
            },
        decreases n - i,
    {
        let lane = &lanes[i];
        let is_rotation = match lane.key {
            PropertyKey::TransformRotationRad => true,
            _ => false,
        };
        let text = if is_rotation { wrap_deg_to_rad(lane.text.as_str()) } else { lane.text.clone() };
        let ghost before = interner@;
        let src = interner.intern(text.as_str());
        let value_type = match lane.key {
            PropertyKey::SwitchActiveIndex => ValueTypeIR::U64,
            _ => ValueTypeIR::F64,
        };
        out.push(ExprSourceIR { target: PropertyIndex::property_id(lane.node, lane.key), value_type, src });
        proof {
            assert(text@ == lane_source(lanes@[i as int].key, lanes@[i as int].text@));
            assert forall|k: int| 0 <= k < i implies interner@[(#[trigger] out@[k]).src.0 as int] == before[out@[k].src.0 as int] by {
                if interner@ != before {
                    assert(interner@ == before.push(text@));
                }
            }
            assert forall|j: int| 0 <= j < start.len() implies #[trigger] interner@[j] == start[j] by {
                if interner@ != before {
                    assert(interner@[j] == before[j]);
                }
            }
        }
        i = i + 1;
    }
    out
}

/// The expression lanes written on one node: those normalized with its own properties
/// (opacity, transform), and those normalized after its children (switch index, layout).
#[derive(Debug, Clone)]
pub struct NodeExprLanes {
    /// Lanes normalized before the children, in order.
    pub own: Vec<(PropertyKey, String)>,
    /// Lanes normalized after the children, in order.
    pub after_children: Vec<(PropertyKey, String)>,
}

/// A lane as a plain value: node, lane, text.
pub open spec fn lane_view(l: ExprLaneDef) -> (NodeIdx, PropertyKey, Seq<char>) {
    (l.node, l.key, l.text@)
}

/// The lanes `ls` of node `i`, as plain values.
pub open spec fn tagged(i: int, ls: Seq<(PropertyKey, String)>) -> Seq<(NodeIdx, PropertyKey, Seq<char>)> {
    Seq::new(ls.len(), |k: int| (NodeIdx(i as u32), ls[k].0, ls[k].1@))
}

/// The expression lanes of the subtree at `i`, in normalization order: the node's own lanes,
/// then each child's subtree in order, then the node's lanes that follow its children.
pub open spec fn subtree_lanes(nodes: Seq<NodeIR>, lanes: Seq<NodeExprLanes>, i: int) -> Seq<(NodeIdx, PropertyKey, Seq<char>)>
    decreases nodes.len() - i, children_of(nodes, i).len() + 1,
{
    if 0 <= i < nodes.len() && i < lanes.len() {
        tagged(i, lanes[i].own@) + children_lanes(nodes, lanes, i, children_of(nodes, i).len() as int)
            + tagged(i, lanes[i].after_children@)
    } else {
        Seq::empty()
    }
}

/// The subtrees of the first `k` children of node `i`, in order.
pub open spec fn children_lanes(nodes: Seq<NodeIR>, lanes: Seq<NodeExprLanes>, i: int, k: int) -> Seq<(NodeIdx, PropertyKey, Seq<char>)>
    decreases nodes.len() - i, k,
{
    if 0 <= i < nodes.len() && 0 < k <= children_of(nodes, i).len() {
        let c = children_of(nodes, i)[k - 1].0 as int;
        let prev = children_lanes(nodes, lanes, i, k - 1);
        if i < c < nodes.len() { prev + subtree_lanes(nodes, lanes, c) } else { prev }
    } else {
        Seq::empty()
    }
}

fn push_tagged(out: &mut Vec<ExprLaneDef>, node: NodeIdx, ls: &Vec<(PropertyKey, String)>)
    ensures
        final(out)@.map_values(|l: ExprLaneDef| lane_view(l)) == old(out)@.map_values(|l: ExprLaneDef| lane_view(l)) + tagged(node.0 as int, ls@),
{
    let ghost start = out@.map_values(|l: ExprLaneDef| lane_view(l));
    let n = ls.len();
    let mut k: usize = 0;
    while k < n
        invariant
            n == ls@.len(),
            k <= n,
            out@.map_values(|l: ExprLaneDef| lane_view(l)) == start + tagged(node.0 as int, ls@).take(k as int),
        decreases n - k,
    {
        let ghost before = out@;
        out.push(ExprLaneDef { node, key: ls[k].0, text: ls[k].1.clone() });
        proof {
            assert(out@.map_values(|l: ExprLaneDef| lane_view(l)) =~= before.map_values(|l: ExprLaneDef| lane_view(l)).push(lane_view(out@.last())));
            assert(tagged(node.0 as int, ls@).take(k + 1) =~= tagged(node.0 as int, ls@).take(k as int).push(tagged(node.0 as int, ls@)[k as int]));
        }
        k = k + 1;
    }
    assert(tagged(node.0 as int, ls@).take(n as int) =~= tagged(node.0 as int, ls@));
}

fn collect_subtree(nodes: &[NodeIR], lanes: &Vec<NodeExprLanes>, i: NodeIdx, out: &mut Vec<ExprLaneDef>)
    requires
        tree_wf(nodes@),
        i.0 < nodes@.len(),
        lanes@.len() == nodes@.len(),
    ensures
        final(out)@.map_values(|l: ExprLaneDef| lane_view(l))
            == old(out)@.map_values(|l: ExprLaneDef| lane_view(l)) + subtree_lanes(nodes@, lanes@, i.0 as int),
    decreases nodes@.len() - i.0,
{
    let ghost start = out@.map_values(|l: ExprLaneDef| lane_view(l));
    let ghost ii = i.0 as int;
    push_tagged(out, i, &lanes[i.0 as usize].own);
    let ghost mid = out@.map_values(|l: ExprLaneDef| lane_view(l));
    match &nodes[i.0 as usize].kind {
        NodeKindIR::Collection { children, .. } => {
            let m = children.len();
            let mut k: usize = 0;
            assert(children@ == children_of(nodes@, ii));
            while k < m
                invariant
                    tree_wf(nodes@),
                    i.0 < nodes@.len(),
                    lanes@.len() == nodes@.len(),
                    m == children@.len(),
                    children@ == children_of(nodes@, ii),
                    ii == i.0,
                    k <= m,
                    out@.map_values(|l: ExprLaneDef| lane_view(l)) == mid + children_lanes(nodes@, lanes@, ii, k as int),
                decreases m - k,
            {
                let c = children[k];
                assert(ii < c.0 < nodes@.len()) by {
                    assert(children_of(nodes@, ii)[k as int] == c);
                }
                collect_subtree(nodes, lanes, c, out);
                proof {
                    assert(mid + children_lanes(nodes@, lanes@, ii, k as int) + subtree_lanes(nodes@, lanes@, c.0 as int)
                        =~= mid + children_lanes(nodes@, lanes@, ii, k + 1));
                }
                k = k + 1;
            }
        },
        _ => {
            assert(children_lanes(nodes@, lanes@, ii, 0) =~= Seq::<(NodeIdx, PropertyKey, Seq<char>)>::empty());
            assert(children_of(nodes@, ii).len() == 0);
        },
    }
    let ghost mid2 = out@.map_values(|l: ExprLaneDef| lane_view(l));
    push_tagged(out, i, &lanes[i.0 as usize].after_children);
    proof {
        assert(start + subtree_lanes(nodes@, lanes@, ii) =~= start + tagged(ii, lanes@[ii].own@)
            + children_lanes(nodes@, lanes@, ii, children_of(nodes@, ii).len() as int) + tagged(ii, lanes@[ii].after_children@));
    }
}

/// The expression lanes of the whole tree from `root`, in normalization order (see
/// [`subtree_lanes`]), given each node's lanes.
pub fn collect_expr_lanes(nodes: &[NodeIR], root: NodeIdx, lanes: &Vec<NodeExprLanes>) -> (r: Vec<ExprLaneDef>)
    requires
        tree_wf(nodes@),
        root.0 < nodes@.len(),
        lanes@.len() == nodes@.len(),
    ensures
        r@.map_values(|l: ExprLaneDef| lane_view(l)) == subtree_lanes(nodes@, lanes@, root.0 as int),
{
    let mut out: Vec<ExprLaneDef> = Vec::new();
    assert(out@.map_values(|l: ExprLaneDef| lane_view(l)) =~= Seq::<(NodeIdx, PropertyKey, Seq<char>)>::empty());
    collect_subtree(nodes, lanes, root, &mut out);
    assert(Seq::<(NodeIdx, PropertyKey, Seq<char>)>::empty() + subtree_lanes(nodes@, lanes@, root.0 as int)
        =~= subtree_lanes(nodes@, lanes@, root.0 as int));
    out
}

} // verus!
