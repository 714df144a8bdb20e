//! Resolution of identifier paths in expressions to properties, variables and time fields.
use vstd::prelude::*;
use std::collections::HashMap;
use crate::ast::{Expr, ExprV, Lit, TimeField, VarId, args_view, expr_view, lemma_call_view, strings_view};
use crate::intern::StringInterner;
use crate::lexer::{ErrV, ExprError, err_view};
use crate::parser::{path_dbg, path_debug};
use crate::plan::NodeIdx;
use crate::property::{PropertyIndex, PropertyKey, spec_property_id};
use crate::text::{is_word, push_str};

verus! {

broadcast use vstd::std_specs::hash::group_hash_axioms;

/// What binding reads: the owner of the expression, the interned names, and the node and
/// variable tables keyed by interned id.
pub struct BindEnv {
    pub owner: NodeIdx,
    pub names: Seq<Seq<char>>,
    pub nodes: Map<u32, NodeIdx>,
    pub vars: Map<u32, VarId>,
}

/// Binding context.
pub struct BindCtx<'a> {
    /// Node that owns the expression (`self`).
    pub owner_node: NodeIdx,
    /// Interned strings (node ids and variable names).
    pub interner: &'a StringInterner,
    /// Node index by interned node id.
    pub node_idx_by_id: &'a HashMap<u32, NodeIdx>,
    /// Variable id by interned variable name.
    pub var_id_by_key: &'a HashMap<u32, VarId>,
}

/// The environment a context describes.
pub open spec fn env_of(ctx: &BindCtx) -> BindEnv {
    BindEnv {
        owner: ctx.owner_node,
        names: ctx.interner@,
        nodes: ctx.node_idx_by_id@,
        vars: ctx.var_id_by_key@,
    }
}

/// Interned id of `s` among `names`, if present.
pub open spec fn name_id(names: Seq<Seq<char>>, s: Seq<char>) -> Option<u32> {
    if names.contains(s) {
        Some((choose|i: int| 0 <= i < names.len() && names[i] == s) as u32)
    } else {
        None
    }
}

/// Property lane named by path segments after the node part.
pub open spec fn key_from_segs(s: Seq<Seq<char>>) -> Option<PropertyKey> {
    if s.len() == 1 && s[0] == "opacity"@ {
        Some(PropertyKey::Opacity)
    } else if s.len() == 2 && s[0] == "transform"@ && s[1] == "rotation_rad"@ {
        Some(PropertyKey::TransformRotationRad)
    } else if s.len() == 2 && s[0] == "switch"@ && s[1] == "active"@ {
        Some(PropertyKey::SwitchActiveIndex)
    } else if s.len() == 3 && s[0] == "transform"@ && s[1] == "translate"@ && s[2] == "x"@ {
        Some(PropertyKey::TransformTranslateX)
    } else if s.len() == 3 && s[0] == "transform"@ && s[1] == "translate"@ && s[2] == "y"@ {
        Some(PropertyKey::TransformTranslateY)
    } else if s.len() == 3 && s[0] == "transform"@ && s[1] == "scale"@ && s[2] == "x"@ {
        Some(PropertyKey::TransformScaleX)
    } else if s.len() == 3 && s[0] == "transform"@ && s[1] == "scale"@ && s[2] == "y"@ {
        Some(PropertyKey::TransformScaleY)
    } else if s.len() == 3 && s[0] == "transform"@ && s[1] == "anchor"@ && s[2] == "x"@ {
        Some(PropertyKey::TransformAnchorX)
    } else if s.len() == 3 && s[0] == "transform"@ && s[1] == "anchor"@ && s[2] == "y"@ {
        Some(PropertyKey::TransformAnchorY)
    } else if s.len() == 3 && s[0] == "transform"@ && s[1] == "skew"@ && s[2] == "x"@ {
        Some(PropertyKey::TransformSkewX)
    } else if s.len() == 3 && s[0] == "transform"@ && s[1] == "skew"@ && s[2] == "y"@ {
        Some(PropertyKey::TransformSkewY)
    } else {
        None
    }
}

/// Time field named `s`.
pub open spec fn time_field_of(s: Seq<char>) -> Option<TimeField> {
    if s == "frame"@ { Some(TimeField::Frame) }
    else if s == "fps"@ { Some(TimeField::Fps) }
    else if s == "duration"@ { Some(TimeField::Duration) }
    else if s == "progress"@ { Some(TimeField::Progress) }
    else if s == "seconds"@ { Some(TimeField::Seconds) }
    else { None }
}

/// Error at offset `0`.
pub open spec fn err0(m: Seq<char>) -> ErrV {
    ErrV { offset: 0, message: m }
}

/// `"` + `s` + `"`.
pub open spec fn quoted(s: Seq<char>) -> Seq<char> {
    "\""@ + s + "\""@
}

/// Property reference of `p`'s lane segments from `from` on, for node `node`.
pub open spec fn lane_ref(p: Seq<Seq<char>>, from: int, node: NodeIdx) -> Result<ExprV, ErrV> {
    let rest = p.subrange(from, p.len() as int);
    match key_from_segs(rest) {
        None => Err(err0("unknown property path "@ + path_dbg(rest))),
        Some(k) => Ok(ExprV::Prop(spec_property_id(node, k))),
    }
}

/// Resolution of a dotted path.
pub open spec fn bind_path_spec(p: Seq<Seq<char>>, env: BindEnv) -> Result<ExprV, ErrV> {
    if p.len() == 0 {
        Err(err0("empty path"@))
    } else if p[0] == "self"@ {
        if p.len() < 2 { Err(err0("self.<lane> expected"@)) } else { lane_ref(p, 1, env.owner) }
    } else if p[0] == "nodes"@ {
        if p.len() < 3 {
            Err(err0("nodes.<id>.<lane> expected"@))
        } else {
            match name_id(env.names, p[1]) {
                Some(id) if env.nodes.contains_key(id) => lane_ref(p, 2, env.nodes[id]),
                _ => Err(err0("unknown node id "@ + quoted(p[1]))),
            }
        }
    } else if p[0] == "vars"@ {
        if p.len() != 2 {
            Err(err0("vars.<name> expected"@))
        } else {
            match name_id(env.names, p[1]) {
                Some(id) if env.vars.contains_key(id) => Ok(ExprV::Var(env.vars[id])),
                _ => Err(err0("unknown var "@ + quoted(p[1]))),
            }
        }
    } else if p[0] == "time"@ {
        if p.len() != 2 {
            Err(err0("time.<field> expected"@))
        } else {
            match time_field_of(p[1]) {
                None => Err(err0("unknown time field "@ + quoted(p[1]))),
                Some(tf) => Ok(ExprV::Time(tf)),
            }
        }
    } else {
        Err(err0("unknown top-level namespace "@ + quoted(p[0])))
    }
}

/// Binding of a tree: every path is resolved, in left-to-right order; the first failure is the
/// result.
pub open spec fn bind_spec(e: ExprV, env: BindEnv) -> Result<ExprV, ErrV>
    decreases e, 0int,
{
    match e {
        ExprV::Lit(_) => Ok(e),
        ExprV::Unary { op, expr } => match bind_spec(*expr, env) {
            Err(err) => Err(err),
            Ok(b) => Ok(ExprV::Unary { op, expr: Box::new(b) }),
        },
        ExprV::Binary { op, left, right } => match bind_spec(*left, env) {
            Err(err) => Err(err),
            Ok(l) => match bind_spec(*right, env) {
                Err(err) => Err(err),
                Ok(r) => Ok(ExprV::Binary { op, left: Box::new(l), right: Box::new(r) }),
            },
        },
        ExprV::Call { func, args } => match bind_args(args, 0, Seq::empty(), env) {
            Err(err) => Err(err),
            Ok(bs) => Ok(ExprV::Call { func, args: bs }),
        },
        ExprV::Path(p) => bind_path_spec(p, env),
        ExprV::Prop(_) => Ok(e),
        ExprV::Var(_) => Ok(e),
        ExprV::Time(_) => Ok(e),
    }
}

/// Binding of `args[k..]` after the already bound `acc`.
pub open spec fn bind_args(args: Seq<ExprV>, k: int, acc: Seq<ExprV>, env: BindEnv) -> Result<Seq<ExprV>, ErrV>
    decreases args, args.len() - k,
{
    if k < 0 || k >= args.len() {
        Ok(acc)
    } else {
        match bind_spec(args[k], env) {
            Err(err) => Err(err),
            Ok(b) => bind_args(args, k + 1, acc.push(b), env),
        }
    }
}

/// The interner's names are distinct and fit `u32` ids.
pub open spec fn names_ok(names: Seq<Seq<char>>) -> bool {
    &&& names.len() <= u32::MAX + 1
    &&& forall|i: int, j: int| 0 <= i < j < names.len() ==> names[i] != names[j]
}

proof fn lemma_name_id(names: Seq<Seq<char>>, s: Seq<char>, id: u32)
    requires
        names_ok(names),
        id < names.len(),
        names[id as int] == s,
    ensures
        name_id(names, s) == Some(id),
{
    assert(names.contains(s));
    let c = choose|i: int| 0 <= i < names.len() && names[i] == s;
    if c != id as int {
        if c < id { assert(names[c] != names[id as int]); } else { assert(names[id as int] != names[c]); }
    }
}

/// Property lane named by path segments after the node part (`opacity`,
/// `transform.translate.x`, ...).
pub fn property_key_from_segments(segs: &[String]) -> (r: Option<PropertyKey>)
    ensures
        r == key_from_segs(strings_view(segs@)),
{
    let n = segs.len();
    let ghost s = strings_view(segs@);
    if n == 1 {
        assert(s[0] == segs@[0]@);
        if is_word(&segs[0], "opacity") {
            return Some(PropertyKey::Opacity);
        }
        return None;
    }
    if n == 2 {
        assert(s[0] == segs@[0]@ && s[1] == segs@[1]@);
        if is_word(&segs[0], "transform") && is_word(&segs[1], "rotation_rad") {
            return Some(PropertyKey::TransformRotationRad);
        }
        if is_word(&segs[0], "switch") && is_word(&segs[1], "active") {
            return Some(PropertyKey::SwitchActiveIndex);
        }
        return None;
    }
    if n == 3 {
        assert(s[0] == segs@[0]@ && s[1] == segs@[1]@ && s[2] == segs@[2]@);
        if !is_word(&segs[0], "transform") {
            return None;
        }
        let x = is_word(&segs[2], "x");
        let y = is_word(&segs[2], "y");
        if is_word(&segs[1], "translate") {
            if x { return Some(PropertyKey::TransformTranslateX); }
            if y { return Some(PropertyKey::TransformTranslateY); }
        } else if is_word(&segs[1], "scale") {
            if x { return Some(PropertyKey::TransformScaleX); }
            if y { return Some(PropertyKey::TransformScaleY); }
        } else if is_word(&segs[1], "anchor") {
            if x { return Some(PropertyKey::TransformAnchorX); }
            if y { return Some(PropertyKey::TransformAnchorY); }
        } else if is_word(&segs[1], "skew") {
            if x { return Some(PropertyKey::TransformSkewX); }
            if y { return Some(PropertyKey::TransformSkewY); }
        }
        return None;
    }
    None
}

fn quoted_error(prefix: &str, s: &String) -> (e: ExprError)
    ensures
        err_view(e) == err0(prefix@ + quoted(s@)),
{
    let mut m = String::from_str(prefix);
    push_str(&mut m, "\"");
    push_str(&mut m, s.as_str());
    push_str(&mut m, "\"");
    assert(m@ =~= prefix@ + quoted(s@));
    ExprError { offset: 0, message: m }
}

fn lane_ref_exec(p: &Vec<String>, from: usize, node: NodeIdx) -> (r: Result<Expr, ExprError>)
    requires
        from <= p@.len(),
    ensures
        match r {
            Ok(b) => lane_ref(strings_view(p@), from as int, node) == Ok::<ExprV, ErrV>(expr_view(b)),
            Err(err) => lane_ref(strings_view(p@), from as int, node) == Err::<ExprV, ErrV>(err_view(err)),
        },
{
    let rest = vstd::slice::slice_subrange(p.as_slice(), from, p.len());
    assert(strings_view(rest@) =~= strings_view(p@).subrange(from as int, p@.len() as int));
    match property_key_from_segments(rest) {
        None => {
            let mut m = String::from_str("unknown property path ");
            let d = path_debug(rest);
            push_str(&mut m, d.as_str());
            Err(ExprError { offset: 0, message: m })
        },
        Some(k) => Ok(Expr::Prop(PropertyIndex::property_id(node, k))),
    }
}

fn time_field(s: &String) -> (r: Option<TimeField>)
    ensures
        r == time_field_of(s@),
{
    if is_word(s, "frame") { Some(TimeField::Frame) }
    else if is_word(s, "fps") { Some(TimeField::Fps) }
    else if is_word(s, "duration") { Some(TimeField::Duration) }
    else if is_word(s, "progress") { Some(TimeField::Progress) }
    else if is_word(s, "seconds") { Some(TimeField::Seconds) }
    else { None }
}

/// Interned id of `s` when the interner holds it.
fn name_lookup(ctx: &BindCtx, s: &String) -> (r: Option<u32>)
    requires
        ctx.interner.wf(),
    ensures
        r == name_id(ctx.interner@, s@),
{
    match ctx.interner.lookup(s.as_str()) {
        Some(id) => {
            proof {
                lemma_name_id(ctx.interner@, s@, id.0);
            }
            Some(id.0)
        },
        None => None,
    }
}

/// Resolve a dotted path against the context.
fn bind_path(p: &Vec<String>, ctx: &BindCtx) -> (r: Result<Expr, ExprError>)
    requires
        ctx.interner.wf(),
    ensures
        match r {
            Ok(b) => bind_path_spec(strings_view(p@), env_of(ctx)) == Ok::<ExprV, ErrV>(expr_view(b)),
            Err(err) => bind_path_spec(strings_view(p@), env_of(ctx)) == Err::<ExprV, ErrV>(err_view(err)),
        },
{
    let ghost sv = strings_view(p@);
    let n = p.len();
    if n == 0 {
        return Err(ExprError::new(0, "empty path"));
    }
    assert(sv[0] == p@[0]@);
    if is_word(&p[0], "self") {
        if n < 2 {
            return Err(ExprError::new(0, "self.<lane> expected"));
        }
        return lane_ref_exec(p, 1, ctx.owner_node);
    }
    if is_word(&p[0], "nodes") {
        if n < 3 {
            return Err(ExprError::new(0, "nodes.<id>.<lane> expected"));
        }
        assert(sv[1] == p@[1]@);
        match name_lookup(ctx, &p[1]) {
            Some(id) => match ctx.node_idx_by_id.get(&id) {
                Some(node) => {
                    return lane_ref_exec(p, 2, *node);
                },
                None => {},
            },
            None => {},
        }
        return Err(quoted_error("unknown node id ", &p[1]));
    }
    if is_word(&p[0], "vars") {
        if n != 2 {
            return Err(ExprError::new(0, "vars.<name> expected"));
        }
        assert(sv[1] == p@[1]@);
        match name_lookup(ctx, &p[1]) {
            Some(id) => match ctx.var_id_by_key.get(&id) {
                Some(v) => {
                    return Ok(Expr::Var(*v));
                },
                None => {},
            },
            None => {},
        }
        return Err(quoted_error("unknown var ", &p[1]));
    }
    if is_word(&p[0], "time") {
        if n != 2 {
            return Err(ExprError::new(0, "time.<field> expected"));
        }
        assert(sv[1] == p@[1]@);
        return match time_field(&p[1]) {
            None => Err(quoted_error("unknown time field ", &p[1])),
            Some(tf) => Ok(Expr::Time(tf)),
        };
    }
    Err(quoted_error("unknown top-level namespace ", &p[0]))
}

fn bind_ref(e: &Expr, ctx: &BindCtx) -> (r: Result<Expr, ExprError>)
    requires
        ctx.interner.wf(),
    ensures
        match r {
            Ok(b) => bind_spec(expr_view(*e), env_of(ctx)) == Ok::<ExprV, ErrV>(expr_view(b)),
            Err(err) => bind_spec(expr_view(*e), env_of(ctx)) == Err::<ExprV, ErrV>(err_view(err)),
        },
    decreases e,
{
    match e {
        Expr::Lit(Lit::Number(s)) => Ok(Expr::Lit(Lit::Number(s.clone()))),
        Expr::Lit(Lit::Bool(b)) => Ok(Expr::Lit(Lit::Bool(*b))),
        Expr::Unary { op, expr } => match bind_ref(expr, ctx) {
            Err(err) => Err(err),
            Ok(b) => Ok(Expr::Unary { op: *op, expr: Box::new(b) }),
        },
        Expr::Binary { op, left, right } => match bind_ref(left, ctx) {
            Err(err) => Err(err),
            Ok(l) => match bind_ref(right, ctx) {
                Err(err) => Err(err),
                Ok(r) => Ok(Expr::Binary { op: *op, left: Box::new(l), right: Box::new(r) }),
            },
        },
        Expr::Call { func, args } => {
            proof {
                lemma_call_view(*func, *args);
            }
            let ghost av = args_view(args@);
            let ghost env = env_of(ctx);
            let n = args.len();
            let mut out: Vec<Expr> = Vec::new();
            let mut i: usize = 0;
            assert(args_view(out@) =~= Seq::<ExprV>::empty());
            while i < n
                invariant
                    n == args@.len(),
                    av == args_view(args@),
                    env == env_of(ctx),
                    ctx.interner.wf(),
                    i <= n,
                    bind_args(av, 0, Seq::empty(), env) == bind_args(av, i as int, args_view(out@), env),
                    *e == (Expr::Call { func: *func, args: *args }),
                    expr_view(*e) == (ExprV::Call { func: func@, args: av }),
                decreases n - i,
            {
                assert(av[i as int] == expr_view(args@[i as int]));
                proof {
                    assert(decreases_to!(*args => args@));
                    assert(decreases_to!(args@ => args@[i as int]));
                }
                let ghost before = args_view(out@);
                match bind_ref(&args[i], ctx) {
                    Err(err) => {
                        return Err(err);
                    },
                    Ok(b) => {
                        out.push(b);
                        assert(args_view(out@) =~= before.push(expr_view(b)));
                    },
                }
                i = i + 1;
            }
            let f = func.clone();
            proof {
                lemma_call_view(f, out);
            }
            Ok(Expr::Call { func: f, args: out })
        },
        Expr::Path(p) => bind_path(p, ctx),
        Expr::Prop(pid) => Ok(Expr::Prop(*pid)),
        Expr::Var(v) => Ok(Expr::Var(*v)),
        Expr::Time(t) => Ok(Expr::Time(*t)),
    }
}

/// Resolve every identifier path in `e`: `self.<lane>` and `nodes.<id>.<lane>` to properties,
/// `vars.<name>` to variables and `time.<field>` to time fields. Other nodes are kept.
pub fn bind_expr(e: Expr, ctx: &BindCtx) -> (r: Result<Expr, ExprError>)
    requires
        ctx.interner.wf(),
    ensures
        match r {
            Ok(b) => bind_spec(expr_view(e), env_of(ctx)) == Ok::<ExprV, ErrV>(expr_view(b)),
            Err(err) => bind_spec(expr_view(e), env_of(ctx)) == Err::<ExprV, ErrV>(err_view(err)),
        },
{
    bind_ref(&e, ctx)
}

} // verus!
