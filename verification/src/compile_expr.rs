//! Compilation of a composition's property expressions into one dependency-ordered program.
//!
//! Each expression source is parsed, bound and lowered; every property that an expression reads
//! but that no expression writes gets an entry that samples the node's own lane; the entries
//! are then ordered so that each comes after the properties it reads, ties going to the smaller
//! `(PropertyId, entry index)`.
use vstd::prelude::*;
use std::collections::HashMap;
use crate::ast::VarId;
use crate::bind::{BindCtx, BindEnv, bind_expr, bind_spec, env_of};
use crate::bytecode::{BytecodeProgram, Op};
use crate::intern::StringInterner;
use crate::lexer::{ErrV, ExprError, err_view};
use crate::lower::{Emitted, emitted, lower_to_bytecode, spec_lower};
use crate::parser::{parse_expr, spec_parse_expr};
use crate::plan::{InternId, NodeIdx};
use crate::property::{PROPERTY_KEY_COUNT, PropertyId, PropertyKey, ValueType, key_code, key_of_code, property_key_from_u32, value_type_for_lane};
use crate::text::{decimal, push_decimal, push_str};
use crate::topo::{deps_in_range, find_cycle, greedy_run, is_cycle, law_stalled_run_has_cycle, stalled, topo_order};

verus! {

/// Value type declared for an expression's target.
#[derive(Debug, Clone, Copy, PartialEq, Eq)]
pub enum ValueTypeIR {
    /// Boolean.
    Bool,
    /// Floating-point number.
    F64,
    /// Unsigned integer.
    U64,
    /// Colour.
    Color,
}

/// Program value type of a declared type.
pub open spec fn value_type_of(v: ValueTypeIR) -> ValueType {
    match v {
        ValueTypeIR::Bool => ValueType::Bool,
        ValueTypeIR::F64 => ValueType::F64,
        ValueTypeIR::U64 => ValueType::U64,
        ValueTypeIR::Color => ValueType::Color,
    }
}

/// Program value type of a declared type.
pub fn map_value_type(v: ValueTypeIR) -> (r: ValueType)
    ensures
        r == value_type_of(v),
{
    match v {
        ValueTypeIR::Bool => ValueType::Bool,
        ValueTypeIR::F64 => ValueType::F64,
        ValueTypeIR::U64 => ValueType::U64,
        ValueTypeIR::Color => ValueType::Color,
    }
}

/// An expression to compile: the property it defines, its declared type, and its source text.
#[derive(Debug, Clone, Copy)]
pub struct ExprSourceIR {
    /// Property written.
    pub target: PropertyId,
    /// Declared value type.
    pub value_type: ValueTypeIR,
    /// Interned source text.
    pub src: InternId,
}

/// How a property's value is produced.
#[derive(Debug, Clone)]
pub enum PropertyProgram {
    /// Evaluate compiled bytecode.
    Expr(BytecodeProgram),
    /// Sample the node's own animated lane.
    SampleNodeLane { node: NodeIdx, lane: PropertyKey },
}

/// One property of the program.
#[derive(Debug, Clone)]
pub struct PropertyEntry {
    /// Property produced.
    pub pid: PropertyId,
    /// Node owning the property.
    pub owner_node: NodeIdx,
    /// Value type.
    pub value_type: ValueType,
    /// How it is produced.
    pub program: PropertyProgram,
}

/// All expression-driven properties of a composition, in evaluation order.
#[derive(Debug, Clone)]
pub struct ExprProgram {
    /// Properties, dependencies first.
    pub eval_order: Vec<PropertyId>,
    /// Entries: compiled expressions in source order, then lane samples in increasing id.
    pub entries: Vec<PropertyEntry>,
    /// Dense map `pid -> entry index` (the last entry with that id).
    pub entry_by_pid: Vec<Option<u32>>,
}

/// Error compiling the expression program.
#[derive(Debug, Clone)]
pub struct ExprCompileError {
    /// Description.
    pub message: String,
}

impl ExprCompileError {
    /// An error with message `msg`.
    pub fn new(msg: &str) -> (e: Self)
        ensures
            e.message@ == msg@,
    {
        ExprCompileError { message: String::from_str(msg) }
    }
}

/// How a property is produced, with bytecode as instructions and constant views.
pub enum ProgV {
    Expr(Emitted),
    Sample(NodeIdx, PropertyKey),
}

/// Abstract entry.
pub struct EntryV {
    pub pid: u32,
    pub owner: NodeIdx,
    pub vt: ValueType,
    pub prog: ProgV,
}

/// View of an entry.
pub open spec fn entry_view(e: PropertyEntry) -> EntryV {
    EntryV {
        pid: e.pid.0,
        owner: e.owner_node,
        vt: e.value_type,
        prog: match e.program {
            PropertyProgram::Expr(p) => ProgV::Expr(emitted(p)),
            PropertyProgram::SampleNodeLane { node, lane } => ProgV::Sample(node, lane),
        },
    }
}

/// Views of entries.
pub open spec fn entries_view(es: Seq<PropertyEntry>) -> Seq<EntryV> {
    Seq::new(es.len(), |i: int| entry_view(es[i]))
}

/// Text of an expression error: `expr error at byte <offset>: <message>`.
pub open spec fn error_text(e: ErrV) -> Seq<char> {
    "expr error at byte "@ + decimal(e.offset as nat) + ": "@ + e.message
}

/// Node owning property `pid`.
pub open spec fn owner_of(pid: u32) -> NodeIdx {
    NodeIdx(pid / PROPERTY_KEY_COUNT)
}

/// Every source names interned text that parses without cutting a character.
pub open spec fn sources_ok(ss: Seq<ExprSourceIR>, names: Seq<Seq<char>>) -> bool {
    forall|i: int| 0 <= i < ss.len() ==> {
        &&& (#[trigger] ss[i]).src.0 < names.len()
        &&& spec_parse_expr(names[ss[i].src.0 as int]) is Some
    }
}

/// Entry compiled from one source, or its error text.
#[verifier::opaque]
pub open spec fn source_spec(s: ExprSourceIR, names: Seq<Seq<char>>, nodes: Map<u32, NodeIdx>, vars: Map<u32, VarId>) -> Result<EntryV, Seq<char>> {
    let owner = owner_of(s.target.0);
    match spec_parse_expr(names[s.src.0 as int]) {
        Some(Ok(ast)) => match bind_spec(ast, BindEnv { owner, names, nodes, vars }) {
            Ok(b) => match spec_lower(b) {
                Ok(em) => Ok(EntryV { pid: s.target.0, owner, vt: value_type_of(s.value_type), prog: ProgV::Expr(em) }),
                Err(e) => Err(error_text(e)),
            },
            Err(e) => Err(error_text(e)),
        },
        Some(Err(e)) => Err(error_text(e)),
        None => Err(Seq::empty()),
    }
}

/// Entries of all sources in order, or the first error text.
pub open spec fn sources_spec(ss: Seq<ExprSourceIR>, names: Seq<Seq<char>>, nodes: Map<u32, NodeIdx>, vars: Map<u32, VarId>) -> Result<Seq<EntryV>, Seq<char>>
    decreases ss.len(),
{
    if ss.len() == 0 {
        Ok(Seq::empty())
    } else {
        match sources_spec(ss.drop_last(), names, nodes, vars) {
            Err(m) => Err(m),
            Ok(es) => match source_spec(ss.last(), names, nodes, vars) {
                Err(m) => Err(m),
                Ok(e) => Ok(es.push(e)),
            },
        }
    }
}

/// Property ids read by instructions, in order.
pub open spec fn load_pids(ops: Seq<Op>) -> Seq<u32>
    decreases ops.len(),
{
    if ops.len() == 0 {
        Seq::empty()
    } else {
        let r = load_pids(ops.drop_last());
        match ops.last() {
            Op::LoadProp(pid) => r.push(pid.0),
            _ => r,
        }
    }
}

/// Property ids read by a program.
pub open spec fn prog_loads(p: ProgV) -> Seq<u32> {
    match p {
        ProgV::Expr(em) => load_pids(em.0),
        ProgV::Sample(_, _) => Seq::empty(),
    }
}

/// Some entry produces `q`.
pub open spec fn is_target(es: Seq<EntryV>, q: u32) -> bool {
    exists|i: int| 0 <= i < es.len() && (#[trigger] es[i]).pid == q
}

/// Some entry reads `q`.
pub open spec fn is_loaded(es: Seq<EntryV>, q: u32) -> bool {
    exists|i: int| 0 <= i < es.len() && prog_loads((#[trigger] es[i]).prog).contains(q)
}

/// `st` lists, in strictly increasing order, exactly the ids read but not produced.
#[verifier::opaque]
pub open spec fn stubs_ok(es: Seq<EntryV>, st: Seq<u32>) -> bool {
    &&& forall|a: int, b: int| 0 <= a < b < st.len() ==> st[a] < st[b]
    &&& forall|q: u32| #[trigger] st.contains(q) <==> (is_loaded(es, q) && !is_target(es, q))
}

/// Value type of a lane sampled directly.
pub open spec fn lane_value_type(k: PropertyKey) -> ValueType {
    if k == PropertyKey::SwitchActiveIndex { ValueType::U64 } else { ValueType::F64 }
}

/// Entry that samples lane `q % PROPERTY_KEY_COUNT` of node `q / PROPERTY_KEY_COUNT`.
pub open spec fn stub_view(q: u32) -> EntryV {
    let lane = key_of_code(q % PROPERTY_KEY_COUNT).unwrap();
    EntryV { pid: q, owner: owner_of(q), vt: lane_value_type(lane), prog: ProgV::Sample(owner_of(q), lane) }
}

/// Sample entries for the ids in `st`.
pub open spec fn stub_views(st: Seq<u32>) -> Seq<EntryV> {
    Seq::new(st.len(), |k: int| stub_view(st[k]))
}

/// Largest id among the entries (`0` when there are none).
pub open spec fn max_pid(es: Seq<EntryV>) -> u32
    decreases es.len(),
{
    if es.len() == 0 {
        0
    } else {
        let m = max_pid(es.drop_last());
        if es.last().pid > m { es.last().pid } else { m }
    }
}

/// Index of the last of the first `m` entries with id `q`.
pub open spec fn last_with_pid(es: Seq<EntryV>, q: u32, m: int) -> Option<u32>
    decreases m,
{
    if m <= 0 || m > es.len() {
        None
    } else if es[m - 1].pid == q {
        Some((m - 1) as u32)
    } else {
        last_with_pid(es, q, m - 1)
    }
}

/// `ebp` is the dense id-to-entry map of `es`.
pub open spec fn ebp_ok(es: Seq<EntryV>, ebp: Seq<Option<u32>>) -> bool {
    &&& ebp.len() == max_pid(es) + 1
    &&& forall|q: int| 0 <= q < ebp.len() ==> #[trigger] ebp[q] == last_with_pid(es, q as u32, es.len() as int)
}

/// Entry indices read by entry `i`, one per read.
pub open spec fn deps_of(es: Seq<EntryV>, ebp: Seq<Option<u32>>, i: int) -> Seq<u32> {
    let l = prog_loads(es[i].prog);
    Seq::new(l.len(), |t: int| ebp[l[t] as int].unwrap())
}

/// Dependency lists of all entries.
pub open spec fn deps_view(es: Seq<EntryV>, ebp: Seq<Option<u32>>) -> Seq<Seq<u32>> {
    Seq::new(es.len(), |i: int| deps_of(es, ebp, i))
}

/// Tie-break keys: the entries' ids.
pub open spec fn keys_view(es: Seq<EntryV>) -> Seq<u32> {
    Seq::new(es.len(), |i: int| es[i].pid)
}

/// `PropertyId(<p>)` for each id of `c`, joined with ` -> `.
pub open spec fn cycle_path_text(c: Seq<u32>) -> Seq<char>
    decreases c.len(),
{
    if c.len() == 0 {
        Seq::empty()
    } else if c.len() == 1 {
        "PropertyId("@ + decimal(c[0] as nat) + ")"@
    } else {
        cycle_path_text(c.drop_last()) + " -> "@ + "PropertyId("@ + decimal(c.last() as nat) + ")"@
    }
}

/// Message of a dependency-cycle error listing the ids of cycle `c` (none when empty).
pub open spec fn cycle_message(c: Seq<u32>) -> Seq<char> {
    if c.len() == 0 {
        "expression dependency cycle detected"@
    } else {
        "expression dependency cycle detected: "@ + cycle_path_text(c)
    }
}

// ---------------------------------------------------------------------------------------------
// Executable stages
// ---------------------------------------------------------------------------------------------

/// `expr error at byte <offset>: <message>`.
fn expr_error_text(e: &ExprError) -> (r: String)
    ensures
        r@ == error_text(err_view(*e)),
{
    let mut m = String::from_str("expr error at byte ");
    push_decimal(&mut m, e.offset as u64);
    push_str(&mut m, ": ");
    push_str(&mut m, e.message.as_str());
    m
}

fn compile_error_of(e: &ExprError) -> (r: ExprCompileError)
    ensures
        r.message@ == error_text(err_view(*e)),
{
    ExprCompileError { message: expr_error_text(e) }
}

/// Node that owns property `pid`.
pub fn pid_to_owner_node(pid: PropertyId) -> (r: NodeIdx)
    ensures
        r == owner_of(pid.0),
{
    NodeIdx(pid.0 / PROPERTY_KEY_COUNT)
}

proof fn lemma_every_code_is_a_lane(v: u32)
    requires
        v < PROPERTY_KEY_COUNT,
    ensures
        key_of_code(v) is Some,
{
}

/// Node and lane of property `pid`. Every id names a lane, so this always succeeds.
pub fn pid_to_node_lane(pid: PropertyId) -> (r: Result<(NodeIdx, PropertyKey), ExprCompileError>)
    ensures
        r matches Ok((n, k)) && n == owner_of(pid.0) && Some(k) == key_of_code(pid.0 % PROPERTY_KEY_COUNT),
{
    let node = pid.0 / PROPERTY_KEY_COUNT;
    let key = pid.0 % PROPERTY_KEY_COUNT;
    proof {
        lemma_every_code_is_a_lane(key);
    }
    match property_key_from_u32(key) {
        Some(lane) => Ok((NodeIdx(node), lane)),
        None => {
            let mut m = String::from_str("invalid property key ");
            push_decimal(&mut m, key as u64);
            push_str(&mut m, " in PropertyId(");
            push_decimal(&mut m, pid.0 as u64);
            push_str(&mut m, ")");
            Err(ExprCompileError { message: m })
        },
    }
}

/// Compile one expression source into its entry.
pub fn compile_expr_source(
    src: &ExprSourceIR,
    interner: &StringInterner,
    node_idx_by_id: &HashMap<u32, NodeIdx>,
    var_id_by_key: &HashMap<u32, VarId>,
) -> (r: Result<PropertyEntry, ExprCompileError>)
    requires
        interner.wf(),
        src.src.0 < interner@.len(),
        spec_parse_expr(interner@[src.src.0 as int]) is Some,
    ensures
        match r {
            Ok(e) => source_spec(*src, interner@, node_idx_by_id@, var_id_by_key@) == Ok::<EntryV, Seq<char>>(entry_view(e)),
            Err(e) => source_spec(*src, interner@, node_idx_by_id@, var_id_by_key@) == Err::<EntryV, Seq<char>>(e.message@),
        },
{
    reveal(source_spec);
    let owner_node = pid_to_owner_node(src.target);
    let expr_src = interner.get(src.src);
    let ast = match parse_expr(expr_src) {
        Ok(a) => a,
        Err(e) => {
            return Err(compile_error_of(&e));
        },
    };
    let ctx = BindCtx { owner_node, interner, node_idx_by_id, var_id_by_key };
    let bound = match bind_expr(ast, &ctx) {
        Ok(b) => b,
        Err(e) => {
            return Err(compile_error_of(&e));
        },
    };
    let bc = match lower_to_bytecode(&bound) {
        Ok(p) => p,
        Err(e) => {
            return Err(compile_error_of(&e));
        },
    };
    Ok(PropertyEntry {
        pid: src.target,
        owner_node,
        value_type: map_value_type(src.value_type),
        program: PropertyProgram::Expr(bc),
    })
}


fn compile_all_sources(
    sources: &Vec<ExprSourceIR>,
    interner: &StringInterner,
    node_idx_by_id: &HashMap<u32, NodeIdx>,
    var_id_by_key: &HashMap<u32, VarId>,
) -> (r: Result<Vec<PropertyEntry>, ExprCompileError>)
    requires
        interner.wf(),
        sources_ok(sources@, interner@),
    ensures
        match r {
            Ok(es) => sources_spec(sources@, interner@, node_idx_by_id@, var_id_by_key@) == Ok::<Seq<EntryV>, Seq<char>>(entries_view(es@)),
            Err(e) => sources_spec(sources@, interner@, node_idx_by_id@, var_id_by_key@) == Err::<Seq<EntryV>, Seq<char>>(e.message@),
        },
{
    let n = sources.len();
    let mut entries: Vec<PropertyEntry> = Vec::new();
    let mut i: usize = 0;
    assert(sources@.take(0) =~= Seq::<ExprSourceIR>::empty());
    assert(entries_view(entries@) =~= Seq::<EntryV>::empty());
    while i < n
        invariant
            n == sources@.len(),
            i <= n,
            interner.wf(),
            sources_ok(sources@, interner@),
            sources_spec(sources@.take(i as int), interner@, node_idx_by_id@, var_id_by_key@) == Ok::<Seq<EntryV>, Seq<char>>(entries_view(entries@)),
        decreases n - i,
    {
        assert(sources@.take(i + 1).drop_last() =~= sources@.take(i as int));
        assert(sources@.take(i + 1).last() == sources@[i as int]);
        assert(sources@[i as int].src.0 < interner@.len());
        match compile_expr_source(&sources[i], interner, node_idx_by_id, var_id_by_key) {
            Err(e) => {
                proof {
                    lemma_sources_err_extends(sources@, i as int + 1, interner@, node_idx_by_id@, var_id_by_key@, e.message@);
                }
                return Err(e);
            },
            Ok(e) => {
                let ghost before = entries_view(entries@);
                entries.push(e);
                assert(entries_view(entries@) =~= before.push(entry_view(e)));
            },
        }
        i = i + 1;
    }
    assert(sources@.take(n as int) =~= sources@);
    Ok(entries)
}

/// An error of a prefix is the error of the whole.
proof fn lemma_sources_err_extends(ss: Seq<ExprSourceIR>, m: int, names: Seq<Seq<char>>, nodes: Map<u32, NodeIdx>, vars: Map<u32, VarId>, msg: Seq<char>)
    requires
        0 <= m <= ss.len(),
        sources_spec(ss.take(m), names, nodes, vars) == Err::<Seq<EntryV>, Seq<char>>(msg),
    ensures
        sources_spec(ss, names, nodes, vars) == Err::<Seq<EntryV>, Seq<char>>(msg),
    decreases ss.len() - m,
{
    if m < ss.len() {
        assert(ss.take(m + 1).drop_last() =~= ss.take(m));
        lemma_sources_err_extends(ss, m + 1, names, nodes, vars, msg);
    } else {
        assert(ss.take(m) =~= ss);
    }
}

/// Some entry produces `q`.
fn has_target(entries: &Vec<PropertyEntry>, q: u32) -> (r: bool)
    ensures
        r == is_target(entries_view(entries@), q),
{
    let n = entries.len();
    let mut i: usize = 0;
    while i < n
        invariant
            n == entries@.len(),
            i <= n,
            forall|k: int| 0 <= k < i ==> entries@[k].pid.0 != q,
        decreases n - i,
    {
        if entries[i].pid.0 == q {
            assert(entries_view(entries@)[i as int].pid == q);
            return true;
        }
        i = i + 1;
    }
    proof {
        if is_target(entries_view(entries@), q) {
            let k = choose|k: int| 0 <= k < entries_view(entries@).len() && (#[trigger] entries_view(entries@)[k]).pid == q;
            assert(entries@[k].pid.0 == q);
        }
    }
    false
}

/// Insert `x` into a strictly increasing list, keeping it strictly increasing.
fn insert_sorted(v: &mut Vec<u32>, x: u32)
    requires
        forall|a: int, b: int| 0 <= a < b < old(v)@.len() ==> old(v)@[a] < old(v)@[b],
    ensures
        forall|a: int, b: int| 0 <= a < b < final(v)@.len() ==> final(v)@[a] < final(v)@[b],
        forall|q: u32| #[trigger] final(v)@.contains(q) <==> (old(v)@.contains(q) || q == x),
{
    let n = v.len();
    let mut p: usize = 0;
    while p < n && v[p] < x
        invariant
            n == v@.len(),
            p <= n,
            forall|k: int| 0 <= k < p ==> v@[k] < x,
        decreases n - p,
    {
        p = p + 1;
    }
    if p < n && v[p] == x {
        return;
    }
    let ghost v0 = v@;
    v.insert(p, x);
    proof {
        assert(v@ =~= v0.insert(p as int, x));
        assert forall|a: int, b: int| 0 <= a < b < v@.len() implies v@[a] < v@[b] by {
            if b < p {
            } else if b == p {
                assert(v@[a] == v0[a]);
            } else if a < p {
                assert(v@[b] == v0[b - 1]);
                if b - 1 > p as int { assert(v0[p as int] < v0[b - 1]); }
                assert(v0[p as int] > x || p as int == b - 1);
            } else if a == p {
                assert(v@[b] == v0[b - 1]);
                if b - 1 > p as int { assert(v0[p as int] < v0[b - 1]); }
            } else {
                assert(v@[a] == v0[a - 1] && v@[b] == v0[b - 1]);
            }
        }
        assert forall|q: u32| #[trigger] v@.contains(q) <==> (v0.contains(q) || q == x) by {
            if v@.contains(q) {
                let k = choose|k: int| 0 <= k < v@.len() && v@[k] == q;
                if k < p { assert(v0[k] == q); } else if k > p { assert(v0[k - 1] == q); }
            }
            if v0.contains(q) {
                let k = choose|k: int| 0 <= k < v0.len() && v0[k] == q;
                if k < p { assert(v@[k] == q); } else { assert(v@[k + 1] == q); }
            }
            if q == x {
                assert(v@[p as int] == x);
            }
        }
    }
}

/// Ids read by some entry and produced by none, in increasing order.
fn collect_stubs(entries: &Vec<PropertyEntry>) -> (st: Vec<u32>)
    ensures
        stubs_ok(entries_view(entries@), st@),
{
    reveal(stubs_ok);
    let ghost ev = entries_view(entries@);
    let n = entries.len();
    let mut st: Vec<u32> = Vec::new();
    let mut i: usize = 0;
    while i < n
        invariant
            n == entries@.len(),
            ev == entries_view(entries@),
            i <= n,
            forall|a: int, b: int| 0 <= a < b < st@.len() ==> st@[a] < st@[b],
            forall|q: u32| #[trigger] st@.contains(q) <==> (is_loaded(ev.take(i as int), q) && !is_target(ev, q)),
        decreases n - i,
    {
        match &entries[i].program {
            PropertyProgram::Expr(bc) => {
                let ops = &bc.ops;
                let no = ops.len();
                let mut t: usize = 0;
                assert(ops@.take(0) =~= Seq::<Op>::empty());
                while t < no
                    invariant
                        n == entries@.len(),
                        ev == entries_view(entries@),
                        i < n,
                        entries@[i as int].program == PropertyProgram::Expr(*bc),
                        ops@ == bc.ops@,
                        no == ops@.len(),
                        t <= no,
                        forall|a: int, b: int| 0 <= a < b < st@.len() ==> st@[a] < st@[b],
                        forall|q: u32| #[trigger] st@.contains(q) <==> ((is_loaded(ev.take(i as int), q) || load_pids(ops@.take(t as int)).contains(q)) && !is_target(ev, q)),
                    decreases no - t,
                {
                    assert(ops@.take(t + 1).drop_last() =~= ops@.take(t as int));
                    match ops[t] {
                        Op::LoadProp(pid) => {
                            let ghost lp = load_pids(ops@.take(t as int));
                            if !has_target(entries, pid.0) {
                                insert_sorted(&mut st, pid.0);
                            }
                            proof {
                                assert forall|q: u32| #[trigger] st@.contains(q) <==> ((is_loaded(ev.take(i as int), q) || load_pids(ops@.take(t + 1)).contains(q)) && !is_target(ev, q)) by {
                                    lemma_push_contains_u32(lp, pid.0, q);
                                }
                            }
                        },
                        _ => {},
                    }
                    t = t + 1;
                }
                proof {
                    assert(ops@.take(no as int) =~= ops@);
                    assert forall|q: u32| #[trigger] st@.contains(q) <==> (is_loaded(ev.take(i + 1), q) && !is_target(ev, q)) by {
                        lemma_loaded_step(ev, i as int, q);
                    }
                }
            },
            PropertyProgram::SampleNodeLane { .. } => {
                proof {
                    assert forall|q: u32| #[trigger] st@.contains(q) <==> (is_loaded(ev.take(i + 1), q) && !is_target(ev, q)) by {
                        lemma_loaded_step(ev, i as int, q);
                    }
                }
            },
        }
        i = i + 1;
    }
    assert(ev.take(n as int) =~= ev);
    st
}

proof fn lemma_push_contains_u32(s: Seq<u32>, v: u32, x: u32)
    ensures
        s.push(v).contains(x) <==> (s.contains(x) || x == v),
{
    if s.push(v).contains(x) && x != v {
        let k = choose|k: int| 0 <= k < s.push(v).len() && s.push(v)[k] == x;
        assert(s[k] == x);
    }
    if s.contains(x) {
        let k = choose|k: int| 0 <= k < s.len() && s[k] == x;
        assert(s.push(v)[k] == x);
    }
    assert(s.push(v)[s.len() as int] == v);
}

proof fn lemma_loaded_step(ev: Seq<EntryV>, i: int, q: u32)
    requires
        0 <= i < ev.len(),
    ensures
        is_loaded(ev.take(i + 1), q) <==> (is_loaded(ev.take(i), q) || prog_loads(ev[i].prog).contains(q)),
{
    if is_loaded(ev.take(i + 1), q) {
        let k = choose|k: int| 0 <= k < ev.take(i + 1).len() && prog_loads((#[trigger] ev.take(i + 1)[k]).prog).contains(q);
        if k < i {
            assert(ev.take(i)[k] == ev[k]);
        }
    }
    if is_loaded(ev.take(i), q) {
        let k = choose|k: int| 0 <= k < ev.take(i).len() && prog_loads((#[trigger] ev.take(i)[k]).prog).contains(q);
        assert(ev.take(i + 1)[k] == ev[k]);
    }
    if prog_loads(ev[i].prog).contains(q) {
        assert(ev.take(i + 1)[i] == ev[i]);
    }
}


/// Append a sampling entry for each id of `st`.
fn push_stubs(entries: &mut Vec<PropertyEntry>, st: &Vec<u32>) -> (r: Result<(), ExprCompileError>)
    ensures
        r is Ok,
        entries_view(final(entries)@) == entries_view(old(entries)@) + stub_views(st@),
{
    let n = st.len();
    let ghost e0 = entries_view(entries@);
    let mut k: usize = 0;
    assert(stub_views(st@.take(0)) =~= Seq::<EntryV>::empty());
    assert(e0 + Seq::<EntryV>::empty() =~= e0);
    while k < n
        invariant
            n == st@.len(),
            k <= n,
            entries_view(entries@) == e0 + stub_views(st@.take(k as int)),
        decreases n - k,
    {
        let q = st[k];
        let (node, lane) = match pid_to_node_lane(PropertyId(q)) {
            Ok(v) => v,
            Err(e) => {
                return Err(e);
            },
        };
        let ghost before = entries_view(entries@);
        entries.push(PropertyEntry {
            pid: PropertyId(q),
            owner_node: node,
            value_type: value_type_for_lane(lane),
            program: PropertyProgram::SampleNodeLane { node, lane },
        });
        proof {
            assert(stub_views(st@.take(k + 1)) =~= stub_views(st@.take(k as int)).push(stub_view(q)));
            assert(entries_view(entries@) =~= before.push(stub_view(q)));
        }
        k = k + 1;
    }
    assert(st@.take(n as int) =~= st@);
    Ok(())
}

proof fn lemma_max_pid_bound(es: Seq<EntryV>, i: int)
    requires
        0 <= i < es.len(),
    ensures
        es[i].pid <= max_pid(es),
    decreases es.len(),
{
    if i < es.len() - 1 {
        lemma_max_pid_bound(es.drop_last(), i);
    }
}

proof fn lemma_last_with_pid(es: Seq<EntryV>, q: u32, m: int)
    requires
        0 <= m <= es.len(),
        es.len() <= u32::MAX + 1,
    ensures
        last_with_pid(es, q, m) matches Some(j) ==> (j as int) < m && es[j as int].pid == q,
        (exists|i: int| 0 <= i < m && es[i].pid == q) ==> last_with_pid(es, q, m) is Some,
    decreases m,
{
    if m > 0 {
        lemma_last_with_pid(es, q, m - 1);
        if es[m - 1].pid != q && (exists|i: int| 0 <= i < m && es[i].pid == q) {
            let i = choose|i: int| 0 <= i < m && es[i].pid == q;
            assert(i < m - 1);
        }
    }
}

/// Every id an entry produces or reads indexes a dense table of `usize` length (always so on
/// 64-bit targets).
pub open spec fn pids_fit(es: Seq<EntryV>) -> bool {
    forall|i: int| 0 <= i < es.len() ==> (#[trigger] es[i]).pid < usize::MAX
        && forall|q: u32| prog_loads(es[i].prog).contains(q) ==> q < usize::MAX
}

proof fn lemma_max_pid_below(es: Seq<EntryV>)
    requires
        forall|i: int| 0 <= i < es.len() ==> (#[trigger] es[i]).pid < usize::MAX,
    ensures
        max_pid(es) < usize::MAX,
    decreases es.len(),
{
    if es.len() > 0 {
        let pre = es.drop_last();
        assert forall|i: int| 0 <= i < pre.len() implies (#[trigger] pre[i]).pid < usize::MAX by {
            assert(pre[i] == es[i]);
        }
        lemma_max_pid_below(pre);
        assert(es.last() == es[es.len() - 1]);
    }
}

proof fn lemma_stub_pids_fit(es: Seq<EntryV>, st: Seq<u32>)
    requires
        stubs_ok(es, st),
        pids_fit(es),
    ensures
        max_pid(es + stub_views(st)) < usize::MAX,
{
    reveal(stubs_ok);
    let all = es + stub_views(st);
    assert forall|i: int| 0 <= i < all.len() implies (#[trigger] all[i]).pid < usize::MAX by {
        if i < es.len() {
            assert(all[i] == es[i]);
        } else {
            let q = st[i - es.len()];
            assert(all[i] == stub_view(q));
            assert(st.contains(q));
            assert(is_loaded(es, q));
            let j = choose|j: int| 0 <= j < es.len() && prog_loads((#[trigger] es[j]).prog).contains(q);
            assert(pids_fit(es));
            assert(es[j].pid < usize::MAX);
        }
    }
    lemma_max_pid_below(all);
}

/// Dense map from property id to the last entry with that id.
fn build_entry_by_pid(entries: &Vec<PropertyEntry>) -> (ebp: Vec<Option<u32>>)
    requires
        entries@.len() <= u32::MAX,
        max_pid(entries_view(entries@)) < usize::MAX,
    ensures
        ebp_ok(entries_view(entries@), ebp@),
{
    let ghost ev = entries_view(entries@);
    let n = entries.len();
    let mut m: u32 = 0;
    let mut i: usize = 0;
    while i < n
        invariant
            n == entries@.len(),
            ev == entries_view(entries@),
            i <= n,
            m == max_pid(ev.take(i as int)),
        decreases n - i,
    {
        assert(ev.take(i + 1).drop_last() =~= ev.take(i as int));
        if entries[i].pid.0 > m {
            m = entries[i].pid.0;
        }
        i = i + 1;
    }
    assert(ev.take(n as int) =~= ev);
    let len: usize = m as usize + 1;
    let mut ebp: Vec<Option<u32>> = Vec::new();
    let mut q: usize = 0;
    while q < len
        invariant
            q <= len,
            ebp@.len() == q,
            forall|k: int| 0 <= k < q ==> ebp@[k] is None,
        decreases len - q,
    {
        ebp.push(None);
        q = q + 1;
    }
    i = 0;
    while i < n
        invariant
            n == entries@.len(),
            n <= u32::MAX,
            ev == entries_view(entries@),
            i <= n,
            len == max_pid(ev) + 1,
            ebp@.len() == len,
            forall|k: int| 0 <= k < len ==> #[trigger] ebp@[k] == last_with_pid(ev, k as u32, i as int),
        decreases n - i,
    {
        let p = entries[i].pid.0;
        proof {
            lemma_max_pid_bound(ev, i as int);
        }
        let ghost prev = ebp@;
        ebp.set(p as usize, Some(i as u32));
        proof {
            assert forall|k: int| 0 <= k < len implies #[trigger] ebp@[k] == last_with_pid(ev, k as u32, i + 1) by {
                if k != p as int {
                    assert(ebp@[k] == prev[k]);
                }
            }
        }
        i = i + 1;
    }
    ebp
}

/// Every id read by an entry of `all` is produced by one.
pub open spec fn loads_targeted(all: Seq<EntryV>) -> bool {
    forall|i: int, q: u32| 0 <= i < all.len() && #[trigger] prog_loads(all[i].prog).contains(q) ==> is_target(all, q)
}

proof fn lemma_stubs_target_loads(es: Seq<EntryV>, st: Seq<u32>)
    requires
        stubs_ok(es, st),
    ensures
        loads_targeted(es + stub_views(st)),
{
    reveal(stubs_ok);
    let all = es + stub_views(st);
    assert forall|i: int, q: u32| 0 <= i < all.len() && #[trigger] prog_loads(all[i].prog).contains(q) implies is_target(all, q) by {
        if i < es.len() {
            assert(all[i] == es[i]);
            assert(is_loaded(es, q));
            if is_target(es, q) {
                let k = choose|k: int| 0 <= k < es.len() && (#[trigger] es[k]).pid == q;
                assert(all[k] == es[k]);
            } else {
                assert(st.contains(q));
                let k = choose|k: int| 0 <= k < st.len() && st[k] == q;
                assert(all[es.len() + k] == stub_view(q));
            }
        } else {
            assert(all[i] == stub_view(st[i - es.len()]));
        }
    }
}

/// Entry indices each entry reads, in read order.
fn build_deps(entries: &Vec<PropertyEntry>, ebp: &Vec<Option<u32>>) -> (r: Result<Vec<Vec<u32>>, ExprCompileError>)
    requires
        entries@.len() <= u32::MAX,
        ebp_ok(entries_view(entries@), ebp@),
        loads_targeted(entries_view(entries@)),
    ensures
        r matches Ok(deps) && deps@.len() == entries@.len()
            && (forall|i: int| 0 <= i < deps@.len() ==> (#[trigger] deps@[i])@ == deps_of(entries_view(entries@), ebp@, i))
            && (forall|j: int, t: int| 0 <= j < deps@.len() && 0 <= t < deps@[j]@.len() ==> (#[trigger] deps@[j]@[t]) < deps@.len()),
{
    let ghost ev = entries_view(entries@);
    let n = entries.len();
    let mut deps: Vec<Vec<u32>> = Vec::new();
    let mut i: usize = 0;
    while i < n
        invariant
            n == entries@.len(),
            n <= u32::MAX,
            ev == entries_view(entries@),
            ebp_ok(ev, ebp@),
            loads_targeted(ev),
            i <= n,
            deps@.len() == i,
            forall|k: int| 0 <= k < i ==> (#[trigger] deps@[k])@ == deps_of(ev, ebp@, k),
            forall|j: int, t: int| 0 <= j < i && 0 <= t < deps@[j]@.len() ==> (#[trigger] deps@[j]@[t]) < n,
        decreases n - i,
    {
        let mut row: Vec<u32> = Vec::new();
        match &entries[i].program {
            PropertyProgram::Expr(bc) => {
                let ops = &bc.ops;
                let no = ops.len();
                let mut t: usize = 0;
                assert(ops@.take(0) =~= Seq::<Op>::empty());
                while t < no
                    invariant
                        n == entries@.len(),
                        n <= u32::MAX,
                        ev == entries_view(entries@),
                        ebp_ok(ev, ebp@),
                        loads_targeted(ev),
                        i < n,
                        entries@[i as int].program == PropertyProgram::Expr(*bc),
                        ops@ == bc.ops@,
                        no == ops@.len(),
                        t <= no,
                        row@ == Seq::new(load_pids(ops@.take(t as int)).len(), |u: int| ebp@[load_pids(ops@.take(t as int))[u] as int].unwrap()),
                        forall|u: int| 0 <= u < row@.len() ==> row@[u] < n,
                    decreases no - t,
                {
                    assert(ops@.take(t + 1).drop_last() =~= ops@.take(t as int));
                    match ops[t] {
                        Op::LoadProp(pid) => {
                            let q = pid.0;
                            proof {
                                let l = load_pids(ops@);
                                lemma_load_pids_prefix(ops@, t as int + 1);
                                assert(load_pids(ops@.take(t + 1)).last() == q);
                                assert(prog_loads(ev[i as int].prog) == l);
                                lemma_load_pids_prefix_contains(ops@, t as int + 1, q);
                                assert(is_target(ev, q));
                                let k = choose|k: int| 0 <= k < ev.len() && (#[trigger] ev[k]).pid == q;
                                lemma_max_pid_bound(ev, k);
                                lemma_last_with_pid(ev, q, ev.len() as int);
                            }
                            match ebp[q as usize] {
                                Some(j) => {
                                    let ghost r0 = row@;
                                    row.push(j);
                                    assert(row@ =~= Seq::new(load_pids(ops@.take(t + 1)).len(), |u: int| ebp@[load_pids(ops@.take(t + 1))[u] as int].unwrap()));
                                },
                                None => {
                                    let mut m = String::from_str("missing dependency entry for PropertyId(");
                                    push_decimal(&mut m, q as u64);
                                    push_str(&mut m, ")");
                                    return Err(ExprCompileError { message: m });
                                },
                            }
                        },
                        _ => {
                            assert(row@ =~= Seq::new(load_pids(ops@.take(t + 1)).len(), |u: int| ebp@[load_pids(ops@.take(t + 1))[u] as int].unwrap()));
                        },
                    }
                    t = t + 1;
                }
                assert(ops@.take(no as int) =~= ops@);
            },
            PropertyProgram::SampleNodeLane { .. } => {},
        }
        assert(row@ =~= deps_of(ev, ebp@, i as int));
        deps.push(row);
        i = i + 1;
    }
    Ok(deps)
}

/// Reads of a prefix are a prefix of the reads.
proof fn lemma_load_pids_prefix(ops: Seq<Op>, m: int)
    requires
        0 <= m <= ops.len(),
    ensures
        load_pids(ops.take(m)).len() <= load_pids(ops).len(),
        forall|u: int| 0 <= u < load_pids(ops.take(m)).len() ==> #[trigger] load_pids(ops.take(m))[u] == load_pids(ops)[u],
    decreases ops.len() - m,
{
    if m < ops.len() {
        lemma_load_pids_prefix(ops, m + 1);
        assert(ops.take(m + 1).drop_last() =~= ops.take(m));
        let a = load_pids(ops.take(m));
        let b = load_pids(ops.take(m + 1));
        assert(b == a || b == a.push(ops[m]->LoadProp_0.0));
        assert forall|u: int| 0 <= u < a.len() implies #[trigger] a[u] == load_pids(ops)[u] by {
            assert(b[u] == a[u]);
            assert(b[u] == load_pids(ops)[u]);
        }
    } else {
        assert(ops.take(m) =~= ops);
    }
}

proof fn lemma_load_pids_prefix_contains(ops: Seq<Op>, m: int, q: u32)
    requires
        0 <= m <= ops.len(),
        load_pids(ops.take(m)).len() > 0,
        load_pids(ops.take(m)).last() == q,
    ensures
        load_pids(ops).contains(q),
{
    lemma_load_pids_prefix(ops, m);
    let u = load_pids(ops.take(m)).len() - 1;
    assert(load_pids(ops.take(m))[u] == load_pids(ops)[u]);
}


/// Ids of the entries at positions `o`.
pub open spec fn pids_at(all: Seq<EntryV>, o: Seq<u32>) -> Seq<u32> {
    Seq::new(o.len(), |k: int| all[o[k] as int].pid)
}

/// What compiling the full entry list `all` yields.
#[verifier::opaque]
pub open spec fn program_outcome(all: Seq<EntryV>, r: Result<ExprProgram, ExprCompileError>) -> bool {
    if all.len() > u32::MAX {
        r matches Err(e) && e.message@ == "expression program has too many entries"@
    } else {
        match r {
            Ok(p) => {
                &&& entries_view(p.entries@) == all
                &&& ebp_ok(all, p.entry_by_pid@)
                &&& exists|o: Seq<u32>| {
                    &&& greedy_run(keys_view(all), deps_view(all, p.entry_by_pid@), o)
                    &&& o.len() == all.len()
                    &&& Seq::new(p.eval_order@.len(), |k: int| p.eval_order@[k].0) == pids_at(all, o)
                }
            },
            Err(e) => exists|ebp: Seq<Option<u32>>, o: Seq<u32>, c: Seq<u32>| {
                &&& ebp_ok(all, ebp)
                &&& greedy_run(keys_view(all), deps_view(all, ebp), o)
                &&& o.len() < all.len()
                &&& stalled(deps_view(all, ebp), o)
                &&& is_cycle(deps_view(all, ebp), c)
                &&& e.message@ == cycle_message(pids_at(all, c))
            },
        }
    }
}

/// Outcome of compiling the source entries `es`: with the lane-sample entries for the ids read
/// but not produced appended, `r` is what [`program_outcome`] describes.
pub open spec fn compiled_outcome(es: Seq<EntryV>, r: Result<ExprProgram, ExprCompileError>) -> bool {
    exists|st: Seq<u32>| stubs_ok(es, st) && #[trigger] program_outcome(es + stub_views(st), r)
}

fn cycle_text(pids: &Vec<u32>) -> (r: String)
    ensures
        r@ == cycle_message(pids@),
{
    let n = pids.len();
    if n == 0 {
        return String::from_str("expression dependency cycle detected");
    }
    let mut s = String::new();
    let mut i: usize = 0;
    assert(pids@.take(0) =~= Seq::<u32>::empty());
    while i < n
        invariant
            n == pids@.len(),
            i <= n,
            s@ == cycle_path_text(pids@.take(i as int)),
        decreases n - i,
    {
        assert(pids@.take(i + 1).drop_last() =~= pids@.take(i as int));
        if i > 0 {
            push_str(&mut s, " -> ");
        }
        push_str(&mut s, "PropertyId(");
        push_decimal(&mut s, pids[i] as u64);
        push_str(&mut s, ")");
        proof {
            if i == 0 {
                assert(s@ =~= cycle_path_text(pids@.take(1)));
            } else {
                assert(s@ =~= cycle_path_text(pids@.take(i + 1)));
            }
        }
        i = i + 1;
    }
    assert(pids@.take(n as int) =~= pids@);
    let mut m = String::from_str("expression dependency cycle detected: ");
    push_str(&mut m, s.as_str());
    m
}

/// Compile all expression sources of a composition into one program: entries for the sources
/// (in order) and for the lanes they read without an expression (in increasing id), ordered so
/// that every entry follows the entries it reads; ties go to the smaller `(id, index)`.
///
/// The first source that fails to parse, bind or lower is reported; a dependency cycle is
/// reported with a cycle that the depth-first search finds; a program whose entries would
/// not fit `u32` indices is refused.
pub fn compile_expr_program(
    sources: &Vec<ExprSourceIR>,
    interner: &StringInterner,
    node_idx_by_id: &HashMap<u32, NodeIdx>,
    var_id_by_key: &HashMap<u32, VarId>,
) -> (r: Result<ExprProgram, ExprCompileError>)
    requires
        interner.wf(),
        sources_ok(sources@, interner@),
        usize::MAX > u32::MAX
            || (sources_spec(sources@, interner@, node_idx_by_id@, var_id_by_key@) matches Ok(es) ==> pids_fit(es)),
    ensures
        sources_spec(sources@, interner@, node_idx_by_id@, var_id_by_key@) matches Err(m) ==> r matches Err(e) && e.message@ == m,
        sources_spec(sources@, interner@, node_idx_by_id@, var_id_by_key@) matches Ok(es) ==> compiled_outcome(es, r),
{
    let mut entries = match compile_all_sources(sources, interner, node_idx_by_id, var_id_by_key) {
        Ok(es) => es,
        Err(e) => {
            return Err(e);
        },
    };
    let ghost es = entries_view(entries@);
    assert(sources_spec(sources@, interner@, node_idx_by_id@, var_id_by_key@) == Ok::<Seq<EntryV>, Seq<char>>(es));
    let st = collect_stubs(&entries);
    match push_stubs(&mut entries, &st) {
        Ok(()) => {},
        Err(e) => {
            return Err(e);
        },
    }
    let ghost all = entries_view(entries@);
    proof {
        lemma_stubs_target_loads(es, st@);
    }
    assert(all == es + stub_views(st@));
    if entries.len() > u32::MAX as usize {
        let e = ExprCompileError::new("expression program has too many entries");
        proof {
            reveal(program_outcome);
            assert(stubs_ok(es, st@));
            assert(program_outcome(es + stub_views(st@), Err::<ExprProgram, ExprCompileError>(e)));
            assert(compiled_outcome(es, Err::<ExprProgram, ExprCompileError>(e)));
        }
        return Err(e);
    }
    proof {
        if usize::MAX <= u32::MAX {
            assert(stubs_ok(es, st@));
            lemma_stub_pids_fit(es, st@);
        }
    }
    let r = order_entries(entries);
    proof {
        assert(stubs_ok(es, st@));
        assert(program_outcome(es + stub_views(st@), r));
        assert(compiled_outcome(es, r));
    }
    r
}

/// Order a complete entry list (every read id produced) into a program.
fn order_entries(entries: Vec<PropertyEntry>) -> (r: Result<ExprProgram, ExprCompileError>)
    requires
        entries@.len() <= u32::MAX,
        loads_targeted(entries_view(entries@)),
        max_pid(entries_view(entries@)) < usize::MAX,
    ensures
        program_outcome(entries_view(entries@), r),
{
    let ghost all = entries_view(entries@);
    let n = entries.len();
    let entry_by_pid = build_entry_by_pid(&entries);
    let deps = match build_deps(&entries, &entry_by_pid) {
        Ok(d) => d,
        Err(e) => {
            return Err(e);
        },
    };
    let ghost dv = deps_view(all, entry_by_pid@);
    assert(Seq::new(deps@.len(), |j: int| deps@[j]@) =~= dv);
    let mut keys: Vec<u32> = Vec::new();
    let mut i: usize = 0;
    while i < n
        invariant
            n == entries@.len(),
            all == entries_view(entries@),
            i <= n,
            keys@ == keys_view(all).take(i as int),
        decreases n - i,
    {
        keys.push(entries[i].pid.0);
        assert(keys@ =~= keys_view(all).take(i + 1));
        i = i + 1;
    }
    assert(keys@ =~= keys_view(all));
    let order = topo_order(&keys, &deps);
    if order.len() == n {
        let mut eval_order: Vec<PropertyId> = Vec::new();
        let mut k: usize = 0;
        while k < n
            invariant
                n == entries@.len(),
                n == order@.len(),
                all == entries_view(entries@),
                forall|t: int| 0 <= t < order@.len() ==> order@[t] < n,
                k <= n,
                eval_order@.len() == k,
                forall|t: int| 0 <= t < k ==> (#[trigger] eval_order@[t]).0 == all[order@[t] as int].pid,
            decreases n - k,
        {
            eval_order.push(entries[order[k] as usize].pid);
            k = k + 1;
        }
        let ghost ebp = entry_by_pid@;
        let ghost ov = order@;
        let p = ExprProgram { eval_order, entries, entry_by_pid };
        proof {
            assert(Seq::new(p.eval_order@.len(), |t: int| p.eval_order@[t].0) =~= pids_at(all, ov));
            assert(greedy_run(keys_view(all), deps_view(all, p.entry_by_pid@), ov));
            reveal(program_outcome);
            assert(program_outcome(all, Ok::<ExprProgram, ExprCompileError>(p)));
        }
        Ok(p)
    } else {
        let c = find_cycle(&deps);
        let mut pids: Vec<u32> = Vec::new();
        let nc = c.len();
        let mut k: usize = 0;
        proof {
            assert(deps_in_range(dv)) by {
                assert forall|j: int, t: int| 0 <= j < dv.len() && 0 <= t < dv[j].len() implies (#[trigger] dv[j][t] as int) < dv.len() by {
                    assert(dv[j][t] == deps@[j]@[t]);
                }
            }
            law_stalled_run_has_cycle(dv, order@);
            assert(nc > 0);
        }
        proof {
            if nc > 0 {
                assert forall|t: int| 0 <= t < c@.len() implies c@[t] < n by {
                    let tt = if t == c@.len() - 1 { 0 } else { t };
                    assert(c@[tt] == c@[t]);
                    assert(crate::topo::edge(dv, c@[tt], c@[tt + 1]));
                    let row = dv[c@[tt + 1] as int];
                    assert(row.contains(c@[tt]));
                    let u = choose|u: int| 0 <= u < row.len() && #[trigger] row[u] == c@[tt];
                    assert(deps@[c@[tt + 1] as int]@[u] == c@[tt]);
                }
            }
        }
        while k < nc
            invariant
                n == entries@.len(),
                all == entries_view(entries@),
                nc == c@.len(),
                forall|t: int| 0 <= t < c@.len() ==> c@[t] < n,
                k <= nc,
                pids@ == pids_at(all, c@).take(k as int),
            decreases nc - k,
        {
            pids.push(entries[c[k] as usize].pid.0);
            assert(pids@ =~= pids_at(all, c@).take(k + 1));
            k = k + 1;
        }
        assert(pids@ =~= pids_at(all, c@));
        let e = ExprCompileError { message: cycle_text(&pids) };
        proof {
            assert(greedy_run(keys_view(all), deps_view(all, entry_by_pid@), order@));
            assert(order@.len() < all.len());
            assert(ebp_ok(all, entry_by_pid@));
            assert(e.message@ == cycle_message(pids_at(all, c@)));
            assert(stalled(deps_view(all, entry_by_pid@), order@));
            assert(is_cycle(deps_view(all, entry_by_pid@), c@));
            reveal(program_outcome);
            assert(program_outcome(all, Err::<ExprProgram, ExprCompileError>(e)));
        }
        Err(e)
    }
}

} // verus!
