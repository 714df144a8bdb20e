use wavyte::topo::find_cycle;
use std::collections::HashMap;
use wavyte::ast::{BinaryOp, Expr, Lit, TimeField, UnaryOp, VarId};
use wavyte::bind::{bind_expr, property_key_from_segments, BindCtx};
use wavyte::bytecode::{BuiltinId, BytecodeProgram, ConstIdx, ConstVal, Op};
use wavyte::compile_expr::{
    compile_expr_program, pid_to_node_lane, pid_to_owner_node, ExprSourceIR, PropertyProgram, ValueTypeIR,
};
use wavyte::intern::StringInterner;
use wavyte::lexer::{lex, TokenKind};
use wavyte::lower::lower_to_bytecode;
use wavyte::parser::parse_expr;
use wavyte::plan::NodeIdx;
use wavyte::property::{PropertyId, PropertyIndex, PropertyKey, ValueType};

/// Minimal stack evaluator for lowered programs (test-side helper).
fn eval(bc: &BytecodeProgram) -> f64 {
    let mut st: Vec<f64> = Vec::new();
    for op in &bc.ops {
        match *op {
            Op::PushConst(ConstIdx(i)) => match &bc.consts[i as usize] {
                ConstVal::Number(s) => st.push(s.parse::<f64>().unwrap()),
                ConstVal::Bool(b) => st.push(if *b { 1.0 } else { 0.0 }),
            },
            Op::Neg => {
                let a = st.pop().unwrap();
                st.push(-a);
            }
            Op::Add | Op::Sub | Op::Mul | Op::Div => {
                let b = st.pop().unwrap();
                let a = st.pop().unwrap();
                st.push(match *op {
                    Op::Add => a + b,
                    Op::Sub => a - b,
                    Op::Mul => a * b,
                    _ => a / b,
                });
            }
            Op::CallBuiltin { id: BuiltinId::Clamp, argc: 3 } => {
                let hi = st.pop().unwrap();
                let lo = st.pop().unwrap();
                let x = st.pop().unwrap();
                st.push(x.clamp(lo, hi));
            }
            other => panic!("unsupported op {other:?}"),
        }
    }
    st.pop().unwrap()
}

#[test]
fn parses_arithmetic_precedence() {
    let e = parse_expr("=1+2*3").unwrap();
    match e {
        Expr::Binary { op: BinaryOp::Add, .. } => {}
        other => panic!("unexpected ast: {other:?}"),
    }
}

#[test]
fn parses_paths() {
    let e = parse_expr("nodes.title.transform.translate.x").unwrap();
    match e {
        Expr::Path(p) => assert_eq!(
            p,
            vec![
                "nodes".to_owned(),
                "title".to_owned(),
                "transform".to_owned(),
                "translate".to_owned(),
                "x".to_owned(),
            ]
        ),
        other => panic!("unexpected ast: {other:?}"),
    }
}

#[test]
fn parses_calls() {
    let e = parse_expr("min(1,2)").unwrap();
    match e {
        Expr::Call { func, args } => {
            assert_eq!(func, "min");
            assert_eq!(args.len(), 2);
        }
        other => panic!("unexpected ast: {other:?}"),
    }
}

#[test]
fn parse_keeps_left_associativity_and_unary() {
    // 8 - 2 - 1 parses as (8 - 2) - 1.
    match parse_expr("8 - 2 - 1").unwrap() {
        Expr::Binary { op: BinaryOp::Sub, left, right } => {
            assert!(matches!(*left, Expr::Binary { op: BinaryOp::Sub, .. }));
            assert!(matches!(*right, Expr::Lit(Lit::Number(ref s)) if s == "1"));
        }
        other => panic!("unexpected ast: {other:?}"),
    }
    match parse_expr("  -!x  ").unwrap() {
        Expr::Unary { op: UnaryOp::Neg, expr } => assert!(matches!(*expr, Expr::Unary { op: UnaryOp::Not, .. })),
        other => panic!("unexpected ast: {other:?}"),
    }
}

#[test]
fn parse_errors_report_offsets() {
    let e = parse_expr("1 +").unwrap_err();
    assert_eq!(e.offset, 3);
    assert_eq!(e.message, "unexpected token Eof");
    let e = parse_expr("(1").unwrap_err();
    assert_eq!(e.message, "expected RParen, found Eof");
    let e = parse_expr("1 2").unwrap_err();
    assert_eq!(e.offset, 2);
    assert_eq!(e.message, "expected Eof, found Number(2)");
    let e = parse_expr("a.b(1)").unwrap_err();
    assert_eq!(e.message, "call target must be a single identifier, got path [\"a\", \"b\"]");
    let e = parse_expr("1e+").unwrap_err();
    assert_eq!(e.message, "invalid number exponent (expected digits)");
    let e = parse_expr("1 # 2").unwrap_err();
    assert_eq!(e.offset, 2);
    assert_eq!(e.message, "unexpected character '#'");
}

#[test]
fn lex_produces_tokens_and_eof() {
    let ts = lex("a<=1.5e3").unwrap();
    assert_eq!(ts.len(), 4);
    assert!(matches!(ts[0].kind, TokenKind::Ident(ref s) if s == "a"));
    assert!(matches!(ts[1].kind, TokenKind::Le));
    assert!(matches!(ts[2].kind, TokenKind::Number(ref s) if s == "1.5e3"));
    assert!(matches!(ts[3].kind, TokenKind::Eof));
    assert_eq!(ts[3].span.start, 8);
}

#[test]
fn lowers_and_evaluates_arithmetic() {
    let ast = parse_expr("=(1+2)*3").unwrap();
    let bc = lower_to_bytecode(&ast).unwrap();
    assert_eq!(
        bc.ops,
        vec![Op::PushConst(ConstIdx(0)), Op::PushConst(ConstIdx(1)), Op::Add, Op::PushConst(ConstIdx(2)), Op::Mul]
    );
    assert_eq!(eval(&bc), 9.0);
}

#[test]
fn lowers_and_evaluates_builtins() {
    let ast = parse_expr("clamp(-1, 0, 10)").unwrap();
    let bc = lower_to_bytecode(&ast).unwrap();
    assert_eq!(bc.ops.last(), Some(&Op::CallBuiltin { id: BuiltinId::Clamp, argc: 3 }));
    assert_eq!(eval(&bc), 0.0);
}

#[test]
fn lowering_rejects_unknown_builtins_and_paths() {
    let e = lower_to_bytecode(&parse_expr("foo(1)").unwrap()).unwrap_err();
    assert_eq!(e.message, "unknown builtin function \"foo\"");
    let e = lower_to_bytecode(&parse_expr("self.opacity").unwrap()).unwrap_err();
    assert_eq!(e.message, "unresolved path in lowering; bind refs before lowering");
}

#[test]
fn binds_self_and_nodes_and_vars_and_time() {
    let mut interner = StringInterner::new();
    let node_a = interner.intern("a");
    let var_x = interner.intern("x");

    let mut node_idx_by_id = HashMap::new();
    node_idx_by_id.insert(node_a.0, NodeIdx(7));

    let mut var_id_by_key = HashMap::new();
    var_id_by_key.insert(var_x.0, VarId(1));

    let ctx = BindCtx {
        owner_node: NodeIdx(3),
        interner: &interner,
        node_idx_by_id: &node_idx_by_id,
        var_id_by_key: &var_id_by_key,
    };

    let e = bind_expr(parse_expr("self.opacity").unwrap(), &ctx).unwrap();
    assert!(matches!(e, Expr::Prop(_)));

    let e = bind_expr(parse_expr("nodes.a.opacity").unwrap(), &ctx).unwrap();
    assert!(matches!(e, Expr::Prop(p) if p == PropertyIndex::property_id(NodeIdx(7), PropertyKey::Opacity)));

    let e = bind_expr(parse_expr("vars.x").unwrap(), &ctx).unwrap();
    assert!(matches!(e, Expr::Var(VarId(1))));

    let e = bind_expr(parse_expr("time.fps").unwrap(), &ctx).unwrap();
    assert!(matches!(e, Expr::Time(TimeField::Fps)));
}

#[test]
fn bind_errors_name_the_problem() {
    let mut interner = StringInterner::new();
    interner.intern("a");
    let nodes: HashMap<u32, NodeIdx> = HashMap::new();
    let vars: HashMap<u32, VarId> = HashMap::new();
    let ctx = BindCtx { owner_node: NodeIdx(0), interner: &interner, node_idx_by_id: &nodes, var_id_by_key: &vars };
    let msg = |src: &str| bind_expr(parse_expr(src).unwrap(), &ctx).unwrap_err().message;
    assert_eq!(msg("nodes.a.opacity"), "unknown node id \"a\"");
    assert_eq!(msg("vars.a"), "unknown var \"a\"");
    assert_eq!(msg("time.week"), "unknown time field \"week\"");
    assert_eq!(msg("self.transform.bogus"), "unknown property path [\"transform\", \"bogus\"]");
    assert_eq!(msg("other.x"), "unknown top-level namespace \"other\"");
    assert_eq!(msg("self"), "self.<lane> expected");
    // Binding reaches into call arguments and operands.
    assert!(matches!(bind_expr(parse_expr("min(self.opacity, 1)").unwrap(), &ctx).unwrap(), Expr::Call { .. }));
}

#[test]
fn property_key_from_segments_names_lanes() {
    let s = |v: &[&str]| v.iter().map(|x| x.to_string()).collect::<Vec<String>>();
    assert_eq!(property_key_from_segments(&s(&["opacity"])), Some(PropertyKey::Opacity));
    assert_eq!(property_key_from_segments(&s(&["transform", "skew", "y"])), Some(PropertyKey::TransformSkewY));
    assert_eq!(property_key_from_segments(&s(&["switch", "active"])), Some(PropertyKey::SwitchActiveIndex));
    assert_eq!(property_key_from_segments(&s(&["transform", "skew"])), None);
}

#[test]
fn pid_helpers_split_ids() {
    let pid = PropertyIndex::property_id(NodeIdx(2), PropertyKey::SwitchActiveIndex);
    assert_eq!(pid, PropertyId(2 * 33 + 10));
    assert_eq!(pid_to_owner_node(pid), NodeIdx(2));
    let (n, lane) = pid_to_node_lane(pid).unwrap();
    assert_eq!(n, NodeIdx(2));
    assert_eq!(lane, PropertyKey::SwitchActiveIndex);
}

fn source(interner: &mut StringInterner, target: PropertyId, text: &str) -> ExprSourceIR {
    ExprSourceIR { target, value_type: ValueTypeIR::F64, src: interner.intern(text) }
}

#[test]
fn compile_expr_program_orders_deps_before_dependents() {
    let mut interner = StringInterner::new();
    let node_a = interner.intern("a");
    let mut nodes = HashMap::new();
    nodes.insert(node_a.0, NodeIdx(1));
    let vars: HashMap<u32, VarId> = HashMap::new();
    // Node 0 opacity reads node 1 opacity; node 1 opacity is a constant expression; node 0's
    // translate-x reads its own rotation, which has no expression and gets a lane sample.
    let p0_op = PropertyIndex::property_id(NodeIdx(0), PropertyKey::Opacity);
    let p1_op = PropertyIndex::property_id(NodeIdx(1), PropertyKey::Opacity);
    let p0_tx = PropertyIndex::property_id(NodeIdx(0), PropertyKey::TransformTranslateX);
    let p0_rot = PropertyIndex::property_id(NodeIdx(0), PropertyKey::TransformRotationRad);
    let sources = vec![
        source(&mut interner, p0_op, "=nodes.a.opacity * 2"),
        source(&mut interner, p1_op, "=1+2"),
        source(&mut interner, p0_tx, "self.transform.rotation_rad"),
    ];
    let prog = compile_expr_program(&sources, &interner, &nodes, &vars).unwrap();
    assert_eq!(prog.entries.len(), 4);
    assert!(matches!(prog.entries[3].program, PropertyProgram::SampleNodeLane { node: NodeIdx(0), lane: PropertyKey::TransformRotationRad }));
    assert_eq!(prog.entries[3].value_type, ValueType::F64);
    // Ready first: p1_op (id 33) and the rotation sample (id 3) -> 3 first; then its reader
    // p0_tx (id 1); then 33; then its reader p0_op (id 0).
    assert_eq!(prog.eval_order, vec![p0_rot, p0_tx, p1_op, p0_op]);
    assert_eq!(prog.entry_by_pid.len(), 34);
    assert_eq!(prog.entry_by_pid[33], Some(1));
    assert_eq!(prog.entry_by_pid[2], None);
}

#[test]
fn compile_expr_program_reports_cycles_and_source_errors() {
    let mut interner = StringInterner::new();
    let node_a = interner.intern("a");
    let node_b = interner.intern("b");
    let mut nodes = HashMap::new();
    nodes.insert(node_a.0, NodeIdx(1));
    nodes.insert(node_b.0, NodeIdx(0));
    let vars: HashMap<u32, VarId> = HashMap::new();
    let p0 = PropertyIndex::property_id(NodeIdx(0), PropertyKey::Opacity);
    let p33 = PropertyIndex::property_id(NodeIdx(1), PropertyKey::Opacity);
    let sources = vec![
        source(&mut interner, p0, "nodes.a.opacity"),
        source(&mut interner, p33, "nodes.b.opacity + 1"),
    ];
    let e = compile_expr_program(&sources, &interner, &nodes, &vars).unwrap_err();
    assert_eq!(e.message, "expression dependency cycle detected: PropertyId(0) -> PropertyId(33) -> PropertyId(0)");

    let self_loop = vec![source(&mut interner, p33, "self.opacity")];
    let e = compile_expr_program(&self_loop, &interner, &nodes, &vars).unwrap_err();
    assert_eq!(e.message, "expression dependency cycle detected: PropertyId(33) -> PropertyId(33)");

    let bad = vec![source(&mut interner, p0, "1 +")];
    let e = compile_expr_program(&bad, &interner, &nodes, &vars).unwrap_err();
    assert_eq!(e.message, "expr error at byte 3: unexpected token Eof");
}

#[test]
fn compile_orders_deps_before_dependents() {
    // Root (node 0) with leaf "a" (node 1) whose opacity is the expression "=1+2".
    let mut interner = StringInterner::new();
    let root = interner.intern("root");
    let a = interner.intern("a");
    let mut nodes = HashMap::new();
    nodes.insert(root.0, NodeIdx(0));
    nodes.insert(a.0, NodeIdx(1));
    let vars: HashMap<u32, VarId> = HashMap::new();
    let target = PropertyIndex::property_id(NodeIdx(1), PropertyKey::Opacity);
    let sources = vec![source(&mut interner, target, "=1+2")];
    let program = compile_expr_program(&sources, &interner, &nodes, &vars).unwrap();
    assert!(!program.eval_order.is_empty());
    assert_eq!(program.eval_order, vec![target]);
}

#[test]
fn find_cycle_reports_a_cycle_exactly_when_one_exists() {
    // 1 depends on 0, 2 depends on 1: no cycle.
    assert!(find_cycle(&vec![vec![], vec![0], vec![1]]).is_empty());
    // 0 depends on 2, 1 on 0, 2 on 1: a cycle through all three.
    let c = find_cycle(&vec![vec![2], vec![0], vec![1]]);
    assert_eq!(c, vec![0, 1, 2, 0]);
    // A self-dependency.
    assert_eq!(find_cycle(&vec![vec![], vec![1]]), vec![1, 1]);
}
