//! Lowering of bound expression trees to stack bytecode.
use vstd::prelude::*;
use crate::ast::{BinaryOp, Expr, ExprV, Lit, LitV, UnaryOp, args_view, expr_view, lemma_call_view};
use crate::bytecode::{BuiltinId, BytecodeProgram, ConstIdx, ConstV, ConstVal, Op, const_view, consts_view};
use crate::lexer::{ErrV, ExprError, err_view};
use crate::text::{is_word, push_str};

verus! {

/// Instructions and constants emitted so far.
pub type Emitted = (Seq<Op>, Seq<ConstV>);

/// Builtin named `name`, if any.
pub open spec fn builtin_of(name: Seq<char>) -> Option<BuiltinId> {
    if name == "min"@ { Some(BuiltinId::Min) }
    else if name == "max"@ { Some(BuiltinId::Max) }
    else if name == "clamp"@ { Some(BuiltinId::Clamp) }
    else if name == "abs"@ { Some(BuiltinId::Abs) }
    else if name == "sin"@ { Some(BuiltinId::Sin) }
    else if name == "cos"@ { Some(BuiltinId::Cos) }
    else if name == "lerp"@ { Some(BuiltinId::Lerp) }
    else { None }
}

/// Instruction of a unary operator.
pub open spec fn unary_code(op: UnaryOp) -> Op {
    match op {
        UnaryOp::Neg => Op::Neg,
        UnaryOp::Not => Op::Not,
    }
}

/// Instruction of a binary operator.
pub open spec fn binary_code(op: BinaryOp) -> Op {
    match op {
        BinaryOp::Add => Op::Add,
        BinaryOp::Sub => Op::Sub,
        BinaryOp::Mul => Op::Mul,
        BinaryOp::Div => Op::Div,
        BinaryOp::Mod => Op::Mod,
        BinaryOp::Eq => Op::Eq,
        BinaryOp::Ne => Op::Ne,
        BinaryOp::Lt => Op::Lt,
        BinaryOp::Le => Op::Le,
        BinaryOp::Gt => Op::Gt,
        BinaryOp::Ge => Op::Ge,
        BinaryOp::And => Op::And,
        BinaryOp::Or => Op::Or,
    }
}

/// Argument count recorded in a call instruction: the count, saturated at `255`.
pub open spec fn argc_of(n: nat) -> u8 {
    if n > 255 { 255u8 } else { n as u8 }
}

/// Emit the constant `c` and the instruction that pushes it.
pub open spec fn emit_const(st: Emitted, c: ConstV) -> Emitted {
    (st.0.push(Op::PushConst(ConstIdx(st.1.len() as u32))), st.1.push(c))
}

/// Post-order lowering of `e` after what was emitted in `st`: operands first, then the operator;
/// each literal appends a constant.
pub open spec fn lower_spec(e: ExprV, st: Emitted) -> Result<Emitted, ErrV>
    decreases e, 0int,
{
    match e {
        ExprV::Lit(LitV::Number(s)) => Ok(emit_const(st, ConstV::Number(s))),
        ExprV::Lit(LitV::Bool(b)) => Ok(emit_const(st, ConstV::Bool(b))),
        ExprV::Unary { op, expr } => match lower_spec(*expr, st) {
            Err(err) => Err(err),
            Ok(s1) => Ok((s1.0.push(unary_code(op)), s1.1)),
        },
        ExprV::Binary { op, left, right } => match lower_spec(*left, st) {
            Err(err) => Err(err),
            Ok(s1) => match lower_spec(*right, s1) {
                Err(err) => Err(err),
                Ok(s2) => Ok((s2.0.push(binary_code(op)), s2.1)),
            },
        },
        ExprV::Call { func, args } => match lower_args(args, 0, st) {
            Err(err) => Err(err),
            Ok(s1) => match builtin_of(func) {
                None => Err(ErrV { offset: 0, message: "unknown builtin function \""@ + func + "\""@ }),
                Some(id) => Ok((s1.0.push(Op::CallBuiltin { id, argc: argc_of(args.len()) }), s1.1)),
            },
        },
        ExprV::Path(_) => Err(ErrV { offset: 0, message: "unresolved path in lowering; bind refs before lowering"@ }),
        ExprV::Prop(pid) => Ok((st.0.push(Op::LoadProp(pid)), st.1)),
        ExprV::Var(v) => Ok((st.0.push(Op::LoadVar(v)), st.1)),
        ExprV::Time(t) => Ok((st.0.push(Op::LoadTime(t)), st.1)),
    }
}

/// Lowering of `args[k..]`, in order.
pub open spec fn lower_args(args: Seq<ExprV>, k: int, st: Emitted) -> Result<Emitted, ErrV>
    decreases args, args.len() - k,
{
    if k < 0 || k >= args.len() {
        Ok(st)
    } else {
        match lower_spec(args[k], st) {
            Err(err) => Err(err),
            Ok(s1) => lower_args(args, k + 1, s1),
        }
    }
}

/// Lowering of a whole tree into an empty program.
pub open spec fn spec_lower(e: ExprV) -> Result<Emitted, ErrV> {
    lower_spec(e, (Seq::empty(), Seq::empty()))
}

/// What a program holds, as instructions and constant views.
pub open spec fn emitted(p: BytecodeProgram) -> Emitted {
    (p.ops@, consts_view(p.consts@))
}

fn builtin_id(name: &String) -> (r: Option<BuiltinId>)
    ensures
        r == builtin_of(name@),
{
    if is_word(name, "min") { Some(BuiltinId::Min) }
    else if is_word(name, "max") { Some(BuiltinId::Max) }
    else if is_word(name, "clamp") { Some(BuiltinId::Clamp) }
    else if is_word(name, "abs") { Some(BuiltinId::Abs) }
    else if is_word(name, "sin") { Some(BuiltinId::Sin) }
    else if is_word(name, "cos") { Some(BuiltinId::Cos) }
    else if is_word(name, "lerp") { Some(BuiltinId::Lerp) }
    else { None }
}

fn push_literal(out: &mut BytecodeProgram, c: ConstVal)
    ensures
        emitted(*final(out)) == emit_const(emitted(*old(out)), const_view(c)),
{
    let ghost before = consts_view(out.consts@);
    let idx = out.push_const(c);
    out.ops.push(Op::PushConst(idx));
    assert(consts_view(out.consts@) =~= before.push(const_view(c)));
}

fn lower_expr(e: &Expr, out: &mut BytecodeProgram) -> (r: Result<(), ExprError>)
    ensures
        match r {
            Ok(_) => lower_spec(expr_view(*e), emitted(*old(out))) == Ok::<Emitted, ErrV>(emitted(*final(out))),
            Err(err) => lower_spec(expr_view(*e), emitted(*old(out))) == Err::<Emitted, ErrV>(err_view(err)),
        },
    decreases e,
{
    match e {
        Expr::Lit(Lit::Number(s)) => {
            push_literal(out, ConstVal::Number(s.clone()));
            Ok(())
        },
        Expr::Lit(Lit::Bool(b)) => {
            push_literal(out, ConstVal::Bool(*b));
            Ok(())
        },
        Expr::Unary { op, expr } => {
            match lower_expr(expr, out) {
                Err(err) => Err(err),
                Ok(()) => {
                    let code = match op {
                        UnaryOp::Neg => Op::Neg,
                        UnaryOp::Not => Op::Not,
                    };
                    out.ops.push(code);
                    Ok(())
                },
            }
        },
        Expr::Binary { op, left, right } => {
            match lower_expr(left, out) {
                Err(err) => Err(err),
                Ok(()) => match lower_expr(right, out) {
                    Err(err) => Err(err),
                    Ok(()) => {
                        out.ops.push(binary_op_code(*op));
                        Ok(())
                    },
                },
            }
        },
        Expr::Call { func, args } => {
            proof {
                lemma_call_view(*func, *args);
            }
            let ghost av = args_view(args@);
            let ghost start = emitted(*out);
            let n = args.len();
            let mut i: usize = 0;
            while i < n
                invariant
                    n == args@.len(),
                    av == args_view(args@),
                    i <= n,
                    lower_args(av, 0, start) == lower_args(av, i as int, emitted(*out)),
                    start == emitted(*old(out)),
                    *e == (Expr::Call { func: *func, args: *args }),
                    expr_view(*e) == (ExprV::Call { func: func@, args: av }),
                decreases n - i,
            {
                assert(av[i as int] == expr_view(args@[i as int]));
                let ghost cur = emitted(*out);
                proof {
                    assert(decreases_to!(*args => args@));
                    assert(decreases_to!(args@ => args@[i as int]));
                }
                match lower_expr(&args[i], out) {
                    Err(err) => {
                        assert(lower_args(av, i as int, cur) == Err::<Emitted, ErrV>(err_view(err)));
                        return Err(err);
                    },
                    Ok(()) => {},
                }
                i = i + 1;
            }
            match builtin_id(func) {
                None => {
                    let mut m = String::from_str("unknown builtin function \"");
                    push_str(&mut m, func.as_str());
                    push_str(&mut m, "\"");
                    Err(ExprError { offset: 0, message: m })
                },
                Some(id) => {
                    let argc: u8 = if n > 255 { 255 } else { n as u8 };
                    out.ops.push(Op::CallBuiltin { id, argc });
                    Ok(())
                },
            }
        },
        Expr::Path(_) => Err(ExprError::new(0, "unresolved path in lowering; bind refs before lowering")),
        Expr::Prop(pid) => {
            out.ops.push(Op::LoadProp(*pid));
            Ok(())
        },
        Expr::Var(v) => {
            out.ops.push(Op::LoadVar(*v));
            Ok(())
        },
        Expr::Time(t) => {
            out.ops.push(Op::LoadTime(*t));
            Ok(())
        },
    }
}

fn binary_op_code(op: BinaryOp) -> (r: Op)
    ensures
        r == binary_code(op),
{
    match op {
        BinaryOp::Add => Op::Add,
        BinaryOp::Sub => Op::Sub,
        BinaryOp::Mul => Op::Mul,
        BinaryOp::Div => Op::Div,
        BinaryOp::Mod => Op::Mod,
        BinaryOp::Eq => Op::Eq,
        BinaryOp::Ne => Op::Ne,
        BinaryOp::Lt => Op::Lt,
        BinaryOp::Le => Op::Le,
        BinaryOp::Gt => Op::Gt,
        BinaryOp::Ge => Op::Ge,
        BinaryOp::And => Op::And,
        BinaryOp::Or => Op::Or,
    }
}

/// Lower a bound expression tree to bytecode: operands before operators, literals into the
/// constant pool in the order met. Unresolved paths and unknown builtins are errors.
pub fn lower_to_bytecode(expr: &Expr) -> (r: Result<BytecodeProgram, ExprError>)
    ensures
        match r {
            Ok(p) => spec_lower(expr_view(*expr)) == Ok::<Emitted, ErrV>(emitted(p)),
            Err(err) => spec_lower(expr_view(*expr)) == Err::<Emitted, ErrV>(err_view(err)),
        },
{
    let mut p = BytecodeProgram::new();
    assert(emitted(p) == (Seq::<Op>::empty(), Seq::<ConstV>::empty())) by {
        assert(consts_view(p.consts@) =~= Seq::<ConstV>::empty());
    }
    match lower_expr(expr, &mut p) {
        Err(err) => Err(err),
        Ok(()) => Ok(p),
    }
}


/// `b` as `0` or `1`.
pub open spec fn truth(b: bool) -> int {
    if b { 1 } else { 0 }
}

/// What a source binary operator means on numbers (truth values as `0`/`1`, non-zero is true).
pub open spec fn operator_value(op: BinaryOp, a: int, b: int) -> int {
    match op {
        BinaryOp::Add => a + b,
        BinaryOp::Sub => a - b,
        BinaryOp::Mul => a * b,
        BinaryOp::Div => a / b,
        BinaryOp::Mod => a % b,
        BinaryOp::Eq => truth(a == b),
        BinaryOp::Ne => truth(a != b),
        BinaryOp::Lt => truth(a < b),
        BinaryOp::Le => truth(a <= b),
        BinaryOp::Gt => truth(a > b),
        BinaryOp::Ge => truth(a >= b),
        BinaryOp::And => truth(a != 0 && b != 0),
        BinaryOp::Or => truth(a != 0 || b != 0),
    }
}

/// What a binary instruction computes from `a` (pushed first) and `b`; nothing for the other
/// instructions.
pub open spec fn instruction_value(op: Op, a: int, b: int) -> Option<int> {
    match op {
        Op::Add => Some(a + b),
        Op::Sub => Some(a - b),
        Op::Mul => Some(a * b),
        Op::Div => Some(a / b),
        Op::Mod => Some(a % b),
        Op::Eq => Some(truth(a == b)),
        Op::Ne => Some(truth(a != b)),
        Op::Lt => Some(truth(a < b)),
        Op::Le => Some(truth(a <= b)),
        Op::Gt => Some(truth(a > b)),
        Op::Ge => Some(truth(a >= b)),
        Op::And => Some(truth(a != 0 && b != 0)),
        Op::Or => Some(truth(a != 0 || b != 0)),
        _ => None,
    }
}

/// Lowering keeps each binary operator's meaning: the instruction it becomes computes, on any
/// operands, what the operator means; and different operators become different instructions.
pub proof fn law_binary_lowering_keeps_meaning(op: BinaryOp, other: BinaryOp, a: int, b: int)
    ensures
        instruction_value(binary_code(op), a, b) == Some(operator_value(op, a, b)),
        binary_code(op) == binary_code(other) ==> op == other,
{
}

} // verus!
