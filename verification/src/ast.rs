//! Expression syntax tree.
use vstd::prelude::*;
use crate::property::PropertyId;

verus! {

/// Id of a composition variable.
#[derive(Debug, Clone, Copy, PartialEq, Eq)]
pub struct VarId(pub u32);

/// Time fields readable from expressions.
#[derive(Debug, Clone, Copy, PartialEq, Eq)]
pub enum TimeField {
    /// Node-local frame.
    Frame,
    /// Frames per second.
    Fps,
    /// Node duration in frames.
    Duration,
    /// Progress through the node, `0..=1`.
    Progress,
    /// Node-local time in seconds.
    Seconds,
}

/// Literal value.
#[derive(Debug, Clone, PartialEq, Eq)]
pub enum Lit {
    /// Number literal, as written in the source.
    Number(String),
    /// Boolean literal.
    Bool(bool),
}

/// Unary operator.
#[derive(Debug, Clone, Copy, PartialEq, Eq)]
pub enum UnaryOp {
    /// `-x`.
    Neg,
    /// `!x`.
    Not,
}

/// Binary operator.
#[derive(Debug, Clone, Copy, PartialEq, Eq)]
pub enum BinaryOp {
    /// `+`.
    Add,
    /// `-`.
    Sub,
    /// `*`.
    Mul,
    /// `/`.
    Div,
    /// `%`.
    Mod,
    /// `==`.
    Eq,
    /// `!=`.
    Ne,
    /// `<`.
    Lt,
    /// `<=`.
    Le,
    /// `>`.
    Gt,
    /// `>=`.
    Ge,
    /// `&&`.
    And,
    /// `||`.
    Or,
}

/// Expression tree.
#[derive(Debug)]
pub enum Expr {
    /// Literal.
    Lit(Lit),
    /// Unary operation.
    Unary { op: UnaryOp, expr: Box<Expr> },
    /// Binary operation.
    Binary { op: BinaryOp, left: Box<Expr>, right: Box<Expr> },
    /// Builtin call.
    Call { func: String, args: Vec<Expr> },
    /// Dotted identifier path, e.g. `self.opacity`.
    Path(Vec<String>),
    /// Resolved property reference.
    Prop(PropertyId),
    /// Resolved variable reference.
    Var(VarId),
    /// Resolved time field.
    Time(TimeField),
}

/// Literal with its text as characters.
pub enum LitV {
    Number(Seq<char>),
    Bool(bool),
}

/// Expression tree with strings as characters.
pub enum ExprV {
    Lit(LitV),
    Unary { op: UnaryOp, expr: Box<ExprV> },
    Binary { op: BinaryOp, left: Box<ExprV>, right: Box<ExprV> },
    Call { func: Seq<char>, args: Seq<ExprV> },
    Path(Seq<Seq<char>>),
    Prop(PropertyId),
    Var(VarId),
    Time(TimeField),
}

/// Characters of each string.
pub open spec fn strings_view(v: Seq<String>) -> Seq<Seq<char>> {
    Seq::new(v.len(), |i: int| v[i]@)
}

/// View of an expression tree.
pub open spec fn expr_view(e: Expr) -> ExprV
    decreases e,
{
    match e {
        Expr::Lit(Lit::Number(s)) => ExprV::Lit(LitV::Number(s@)),
        Expr::Lit(Lit::Bool(b)) => ExprV::Lit(LitV::Bool(b)),
        Expr::Unary { op, expr } => ExprV::Unary { op, expr: Box::new(expr_view(*expr)) },
        Expr::Binary { op, left, right } => ExprV::Binary { op, left: Box::new(expr_view(*left)), right: Box::new(expr_view(*right)) },
        Expr::Call { func, args } => ExprV::Call {
            func: func@,
            args: Seq::new(args@.len(), |i: int| if 0 <= i < args@.len() { expr_view(args@[i]) } else { ExprV::Lit(LitV::Bool(false)) }),
        },
        Expr::Path(p) => ExprV::Path(strings_view(p@)),
        Expr::Prop(pid) => ExprV::Prop(pid),
        Expr::Var(v) => ExprV::Var(v),
        Expr::Time(t) => ExprV::Time(t),
    }
}

/// Views of a list of trees.
pub open spec fn args_view(args: Seq<Expr>) -> Seq<ExprV> {
    Seq::new(args.len(), |i: int| expr_view(args[i]))
}

/// The view of a call is its name and the views of its arguments.
pub proof fn lemma_call_view(func: String, args: Vec<Expr>)
    ensures
        expr_view(Expr::Call { func, args }) == (ExprV::Call { func: func@, args: args_view(args@) }),
{
    assert(expr_view(Expr::Call { func, args })->args =~= args_view(args@));
}

} // verus!
