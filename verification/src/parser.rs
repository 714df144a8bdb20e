//! Recursive-descent parser for the expression language.
//!
//! Precedence, loosest first: `||`, `&&`, `== !=`, `< <= > >=`, `+ -`, `* / %`, unary `- !`,
//! postfix member access / calls, primaries. Binary operators associate to the left.
use vstd::prelude::*;
use crate::ast::{BinaryOp, Expr, ExprV, Lit, LitV, UnaryOp, args_view, expr_view, lemma_call_view, strings_view};
use crate::lexer::{ErrV, ExprError, TokK, TokV, Token, TokenKind, err_view, kind_view, toks_view, tok_view};
use crate::lexer::{lex, lex_defined, lex_from, spec_lex};
use crate::text::push_str;
use vstd::string::StringSliceAdditionalSpecFns;

verus! {

/// Parse outcome: a tree and the position after it, or an error.
pub type PResult = Result<(ExprV, int), ErrV>;

/// Token `pos` has kind `k`.
pub open spec fn at(ts: Seq<TokV>, pos: int, k: TokK) -> bool {
    0 <= pos < ts.len() && ts[pos].kind == k
}

/// Start offset of token `pos`.
pub open spec fn start_of(ts: Seq<TokV>, pos: int) -> int {
    ts[pos].start
}

/// `Debug` rendering of a token kind.
pub open spec fn kind_dbg(k: TokK) -> Seq<char> {
    match k {
        TokK::Ident(s) => "Ident(\""@ + s + "\")"@,
        TokK::Number(s) => "Number("@ + s + ")"@,
        TokK::True => "True"@,
        TokK::False => "False"@,
        TokK::LParen => "LParen"@,
        TokK::RParen => "RParen"@,
        TokK::Comma => "Comma"@,
        TokK::Dot => "Dot"@,
        TokK::Plus => "Plus"@,
        TokK::Minus => "Minus"@,
        TokK::Star => "Star"@,
        TokK::Slash => "Slash"@,
        TokK::Percent => "Percent"@,
        TokK::Bang => "Bang"@,
        TokK::EqEq => "EqEq"@,
        TokK::Ne => "Ne"@,
        TokK::Lt => "Lt"@,
        TokK::Le => "Le"@,
        TokK::Gt => "Gt"@,
        TokK::Ge => "Ge"@,
        TokK::AndAnd => "AndAnd"@,
        TokK::OrOr => "OrOr"@,
        TokK::Question => "Question"@,
        TokK::Colon => "Colon"@,
        TokK::Eof => "Eof"@,
    }
}

/// Error for a missing expected token at `pos`.
pub open spec fn expect_err(ts: Seq<TokV>, pos: int, want: TokK) -> ErrV {
    ErrV { offset: start_of(ts, pos), message: "expected "@ + kind_dbg(want) + ", found "@ + kind_dbg(ts[pos].kind) }
}

/// `Debug` rendering of a list of path segments, e.g. `["a", "b"]`.
pub open spec fn path_dbg(p: Seq<Seq<char>>) -> Seq<char>
    decreases p.len(),
{
    if p.len() == 0 { "[]"@ } else { path_dbg_items(p) }
}

/// Items of a path rendering, with brackets.
pub open spec fn path_dbg_items(p: Seq<Seq<char>>) -> Seq<char>
    decreases p.len(),
{
    if p.len() <= 1 {
        "[\""@ + (if p.len() == 1 { p[0] } else { Seq::empty() }) + "\"]"@
    } else {
        path_dbg_items(p.drop_last()).drop_last() + ", \""@ + p.last() + "\"]"@
    }
}

/// Guard used where a sub-parse must have advanced.
pub open spec fn advanced(pos: int, p: int, ts: Seq<TokV>) -> bool {
    pos < p < ts.len()
}

/// Error used only on positions that never occur (a sub-parse that did not advance).
pub open spec fn stuck(pos: int) -> ErrV {
    ErrV { offset: pos, message: Seq::empty() }
}

/// `a || b || ...`
pub open spec fn p_or(ts: Seq<TokV>, pos: int) -> PResult
    decreases ts.len() - pos, 20int,
{
    if pos < 0 || pos >= ts.len() {
        Err(stuck(pos))
    } else {
        match p_and(ts, pos) {
            Err(e) => Err(e),
            Ok((l, p)) => if advanced(pos, p, ts) { or_loop(ts, p, l) } else { Err(stuck(pos)) },
        }
    }
}

pub open spec fn or_loop(ts: Seq<TokV>, pos: int, lhs: ExprV) -> PResult
    decreases ts.len() - pos, 19int,
{
    if pos < 0 || pos >= ts.len() {
        Err(stuck(pos))
    } else if at(ts, pos, TokK::OrOr) {
        match p_and(ts, pos + 1) {
            Err(e) => Err(e),
            Ok((r, p)) => if advanced(pos, p, ts) {
                or_loop(ts, p, ExprV::Binary { op: BinaryOp::Or, left: Box::new(lhs), right: Box::new(r) })
            } else {
                Err(stuck(pos))
            },
        }
    } else {
        Ok((lhs, pos))
    }
}

/// `a && b && ...`
pub open spec fn p_and(ts: Seq<TokV>, pos: int) -> PResult
    decreases ts.len() - pos, 18int,
{
    if pos < 0 || pos >= ts.len() {
        Err(stuck(pos))
    } else {
        match p_eq(ts, pos) {
            Err(e) => Err(e),
            Ok((l, p)) => if advanced(pos, p, ts) { and_loop(ts, p, l) } else { Err(stuck(pos)) },
        }
    }
}

pub open spec fn and_loop(ts: Seq<TokV>, pos: int, lhs: ExprV) -> PResult
    decreases ts.len() - pos, 17int,
{
    if pos < 0 || pos >= ts.len() {
        Err(stuck(pos))
    } else if at(ts, pos, TokK::AndAnd) {
        match p_eq(ts, pos + 1) {
            Err(e) => Err(e),
            Ok((r, p)) => if advanced(pos, p, ts) {
                and_loop(ts, p, ExprV::Binary { op: BinaryOp::And, left: Box::new(lhs), right: Box::new(r) })
            } else {
                Err(stuck(pos))
            },
        }
    } else {
        Ok((lhs, pos))
    }
}

/// Operator of an equality token.
pub open spec fn eq_op(k: TokK) -> Option<BinaryOp> {
    match k {
        TokK::EqEq => Some(BinaryOp::Eq),
        TokK::Ne => Some(BinaryOp::Ne),
        _ => None,
    }
}

/// `a == b != ...`
pub open spec fn p_eq(ts: Seq<TokV>, pos: int) -> PResult
    decreases ts.len() - pos, 16int,
{
    if pos < 0 || pos >= ts.len() {
        Err(stuck(pos))
    } else {
        match p_rel(ts, pos) {
            Err(e) => Err(e),
            Ok((l, p)) => if advanced(pos, p, ts) { eq_loop(ts, p, l) } else { Err(stuck(pos)) },
        }
    }
}

pub open spec fn eq_loop(ts: Seq<TokV>, pos: int, lhs: ExprV) -> PResult
    decreases ts.len() - pos, 15int,
{
    if pos < 0 || pos >= ts.len() {
        Err(stuck(pos))
    } else if eq_op(ts[pos].kind) is Some {
        match p_rel(ts, pos + 1) {
            Err(e) => Err(e),
            Ok((r, p)) => if advanced(pos, p, ts) {
                eq_loop(ts, p, ExprV::Binary { op: eq_op(ts[pos].kind).unwrap(), left: Box::new(lhs), right: Box::new(r) })
            } else {
                Err(stuck(pos))
            },
        }
    } else {
        Ok((lhs, pos))
    }
}

/// Operator of a comparison token.
pub open spec fn rel_op(k: TokK) -> Option<BinaryOp> {
    match k {
        TokK::Lt => Some(BinaryOp::Lt),
        TokK::Le => Some(BinaryOp::Le),
        TokK::Gt => Some(BinaryOp::Gt),
        TokK::Ge => Some(BinaryOp::Ge),
        _ => None,
    }
}

/// `a < b <= ...`
pub open spec fn p_rel(ts: Seq<TokV>, pos: int) -> PResult
    decreases ts.len() - pos, 14int,
{
    if pos < 0 || pos >= ts.len() {
        Err(stuck(pos))
    } else {
        match p_term(ts, pos) {
            Err(e) => Err(e),
            Ok((l, p)) => if advanced(pos, p, ts) { rel_loop(ts, p, l) } else { Err(stuck(pos)) },
        }
    }
}

pub open spec fn rel_loop(ts: Seq<TokV>, pos: int, lhs: ExprV) -> PResult
    decreases ts.len() - pos, 13int,
{
    if pos < 0 || pos >= ts.len() {
        Err(stuck(pos))
    } else if rel_op(ts[pos].kind) is Some {
        match p_term(ts, pos + 1) {
            Err(e) => Err(e),
            Ok((r, p)) => if advanced(pos, p, ts) {
                rel_loop(ts, p, ExprV::Binary { op: rel_op(ts[pos].kind).unwrap(), left: Box::new(lhs), right: Box::new(r) })
            } else {
                Err(stuck(pos))
            },
        }
    } else {
        Ok((lhs, pos))
    }
}

/// Operator of an additive token.
pub open spec fn term_op(k: TokK) -> Option<BinaryOp> {
    match k {
        TokK::Plus => Some(BinaryOp::Add),
        TokK::Minus => Some(BinaryOp::Sub),
        _ => None,
    }
}

/// `a + b - ...`
pub open spec fn p_term(ts: Seq<TokV>, pos: int) -> PResult
    decreases ts.len() - pos, 12int,
{
    if pos < 0 || pos >= ts.len() {
        Err(stuck(pos))
    } else {
        match p_factor(ts, pos) {
            Err(e) => Err(e),
            Ok((l, p)) => if advanced(pos, p, ts) { term_loop(ts, p, l) } else { Err(stuck(pos)) },
        }
    }
}

pub open spec fn term_loop(ts: Seq<TokV>, pos: int, lhs: ExprV) -> PResult
    decreases ts.len() - pos, 11int,
{
    if pos < 0 || pos >= ts.len() {
        Err(stuck(pos))
    } else if term_op(ts[pos].kind) is Some {
        match p_factor(ts, pos + 1) {
            Err(e) => Err(e),
            Ok((r, p)) => if advanced(pos, p, ts) {
                term_loop(ts, p, ExprV::Binary { op: term_op(ts[pos].kind).unwrap(), left: Box::new(lhs), right: Box::new(r) })
            } else {
                Err(stuck(pos))
            },
        }
    } else {
        Ok((lhs, pos))
    }
}

/// Operator of a multiplicative token.
pub open spec fn factor_op(k: TokK) -> Option<BinaryOp> {
    match k {
        TokK::Star => Some(BinaryOp::Mul),
        TokK::Slash => Some(BinaryOp::Div),
        TokK::Percent => Some(BinaryOp::Mod),
        _ => None,
    }
}

/// `a * b / c % ...`
pub open spec fn p_factor(ts: Seq<TokV>, pos: int) -> PResult
    decreases ts.len() - pos, 10int,
{
    if pos < 0 || pos >= ts.len() {
        Err(stuck(pos))
    } else {
        match p_unary(ts, pos) {
            Err(e) => Err(e),
            Ok((l, p)) => if advanced(pos, p, ts) { factor_loop(ts, p, l) } else { Err(stuck(pos)) },
        }
    }
}

pub open spec fn factor_loop(ts: Seq<TokV>, pos: int, lhs: ExprV) -> PResult
    decreases ts.len() - pos, 9int,
{
    if pos < 0 || pos >= ts.len() {
        Err(stuck(pos))
    } else if factor_op(ts[pos].kind) is Some {
        match p_unary(ts, pos + 1) {
            Err(e) => Err(e),
            Ok((r, p)) => if advanced(pos, p, ts) {
                factor_loop(ts, p, ExprV::Binary { op: factor_op(ts[pos].kind).unwrap(), left: Box::new(lhs), right: Box::new(r) })
            } else {
                Err(stuck(pos))
            },
        }
    } else {
        Ok((lhs, pos))
    }
}

/// `-a`, `!a`, or a postfix expression.
pub open spec fn p_unary(ts: Seq<TokV>, pos: int) -> PResult
    decreases ts.len() - pos, 8int,
{
    if pos < 0 || pos >= ts.len() {
        Err(stuck(pos))
    } else if at(ts, pos, TokK::Minus) || at(ts, pos, TokK::Bang) {
        match p_unary(ts, pos + 1) {
            Err(e) => Err(e),
            Ok((e, p)) => Ok((
                ExprV::Unary { op: if at(ts, pos, TokK::Minus) { UnaryOp::Neg } else { UnaryOp::Not }, expr: Box::new(e) },
                p,
            )),
        }
    } else {
        p_postfix(ts, pos)
    }
}

/// A primary followed by member accesses and calls.
pub open spec fn p_postfix(ts: Seq<TokV>, pos: int) -> PResult
    decreases ts.len() - pos, 7int,
{
    if pos < 0 || pos >= ts.len() {
        Err(stuck(pos))
    } else {
        match p_primary(ts, pos) {
            Err(e) => Err(e),
            Ok((e, p)) => if advanced(pos, p, ts) { postfix_loop(ts, p, e) } else { Err(stuck(pos)) },
        }
    }
}

pub open spec fn postfix_loop(ts: Seq<TokV>, pos: int, e: ExprV) -> PResult
    decreases ts.len() - pos, 6int,
{
    if pos < 0 || pos >= ts.len() {
        Err(stuck(pos))
    } else if at(ts, pos, TokK::Dot) {
        if pos + 1 >= ts.len() {
            Err(stuck(pos))
        } else {
            match ts[pos + 1].kind {
                TokK::Ident(name) => match e {
                    ExprV::Path(segs) => postfix_loop(ts, pos + 2, ExprV::Path(segs.push(name))),
                    _ => Err(ErrV { offset: 0, message: "member access base must be an identifier path"@ }),
                },
                other => Err(ErrV {
                    offset: start_of(ts, pos + 1),
                    message: "expected ident after '.', found "@ + kind_dbg(other),
                }),
            }
        }
    } else if at(ts, pos, TokK::LParen) {
        match p_args(ts, pos) {
            Err(err) => Err(err),
            Ok((args, p)) => if advanced(pos, p, ts) {
                match e {
                    ExprV::Path(segs) => if segs.len() == 1 {
                        postfix_loop(ts, p, ExprV::Call { func: segs[0], args })
                    } else {
                        Err(ErrV {
                            offset: start_of(ts, p),
                            message: "call target must be a single identifier, got path "@ + path_dbg(segs),
                        })
                    },
                    _ => Err(ErrV { offset: start_of(ts, p), message: "call target must be an identifier"@ }),
                }
            } else {
                Err(stuck(pos))
            },
        }
    } else {
        Ok((e, pos))
    }
}

/// Call arguments after the `(` at `lp`: `)` or `a, b, ... )`.
pub open spec fn p_args(ts: Seq<TokV>, lp: int) -> Result<(Seq<ExprV>, int), ErrV>
    decreases ts.len() - lp, 5int,
{
    if lp < 0 || lp + 1 >= ts.len() {
        Err(stuck(lp))
    } else if at(ts, lp + 1, TokK::RParen) {
        Ok((Seq::empty(), lp + 2))
    } else {
        args_loop(ts, lp, Seq::empty())
    }
}

/// Arguments after the separator (`(` or `,`) at `sep`.
pub open spec fn args_loop(ts: Seq<TokV>, sep: int, acc: Seq<ExprV>) -> Result<(Seq<ExprV>, int), ErrV>
    decreases ts.len() - sep, 4int,
{
    if sep < 0 || sep + 1 >= ts.len() {
        Err(stuck(sep))
    } else {
        match p_or(ts, sep + 1) {
            Err(e) => Err(e),
            Ok((a, p)) => if advanced(sep, p, ts) {
                if at(ts, p, TokK::Comma) {
                    args_loop(ts, p, acc.push(a))
                } else if at(ts, p, TokK::RParen) {
                    Ok((acc.push(a), p + 1))
                } else {
                    Err(expect_err(ts, p, TokK::RParen))
                }
            } else {
                Err(stuck(sep))
            },
        }
    }
}

/// Number, boolean, identifier, or parenthesized expression.
pub open spec fn p_primary(ts: Seq<TokV>, pos: int) -> PResult
    decreases ts.len() - pos, 3int,
{
    if pos < 0 || pos >= ts.len() {
        Err(stuck(pos))
    } else {
        match ts[pos].kind {
            TokK::Number(s) => Ok((ExprV::Lit(LitV::Number(s)), pos + 1)),
            TokK::True => Ok((ExprV::Lit(LitV::Bool(true)), pos + 1)),
            TokK::False => Ok((ExprV::Lit(LitV::Bool(false)), pos + 1)),
            TokK::Ident(s) => Ok((ExprV::Path(seq![s]), pos + 1)),
            TokK::LParen => match p_or(ts, pos + 1) {
                Err(e) => Err(e),
                Ok((e, p)) => if advanced(pos, p, ts) {
                    if at(ts, p, TokK::RParen) { Ok((e, p + 1)) } else { Err(expect_err(ts, p, TokK::RParen)) }
                } else {
                    Err(stuck(pos))
                },
            },
            other => Err(ErrV { offset: start_of(ts, pos), message: "unexpected token "@ + kind_dbg(other) }),
        }
    }
}

/// A token list as produced by the lexer: non-empty, ending with the only `Eof`.
pub open spec fn tokens_ok(ts: Seq<TokV>) -> bool {
    &&& ts.len() > 0
    &&& ts.last().kind == TokK::Eof
    &&& forall|i: int| 0 <= i < ts.len() - 1 ==> ts[i].kind != TokK::Eof
}

/// Whole-expression parse of a token list: an expression followed by `Eof`.
pub open spec fn parse_tokens(ts: Seq<TokV>) -> Result<ExprV, ErrV> {
    match p_or(ts, 0) {
        Err(e) => Err(e),
        Ok((e, p)) => if at(ts, p, TokK::Eof) { Ok(e) } else { Err(expect_err(ts, p, TokK::Eof)) },
    }
}


proof fn lemma_not_last_before_eof(tv: Seq<TokV>, pos: int)
    requires
        tokens_ok(tv),
        0 <= pos < tv.len(),
        tv[pos].kind != TokK::Eof,
    ensures
        pos + 1 < tv.len(),
{
}

fn parse_or(ts: &Vec<Token>, pos: usize) -> (r: Result<(Expr, usize), ExprError>)
    requires
        tokens_ok(toks_view(ts@)),
        pos < ts.len(),
    ensures
        r matches Ok((e, p)) ==> p_or(toks_view(ts@), pos as int) == Ok::<(ExprV, int), ErrV>((expr_view(e), p as int)) && pos < p < ts@.len(),
        r matches Err(e) ==> p_or(toks_view(ts@), pos as int) == Err::<(ExprV, int), ErrV>(err_view(e)),
    decreases ts@.len() - pos, 20int,
{
    match parse_and(ts, pos) {
        Err(e) => Err(e),
        Ok((l, p)) => or_loop_exec(ts, p, l),
    }
}

fn or_loop_exec(ts: &Vec<Token>, pos: usize, lhs: Expr) -> (r: Result<(Expr, usize), ExprError>)
    requires
        tokens_ok(toks_view(ts@)),
        pos < ts.len(),
    ensures
        r matches Ok((e, p)) ==> or_loop(toks_view(ts@), pos as int, expr_view(lhs)) == Ok::<(ExprV, int), ErrV>((expr_view(e), p as int)) && pos <= p < ts@.len(),
        r matches Err(e) ==> or_loop(toks_view(ts@), pos as int, expr_view(lhs)) == Err::<(ExprV, int), ErrV>(err_view(e)),
    decreases ts@.len() - pos, 19int,
{
    let ghost tv = toks_view(ts@);
    let k = &ts[pos].kind;
    assert(tv[pos as int] == tok_view(ts@[pos as int]));
    if matches!(k, TokenKind::OrOr) {
        proof {
            lemma_not_last_before_eof(tv, pos as int);
        }
        let op = BinaryOp::Or;
        match parse_and(ts, pos + 1) {
            Err(e) => Err(e),
            Ok((rhs, p)) => {
                let e = Expr::Binary { op, left: Box::new(lhs), right: Box::new(rhs) };
                or_loop_exec(ts, p, e)
            },
        }
    } else {
        Ok((lhs, pos))
    }
}

fn parse_and(ts: &Vec<Token>, pos: usize) -> (r: Result<(Expr, usize), ExprError>)
    requires
        tokens_ok(toks_view(ts@)),
        pos < ts.len(),
    ensures
        r matches Ok((e, p)) ==> p_and(toks_view(ts@), pos as int) == Ok::<(ExprV, int), ErrV>((expr_view(e), p as int)) && pos < p < ts@.len(),
        r matches Err(e) ==> p_and(toks_view(ts@), pos as int) == Err::<(ExprV, int), ErrV>(err_view(e)),
    decreases ts@.len() - pos, 18int,
{
    match parse_eq(ts, pos) {
        Err(e) => Err(e),
        Ok((l, p)) => and_loop_exec(ts, p, l),
    }
}

fn and_loop_exec(ts: &Vec<Token>, pos: usize, lhs: Expr) -> (r: Result<(Expr, usize), ExprError>)
    requires
        tokens_ok(toks_view(ts@)),
        pos < ts.len(),
    ensures
        r matches Ok((e, p)) ==> and_loop(toks_view(ts@), pos as int, expr_view(lhs)) == Ok::<(ExprV, int), ErrV>((expr_view(e), p as int)) && pos <= p < ts@.len(),
        r matches Err(e) ==> and_loop(toks_view(ts@), pos as int, expr_view(lhs)) == Err::<(ExprV, int), ErrV>(err_view(e)),
    decreases ts@.len() - pos, 17int,
{
    let ghost tv = toks_view(ts@);
    let k = &ts[pos].kind;
    assert(tv[pos as int] == tok_view(ts@[pos as int]));
    if matches!(k, TokenKind::AndAnd) {
        proof {
            lemma_not_last_before_eof(tv, pos as int);
        }
        let op = BinaryOp::And;
        match parse_eq(ts, pos + 1) {
            Err(e) => Err(e),
            Ok((rhs, p)) => {
                let e = Expr::Binary { op, left: Box::new(lhs), right: Box::new(rhs) };
                and_loop_exec(ts, p, e)
            },
        }
    } else {
        Ok((lhs, pos))
    }
}

fn parse_eq(ts: &Vec<Token>, pos: usize) -> (r: Result<(Expr, usize), ExprError>)
    requires
        tokens_ok(toks_view(ts@)),
        pos < ts.len(),
    ensures
        r matches Ok((e, p)) ==> p_eq(toks_view(ts@), pos as int) == Ok::<(ExprV, int), ErrV>((expr_view(e), p as int)) && pos < p < ts@.len(),
        r matches Err(e) ==> p_eq(toks_view(ts@), pos as int) == Err::<(ExprV, int), ErrV>(err_view(e)),
    decreases ts@.len() - pos, 16int,
{
    match parse_rel(ts, pos) {
        Err(e) => Err(e),
        Ok((l, p)) => eq_loop_exec(ts, p, l),
    }
}

fn eq_loop_exec(ts: &Vec<Token>, pos: usize, lhs: Expr) -> (r: Result<(Expr, usize), ExprError>)
    requires
        tokens_ok(toks_view(ts@)),
        pos < ts.len(),
    ensures
        r matches Ok((e, p)) ==> eq_loop(toks_view(ts@), pos as int, expr_view(lhs)) == Ok::<(ExprV, int), ErrV>((expr_view(e), p as int)) && pos <= p < ts@.len(),
        r matches Err(e) ==> eq_loop(toks_view(ts@), pos as int, expr_view(lhs)) == Err::<(ExprV, int), ErrV>(err_view(e)),
    decreases ts@.len() - pos, 15int,
{
    let ghost tv = toks_view(ts@);
    let k = &ts[pos].kind;
    assert(tv[pos as int] == tok_view(ts@[pos as int]));
    if matches!(k, TokenKind::EqEq) || matches!(k, TokenKind::Ne) {
        proof {
            lemma_not_last_before_eof(tv, pos as int);
        }
        let op = if matches!(k, TokenKind::EqEq) { BinaryOp::Eq } else { BinaryOp::Ne };
        match parse_rel(ts, pos + 1) {
            Err(e) => Err(e),
            Ok((rhs, p)) => {
                let e = Expr::Binary { op, left: Box::new(lhs), right: Box::new(rhs) };
                eq_loop_exec(ts, p, e)
            },
        }
    } else {
        Ok((lhs, pos))
    }
}

fn parse_rel(ts: &Vec<Token>, pos: usize) -> (r: Result<(Expr, usize), ExprError>)
    requires
        tokens_ok(toks_view(ts@)),
        pos < ts.len(),
    ensures
        r matches Ok((e, p)) ==> p_rel(toks_view(ts@), pos as int) == Ok::<(ExprV, int), ErrV>((expr_view(e), p as int)) && pos < p < ts@.len(),
        r matches Err(e) ==> p_rel(toks_view(ts@), pos as int) == Err::<(ExprV, int), ErrV>(err_view(e)),
    decreases ts@.len() - pos, 14int,
{
    match parse_term(ts, pos) {
        Err(e) => Err(e),
        Ok((l, p)) => rel_loop_exec(ts, p, l),
    }
}

fn rel_loop_exec(ts: &Vec<Token>, pos: usize, lhs: Expr) -> (r: Result<(Expr, usize), ExprError>)
    requires
        tokens_ok(toks_view(ts@)),
        pos < ts.len(),
    ensures
        r matches Ok((e, p)) ==> rel_loop(toks_view(ts@), pos as int, expr_view(lhs)) == Ok::<(ExprV, int), ErrV>((expr_view(e), p as int)) && pos <= p < ts@.len(),
        r matches Err(e) ==> rel_loop(toks_view(ts@), pos as int, expr_view(lhs)) == Err::<(ExprV, int), ErrV>(err_view(e)),
    decreases ts@.len() - pos, 13int,
{
    let ghost tv = toks_view(ts@);
    let k = &ts[pos].kind;
    assert(tv[pos as int] == tok_view(ts@[pos as int]));
    if matches!(k, TokenKind::Lt) || matches!(k, TokenKind::Le) || matches!(k, TokenKind::Gt) || matches!(k, TokenKind::Ge) {
        proof {
            lemma_not_last_before_eof(tv, pos as int);
        }
        let op = if matches!(k, TokenKind::Lt) { BinaryOp::Lt } else if matches!(k, TokenKind::Le) { BinaryOp::Le } else if matches!(k, TokenKind::Gt) { BinaryOp::Gt } else { BinaryOp::Ge };
        match parse_term(ts, pos + 1) {
            Err(e) => Err(e),
            Ok((rhs, p)) => {
                let e = Expr::Binary { op, left: Box::new(lhs), right: Box::new(rhs) };
                rel_loop_exec(ts, p, e)
            },
        }
    } else {
        Ok((lhs, pos))
    }
}

fn parse_term(ts: &Vec<Token>, pos: usize) -> (r: Result<(Expr, usize), ExprError>)
    requires
        tokens_ok(toks_view(ts@)),
        pos < ts.len(),
    ensures
        r matches Ok((e, p)) ==> p_term(toks_view(ts@), pos as int) == Ok::<(ExprV, int), ErrV>((expr_view(e), p as int)) && pos < p < ts@.len(),
        r matches Err(e) ==> p_term(toks_view(ts@), pos as int) == Err::<(ExprV, int), ErrV>(err_view(e)),
    decreases ts@.len() - pos, 12int,
{
    match parse_factor(ts, pos) {
        Err(e) => Err(e),
        Ok((l, p)) => term_loop_exec(ts, p, l),
    }
}

fn term_loop_exec(ts: &Vec<Token>, pos: usize, lhs: Expr) -> (r: Result<(Expr, usize), ExprError>)
    requires
        tokens_ok(toks_view(ts@)),
        pos < ts.len(),
    ensures
        r matches Ok((e, p)) ==> term_loop(toks_view(ts@), pos as int, expr_view(lhs)) == Ok::<(ExprV, int), ErrV>((expr_view(e), p as int)) && pos <= p < ts@.len(),
        r matches Err(e) ==> term_loop(toks_view(ts@), pos as int, expr_view(lhs)) == Err::<(ExprV, int), ErrV>(err_view(e)),
    decreases ts@.len() - pos, 11int,
{
    let ghost tv = toks_view(ts@);
    let k = &ts[pos].kind;
    assert(tv[pos as int] == tok_view(ts@[pos as int]));
    if matches!(k, TokenKind::Plus) || matches!(k, TokenKind::Minus) {
        proof {
            lemma_not_last_before_eof(tv, pos as int);
        }
        let op = if matches!(k, TokenKind::Plus) { BinaryOp::Add } else { BinaryOp::Sub };
        match parse_factor(ts, pos + 1) {
            Err(e) => Err(e),
            Ok((rhs, p)) => {
                let e = Expr::Binary { op, left: Box::new(lhs), right: Box::new(rhs) };
                term_loop_exec(ts, p, e)
            },
        }
    } else {
        Ok((lhs, pos))
    }
}

fn parse_factor(ts: &Vec<Token>, pos: usize) -> (r: Result<(Expr, usize), ExprError>)
    requires
        tokens_ok(toks_view(ts@)),
        pos < ts.len(),
    ensures
        r matches Ok((e, p)) ==> p_factor(toks_view(ts@), pos as int) == Ok::<(ExprV, int), ErrV>((expr_view(e), p as int)) && pos < p < ts@.len(),
        r matches Err(e) ==> p_factor(toks_view(ts@), pos as int) == Err::<(ExprV, int), ErrV>(err_view(e)),
    decreases ts@.len() - pos, 10int,
{
    match parse_unary(ts, pos) {
        Err(e) => Err(e),
        Ok((l, p)) => factor_loop_exec(ts, p, l),
    }
}

fn factor_loop_exec(ts: &Vec<Token>, pos: usize, lhs: Expr) -> (r: Result<(Expr, usize), ExprError>)
    requires
        tokens_ok(toks_view(ts@)),
        pos < ts.len(),
    ensures
        r matches Ok((e, p)) ==> factor_loop(toks_view(ts@), pos as int, expr_view(lhs)) == Ok::<(ExprV, int), ErrV>((expr_view(e), p as int)) && pos <= p < ts@.len(),
        r matches Err(e) ==> factor_loop(toks_view(ts@), pos as int, expr_view(lhs)) == Err::<(ExprV, int), ErrV>(err_view(e)),
    decreases ts@.len() - pos, 9int,
{
    let ghost tv = toks_view(ts@);
    let k = &ts[pos].kind;
    assert(tv[pos as int] == tok_view(ts@[pos as int]));
    if matches!(k, TokenKind::Star) || matches!(k, TokenKind::Slash) || matches!(k, TokenKind::Percent) {
        proof {
            lemma_not_last_before_eof(tv, pos as int);
        }
        let op = if matches!(k, TokenKind::Star) { BinaryOp::Mul } else if matches!(k, TokenKind::Slash) { BinaryOp::Div } else { BinaryOp::Mod };
        match parse_unary(ts, pos + 1) {
            Err(e) => Err(e),
            Ok((rhs, p)) => {
                let e = Expr::Binary { op, left: Box::new(lhs), right: Box::new(rhs) };
                factor_loop_exec(ts, p, e)
            },
        }
    } else {
        Ok((lhs, pos))
    }
}

fn parse_unary(ts: &Vec<Token>, pos: usize) -> (r: Result<(Expr, usize), ExprError>)
    requires
        tokens_ok(toks_view(ts@)),
        pos < ts.len(),
    ensures
        r matches Ok((e, p)) ==> p_unary(toks_view(ts@), pos as int) == Ok::<(ExprV, int), ErrV>((expr_view(e), p as int)) && pos < p < ts@.len(),
        r matches Err(e) ==> p_unary(toks_view(ts@), pos as int) == Err::<(ExprV, int), ErrV>(err_view(e)),
    decreases ts@.len() - pos, 8int,
{
    let ghost tv = toks_view(ts@);
    let k = &ts[pos].kind;
    assert(tv[pos as int] == tok_view(ts@[pos as int]));
    if matches!(k, TokenKind::Minus) || matches!(k, TokenKind::Bang) {
        proof {
            lemma_not_last_before_eof(tv, pos as int);
        }
        let op = if matches!(k, TokenKind::Minus) { UnaryOp::Neg } else { UnaryOp::Not };
        match parse_unary(ts, pos + 1) {
            Err(e) => Err(e),
            Ok((inner, p)) => Ok((Expr::Unary { op, expr: Box::new(inner) }, p)),
        }
    } else {
        parse_postfix(ts, pos)
    }
}

fn parse_postfix(ts: &Vec<Token>, pos: usize) -> (r: Result<(Expr, usize), ExprError>)
    requires
        tokens_ok(toks_view(ts@)),
        pos < ts.len(),
    ensures
        r matches Ok((e, p)) ==> p_postfix(toks_view(ts@), pos as int) == Ok::<(ExprV, int), ErrV>((expr_view(e), p as int)) && pos < p < ts@.len(),
        r matches Err(e) ==> p_postfix(toks_view(ts@), pos as int) == Err::<(ExprV, int), ErrV>(err_view(e)),
    decreases ts@.len() - pos, 7int,
{
    match parse_primary(ts, pos) {
        Err(e) => Err(e),
        Ok((e, p)) => postfix_loop_exec(ts, p, e),
    }
}

#[verifier::rlimit(60)]
fn postfix_loop_exec(ts: &Vec<Token>, pos: usize, base: Expr) -> (r: Result<(Expr, usize), ExprError>)
    requires
        tokens_ok(toks_view(ts@)),
        pos < ts.len(),
    ensures
        r matches Ok((e, p)) ==> postfix_loop(toks_view(ts@), pos as int, expr_view(base)) == Ok::<(ExprV, int), ErrV>((expr_view(e), p as int)) && pos <= p < ts@.len(),
        r matches Err(e) ==> postfix_loop(toks_view(ts@), pos as int, expr_view(base)) == Err::<(ExprV, int), ErrV>(err_view(e)),
    decreases ts@.len() - pos, 6int,
{
    let ghost tv = toks_view(ts@);
    assert(tv[pos as int] == tok_view(ts@[pos as int]));
    if matches!(ts[pos].kind, TokenKind::Dot) {
        proof {
            lemma_not_last_before_eof(tv, pos as int);
        }
        let t = &ts[pos + 1];
        assert(tv[pos + 1] == tok_view(ts@[pos + 1]));
        match &t.kind {
            TokenKind::Ident(name) => {
                match base {
                    Expr::Path(segs) => {
                        let mut segs = segs;
                        let ghost before = segs@;
                        segs.push(name.clone());
                        proof {
                            assert(strings_view(segs@) =~= strings_view(before).push(name@));
                            if pos + 2 >= ts@.len() {
                                assert(tv[pos + 1].kind != TokK::Eof);
                            }
                        }
                        postfix_loop_exec(ts, pos + 2, Expr::Path(segs))
                    },
                    _ => Err(ExprError::new(0, "member access base must be an identifier path")),
                }
            },
            other => {
                let mut m = String::from_str("expected ident after '.', found ");
                let d = kind_debug(other);
                push_str(&mut m, d.as_str());
                Err(ExprError { offset: t.span.start, message: m })
            },
        }
    } else if matches!(ts[pos].kind, TokenKind::LParen) {
        match parse_args(ts, pos) {
            Err(e) => Err(e),
            Ok((args, p)) => {
                assert(tv[p as int] == tok_view(ts@[p as int]));
                let ghost av = args_view(args@);
                match base {
                    Expr::Path(segs) => {
                        if segs.len() == 1 {
                            let func = segs[0].clone();
                            proof {
                                lemma_call_view(func, args);
                            }
                            let call = Expr::Call { func, args };
                            postfix_loop_exec(ts, p, call)
                        } else {
                            let mut m = String::from_str("call target must be a single identifier, got path ");
                            let d = path_debug(segs.as_slice());
                            push_str(&mut m, d.as_str());
                            Err(ExprError { offset: ts[p].span.start, message: m })
                        }
                    },
                    _ => Err(ExprError::new(ts[p].span.start, "call target must be an identifier")),
                }
            },
        }
    } else {
        Ok((base, pos))
    }
}


fn parse_args(ts: &Vec<Token>, lp: usize) -> (r: Result<(Vec<Expr>, usize), ExprError>)
    requires
        tokens_ok(toks_view(ts@)),
        lp < ts.len(),
        at(toks_view(ts@), lp as int, TokK::LParen),
    ensures
        r matches Ok((a, p)) ==> p_args(toks_view(ts@), lp as int) == Ok::<(Seq<ExprV>, int), ErrV>((args_view(a@), p as int)) && lp < p < ts@.len(),
        r matches Err(e) ==> p_args(toks_view(ts@), lp as int) == Err::<(Seq<ExprV>, int), ErrV>(err_view(e)),
    decreases ts@.len() - lp, 5int,
{
    let ghost tv = toks_view(ts@);
    proof {
        lemma_not_last_before_eof(tv, lp as int);
    }
    assert(tv[lp + 1] == tok_view(ts@[lp + 1]));
    if matches!(ts[lp + 1].kind, TokenKind::RParen) {
        proof {
            lemma_not_last_before_eof(tv, lp + 1);
        }
        let v: Vec<Expr> = Vec::new();
        assert(args_view(v@) =~= Seq::<ExprV>::empty());
        return Ok((v, lp + 2));
    }
    let v: Vec<Expr> = Vec::new();
    assert(args_view(v@) =~= Seq::<ExprV>::empty());
    args_loop_exec(ts, lp, v)
}

#[verifier::rlimit(60)]
fn args_loop_exec(ts: &Vec<Token>, sep: usize, acc: Vec<Expr>) -> (r: Result<(Vec<Expr>, usize), ExprError>)
    requires
        tokens_ok(toks_view(ts@)),
        sep < ts.len(),
        toks_view(ts@)[sep as int].kind != TokK::Eof,
    ensures
        r matches Ok((a, p)) ==> args_loop(toks_view(ts@), sep as int, args_view(acc@)) == Ok::<(Seq<ExprV>, int), ErrV>((args_view(a@), p as int)) && sep < p < ts@.len(),
        r matches Err(e) ==> args_loop(toks_view(ts@), sep as int, args_view(acc@)) == Err::<(Seq<ExprV>, int), ErrV>(err_view(e)),
    decreases ts@.len() - sep, 4int,
{
    let ghost tv = toks_view(ts@);
    proof {
        lemma_not_last_before_eof(tv, sep as int);
    }
    match parse_or(ts, sep + 1) {
        Err(e) => Err(e),
        Ok((a, p)) => {
            assert(tv[p as int] == tok_view(ts@[p as int]));
            let mut acc = acc;
            let ghost before = acc@;
            acc.push(a);
            assert(args_view(acc@) =~= args_view(before).push(expr_view(a)));
            if matches!(ts[p].kind, TokenKind::Comma) {
                args_loop_exec(ts, p, acc)
            } else if matches!(ts[p].kind, TokenKind::RParen) {
                proof {
                    lemma_not_last_before_eof(tv, p as int);
                }
                Ok((acc, p + 1))
            } else {
                Err(expect_error(ts, p, &TokenKind::RParen))
            }
        },
    }
}

#[verifier::rlimit(100)]
#[verifier::spinoff_prover]
fn parse_primary(ts: &Vec<Token>, pos: usize) -> (r: Result<(Expr, usize), ExprError>)
    requires
        tokens_ok(toks_view(ts@)),
        pos < ts.len(),
    ensures
        r matches Ok((e, p)) ==> p_primary(toks_view(ts@), pos as int) == Ok::<(ExprV, int), ErrV>((expr_view(e), p as int)) && pos < p < ts@.len(),
        r matches Err(e) ==> p_primary(toks_view(ts@), pos as int) == Err::<(ExprV, int), ErrV>(err_view(e)),
    decreases ts@.len() - pos, 3int,
{
    let ghost tv = toks_view(ts@);
    let t = &ts[pos];
    assert(tv[pos as int] == tok_view(ts@[pos as int]));
    match &t.kind {
        TokenKind::Number(text) => {
            proof { lemma_not_last_before_eof(tv, pos as int); }
            Ok((Expr::Lit(Lit::Number(text.clone())), pos + 1))
        },
        TokenKind::True => {
            proof { lemma_not_last_before_eof(tv, pos as int); }
            Ok((Expr::Lit(Lit::Bool(true)), pos + 1))
        },
        TokenKind::False => {
            proof { lemma_not_last_before_eof(tv, pos as int); }
            Ok((Expr::Lit(Lit::Bool(false)), pos + 1))
        },
        TokenKind::Ident(name) => {
            proof { lemma_not_last_before_eof(tv, pos as int); }
            let mut v: Vec<String> = Vec::new();
            v.push(name.clone());
            assert(strings_view(v@) =~= seq![name@]);
            Ok((Expr::Path(v), pos + 1))
        },
        TokenKind::LParen => {
            proof { lemma_not_last_before_eof(tv, pos as int); }
            match parse_or(ts, pos + 1) {
                Err(e) => Err(e),
                Ok((e, p)) => {
                    assert(tv[p as int] == tok_view(ts@[p as int]));
                    if matches!(ts[p].kind, TokenKind::RParen) {
                        proof { lemma_not_last_before_eof(tv, p as int); }
                        Ok((e, p + 1))
                    } else {
                        Err(expect_error(ts, p, &TokenKind::RParen))
                    }
                },
            }
        },
        other => {
            let mut m = String::from_str("unexpected token ");
            let d = kind_debug(other);
            push_str(&mut m, d.as_str());
            Err(ExprError { offset: t.span.start, message: m })
        },
    }
}

fn expect_error(ts: &Vec<Token>, p: usize, want: &TokenKind) -> (e: ExprError)
    requires
        p < ts@.len(),
    ensures
        err_view(e) == expect_err(toks_view(ts@), p as int, kind_view(*want)),
{
    let ghost tv = toks_view(ts@);
    assert(tv[p as int] == tok_view(ts@[p as int]));
    let mut m = String::from_str("expected ");
    let a = kind_debug(want);
    push_str(&mut m, a.as_str());
    push_str(&mut m, ", found ");
    let b = kind_debug(&ts[p].kind);
    push_str(&mut m, b.as_str());
    assert(m@ =~= "expected "@ + kind_dbg(kind_view(*want)) + ", found "@ + kind_dbg(tv[p as int].kind));
    ExprError { offset: ts[p].span.start, message: m }
}

/// `Debug` rendering of a token kind.
pub fn kind_debug(k: &TokenKind) -> (r: String)
    ensures
        r@ == kind_dbg(kind_view(*k)),
{
    match k {
        TokenKind::Ident(s) => {
            let mut m = String::from_str("Ident(\"");
            push_str(&mut m, s.as_str());
            push_str(&mut m, "\")");
            m
        },
        TokenKind::Number(s) => {
            let mut m = String::from_str("Number(");
            push_str(&mut m, s.as_str());
            push_str(&mut m, ")");
            m
        },
        TokenKind::True => String::from_str("True"),
        TokenKind::False => String::from_str("False"),
        TokenKind::LParen => String::from_str("LParen"),
        TokenKind::RParen => String::from_str("RParen"),
        TokenKind::Comma => String::from_str("Comma"),
        TokenKind::Dot => String::from_str("Dot"),
        TokenKind::Plus => String::from_str("Plus"),
        TokenKind::Minus => String::from_str("Minus"),
        TokenKind::Star => String::from_str("Star"),
        TokenKind::Slash => String::from_str("Slash"),
        TokenKind::Percent => String::from_str("Percent"),
        TokenKind::Bang => String::from_str("Bang"),
        TokenKind::EqEq => String::from_str("EqEq"),
        TokenKind::Ne => String::from_str("Ne"),
        TokenKind::Lt => String::from_str("Lt"),
        TokenKind::Le => String::from_str("Le"),
        TokenKind::Gt => String::from_str("Gt"),
        TokenKind::Ge => String::from_str("Ge"),
        TokenKind::AndAnd => String::from_str("AndAnd"),
        TokenKind::OrOr => String::from_str("OrOr"),
        TokenKind::Question => String::from_str("Question"),
        TokenKind::Colon => String::from_str("Colon"),
        TokenKind::Eof => String::from_str("Eof"),
    }
}

/// `Debug` rendering of path segments, e.g. `["a", "b"]`.
pub fn path_debug(segs: &[String]) -> (r: String)
    ensures
        r@ == path_dbg(strings_view(segs@)),
{
    let n = segs.len();
    if n == 0 {
        return String::from_str("[]");
    }
    let mut m = String::from_str("[\"");
    push_str(&mut m, segs[0].as_str());
    push_str(&mut m, "\"]");
    assert(m@ =~= path_dbg_items(strings_view(segs@).take(1)));
    let mut i: usize = 1;
    while i < n
        invariant
            1 <= i <= n,
            n == segs@.len(),
            m@ == path_dbg_items(strings_view(segs@).take(i as int)),
        decreases n - i,
    {
        let ghost prev = m@;
        let ghost sv = strings_view(segs@);
        assert(sv.take(i + 1).drop_last() =~= sv.take(i as int));
        assert(prev.len() >= 1) by {
            lemma_path_items_nonempty(sv.take(i as int));
        }
        let mut next = String::new();
        let ml = m.as_str().unicode_len();
        let head = m.as_str().substring_char(0, ml - 1);
        push_str(&mut next, head);
        push_str(&mut next, ", \"");
        push_str(&mut next, segs[i].as_str());
        push_str(&mut next, "\"]");
        assert(next@ =~= prev.drop_last() + ", \""@ + sv[i as int] + "\"]"@);
        m = next;
        i = i + 1;
    }
    assert(strings_view(segs@).take(n as int) =~= strings_view(segs@));
    m
}

proof fn lemma_path_items_nonempty(p: Seq<Seq<char>>)
    ensures
        path_dbg_items(p).len() >= 1,
    decreases p.len(),
{
    reveal_strlit("\"]");
    if p.len() > 1 {
        lemma_path_items_nonempty(p.drop_last());
    }
}

/// Whole-expression parse of lexed tokens.
pub fn parse_tokens_exec(ts: &Vec<Token>) -> (r: Result<Expr, ExprError>)
    requires
        tokens_ok(toks_view(ts@)),
    ensures
        r matches Ok(e) ==> parse_tokens(toks_view(ts@)) == Ok::<ExprV, ErrV>(expr_view(e)),
        r matches Err(e) ==> parse_tokens(toks_view(ts@)) == Err::<ExprV, ErrV>(err_view(e)),
{
    let ghost tv = toks_view(ts@);
    match parse_or(ts, 0) {
        Err(e) => Err(e),
        Ok((e, p)) => {
            assert(tv[p as int] == tok_view(ts@[p as int]));
            if matches!(ts[p].kind, TokenKind::Eof) {
                Ok(e)
            } else {
                Err(expect_error(ts, p, &TokenKind::Eof))
            }
        },
    }
}

/// A character with the Unicode `White_Space` property.
pub open spec fn is_white_space(c: char) -> bool {
    let u = c as u32;
    (9 <= u <= 13) || u == 32 || u == 0x85 || u == 0xA0 || u == 0x1680 || (0x2000 <= u <= 0x200A)
        || u == 0x2028 || u == 0x2029 || u == 0x202F || u == 0x205F || u == 0x3000
}

/// Index of the first character at or after `i` that is not white space.
pub open spec fn ws_prefix_end(s: Seq<char>, i: int) -> int
    decreases s.len() - i,
{
    if 0 <= i < s.len() && is_white_space(s[i]) { ws_prefix_end(s, i + 1) } else { i }
}

/// Start of the run of white space that ends at `j`.
pub open spec fn ws_suffix_start(s: Seq<char>, j: int) -> int
    decreases j,
{
    if 0 < j <= s.len() && is_white_space(s[j - 1]) { ws_suffix_start(s, j - 1) } else { j }
}

/// `s` without leading and trailing white space.
pub open spec fn trim_ws(s: Seq<char>) -> Seq<char> {
    let a = ws_prefix_end(s, 0);
    let b = ws_suffix_start(s, s.len() as int);
    if a < b { s.subrange(a, b) } else { Seq::empty() }
}

/// `t` without one leading `=`.
pub open spec fn strip_eq(t: Seq<char>) -> Seq<char> {
    if t.len() > 0 && t[0] == '=' { t.drop_first() } else { t }
}

/// Source text of an expression as the lexer sees it: trimmed, with an optional leading `=`
/// removed.
pub open spec fn expr_body(s: Seq<char>) -> Seq<char> {
    strip_eq(trim_ws(s))
}

/// Outcome of parsing expression source `s`; `None` where the lexer would cut a multi-byte
/// character in two.
pub open spec fn spec_parse_expr(s: Seq<char>) -> Option<Result<ExprV, ErrV>> {
    match spec_lex(vstd::utf8::encode_utf8(expr_body(s))) {
        None => None,
        Some(Err(e)) => Some(Err(e)),
        Some(Ok(ts)) => Some(parse_tokens(ts)),
    }
}

/// Lexing outcomes are token lists that end with the only `Eof`.
pub proof fn lemma_lex_tokens_ok(b: Seq<u8>, i: int)
    ensures
        lex_from(b, i) matches Some(Ok(ts)) ==> tokens_ok(ts),
    decreases b.len() - i,
{
    if i < 0 || i >= b.len() {
    } else {
        if let Some(Ok(ts)) = lex_from(b, i) {
            let j = if crate::lexer::is_ws(b[i]) {
                i + 1
            } else if crate::lexer::number_starts(b, i) {
                match crate::lexer::number_end(b, i) {
                    Ok(e) => e,
                    Err(_) => i,
                }
            } else if crate::lexer::is_ident_start(b[i]) {
                crate::lexer::ident_end(b, i + 1)
            } else if i + 1 < b.len() && crate::lexer::two_char_op(b[i], b[i + 1]) is Some {
                i + 2
            } else {
                i + 1
            };
            lemma_lex_tokens_ok(b, j);
            if !crate::lexer::is_ws(b[i]) {
                let rest = lex_from(b, j).unwrap()->Ok_0;
                assert(ts =~= seq![ts[0]] + rest);
                assert forall|k: int| 0 <= k < ts.len() - 1 implies ts[k].kind != TokK::Eof by {
                    if k > 0 {
                        assert(ts[k] == rest[k - 1]);
                    }
                }
            }
        }
    }
}

/// Whether `c` has the Unicode `White_Space` property.
pub fn white_space(c: char) -> (r: bool)
    ensures
        r == is_white_space(c),
{
    let u = c as u32;
    (9 <= u && u <= 13) || u == 32 || u == 0x85 || u == 0xA0 || u == 0x1680 || (0x2000 <= u && u <= 0x200A)
        || u == 0x2028 || u == 0x2029 || u == 0x202F || u == 0x205F || u == 0x3000
}

/// `src` without leading and trailing white space.
pub fn trim_str(src: &str) -> (r: &str)
    ensures
        r@ == trim_ws(src@),
{
    let n = src.unicode_len();
    let mut a: usize = 0;
    while a < n && white_space(src.get_char(a))
        invariant
            n == src@.len(),
            a <= n,
            ws_prefix_end(src@, a as int) == ws_prefix_end(src@, 0),
        decreases n - a,
    {
        a = a + 1;
    }
    let mut b: usize = n;
    while b > 0 && white_space(src.get_char(b - 1))
        invariant
            n == src@.len(),
            b <= n,
            ws_suffix_start(src@, b as int) == ws_suffix_start(src@, n as int),
        decreases b,
    {
        b = b - 1;
    }
    let t = if a < b { src.substring_char(a, b) } else { src.substring_char(0, 0) };
    assert(t@ =~= trim_ws(src@));
    t
}

/// The body of expression source `src` (see [`expr_body`]).
fn expr_body_of(src: &str) -> (r: &str)
    ensures
        r@ == expr_body(src@),
{
    let t = trim_str(src);
    let m = t.unicode_len();
    if m > 0 && t.get_char(0) == '=' {
        let r = t.substring_char(1, m);
        assert(r@ =~= strip_eq(t@));
        r
    } else {
        t
    }
}

/// Parse expression source: surrounding white space and one leading `=` are ignored, and the
/// rest must be a single expression.
///
/// Inputs on which the lexer would cut a multi-byte character in two are excluded by the
/// precondition.
pub fn parse_expr(src: &str) -> (r: Result<Expr, ExprError>)
    requires
        spec_parse_expr(src@) is Some,
    ensures
        r matches Ok(e) ==> spec_parse_expr(src@) == Some(Ok::<ExprV, ErrV>(expr_view(e))),
        r matches Err(e) ==> spec_parse_expr(src@) == Some(Err::<ExprV, ErrV>(err_view(e))),
{
    let body = expr_body_of(src);
    let tokens = lex(body);
    match tokens {
        Err(e) => Err(e),
        Ok(ts) => {
            proof {
                lemma_lex_tokens_ok(body.spec_bytes(), 0);
            }
            parse_tokens_exec(&ts)
        },
    }
}

/// Whether [`parse_expr`] is defined on `src` (its lexer never cuts a multi-byte character).
pub fn parse_defined(src: &str) -> (r: bool)
    ensures
        r == (spec_parse_expr(src@) is Some),
{
    let body = expr_body_of(src);
    lex_defined(body)
}

} // verus!
