//! Tokenizer for the expression language.
//!
//! The input is scanned byte by byte; spans are byte offsets. Number literals keep their source
//! text (the evaluator parses them), identifiers keep their name.
use vstd::prelude::*;
use crate::text::{push_char, push_str};
use vstd::string::StringSliceAdditionalSpecFns;

verus! {

/// Byte span `start..end` of a token.
#[derive(Debug, Clone, Copy, PartialEq, Eq)]
pub struct Span {
    /// First byte.
    pub start: usize,
    /// One past the last byte.
    pub end: usize,
}

/// Token classes.
#[derive(Debug, Clone, PartialEq, Eq)]
pub enum TokenKind {
    /// Identifier.
    Ident(String),
    /// Number literal, as written.
    Number(String),
    /// `true`.
    True,
    /// `false`.
    False,
    /// `(`.
    LParen,
    /// `)`.
    RParen,
    /// `,`.
    Comma,
    /// `.`.
    Dot,
    /// `+`.
    Plus,
    /// `-`.
    Minus,
    /// `*`.
    Star,
    /// `/`.
    Slash,
    /// `%`.
    Percent,
    /// `!`.
    Bang,
    /// `==`.
    EqEq,
    /// `!=`.
    Ne,
    /// `<`.
    Lt,
    /// `<=`.
    Le,
    /// `>`.
    Gt,
    /// `>=`.
    Ge,
    /// `&&`.
    AndAnd,
    /// `||`.
    OrOr,
    /// `?`.
    Question,
    /// `:`.
    Colon,
    /// End of input.
    Eof,
}

/// A token and its span.
#[derive(Debug, Clone, PartialEq, Eq)]
pub struct Token {
    /// Class (and payload).
    pub kind: TokenKind,
    /// Byte span.
    pub span: Span,
}

/// Expression error at a byte offset.
#[derive(Debug, Clone, PartialEq, Eq)]
pub struct ExprError {
    /// Byte offset of the problem.
    pub offset: usize,
    /// Description.
    pub message: String,
}

impl ExprError {
    /// An error at `offset` with message `message`.
    pub fn new(offset: usize, message: &str) -> (e: ExprError)
        ensures
            e.offset == offset,
            e.message@ == message@,
    {
        ExprError { offset, message: String::from_str(message) }
    }
}

/// Token class with its payload as characters.
pub enum TokK {
    Ident(Seq<char>),
    Number(Seq<char>),
    True,
    False,
    LParen,
    RParen,
    Comma,
    Dot,
    Plus,
    Minus,
    Star,
    Slash,
    Percent,
    Bang,
    EqEq,
    Ne,
    Lt,
    Le,
    Gt,
    Ge,
    AndAnd,
    OrOr,
    Question,
    Colon,
    Eof,
}

/// Abstract token.
pub struct TokV {
    pub kind: TokK,
    pub start: int,
    pub end: int,
}

/// Abstract error.
pub struct ErrV {
    pub offset: int,
    pub message: Seq<char>,
}

/// Abstract view of a token kind.
pub open spec fn kind_view(k: TokenKind) -> TokK {
    match k {
        TokenKind::Ident(s) => TokK::Ident(s@),
        TokenKind::Number(s) => TokK::Number(s@),
        TokenKind::True => TokK::True,
        TokenKind::False => TokK::False,
        TokenKind::LParen => TokK::LParen,
        TokenKind::RParen => TokK::RParen,
        TokenKind::Comma => TokK::Comma,
        TokenKind::Dot => TokK::Dot,
        TokenKind::Plus => TokK::Plus,
        TokenKind::Minus => TokK::Minus,
        TokenKind::Star => TokK::Star,
        TokenKind::Slash => TokK::Slash,
        TokenKind::Percent => TokK::Percent,
        TokenKind::Bang => TokK::Bang,
        TokenKind::EqEq => TokK::EqEq,
        TokenKind::Ne => TokK::Ne,
        TokenKind::Lt => TokK::Lt,
        TokenKind::Le => TokK::Le,
        TokenKind::Gt => TokK::Gt,
        TokenKind::Ge => TokK::Ge,
        TokenKind::AndAnd => TokK::AndAnd,
        TokenKind::OrOr => TokK::OrOr,
        TokenKind::Question => TokK::Question,
        TokenKind::Colon => TokK::Colon,
        TokenKind::Eof => TokK::Eof,
    }
}

/// Abstract view of a token.
pub open spec fn tok_view(t: Token) -> TokV {
    TokV { kind: kind_view(t.kind), start: t.span.start as int, end: t.span.end as int }
}

/// Abstract view of a token list.
pub open spec fn toks_view(ts: Seq<Token>) -> Seq<TokV> {
    Seq::new(ts.len(), |i: int| tok_view(ts[i]))
}

/// Abstract view of an error.
pub open spec fn err_view(e: ExprError) -> ErrV {
    ErrV { offset: e.offset as int, message: e.message@ }
}

// ---------------------------------------------------------------------------------------------
// Lexical grammar
// ---------------------------------------------------------------------------------------------

/// A byte taken as a character (`U+0000..U+00FF`) is white space.
pub open spec fn is_ws(b: u8) -> bool {
    (9 <= b <= 13) || b == 32 || b == 0x85 || b == 0xA0
}

/// ASCII digit.
pub open spec fn is_digit(b: u8) -> bool {
    48 <= b <= 57
}

/// ASCII letter.
pub open spec fn is_alpha(b: u8) -> bool {
    (65 <= b <= 90) || (97 <= b <= 122)
}

/// First byte of an identifier.
pub open spec fn is_ident_start(b: u8) -> bool {
    is_alpha(b) || b == 95
}

/// Later byte of an identifier.
pub open spec fn is_ident_continue(b: u8) -> bool {
    is_alpha(b) || is_digit(b) || b == 95
}

/// UTF-8 continuation byte.
pub open spec fn is_continuation(b: u8) -> bool {
    0x80 <= b < 0xC0
}

/// End of the run of digits starting at `i`.
pub open spec fn digits_end(b: Seq<u8>, i: int) -> int
    decreases b.len() - i,
{
    if 0 <= i < b.len() && is_digit(b[i]) { digits_end(b, i + 1) } else { i }
}

/// End of the run of identifier bytes starting at `i`.
pub open spec fn ident_end(b: Seq<u8>, i: int) -> int
    decreases b.len() - i,
{
    if 0 <= i < b.len() && is_ident_continue(b[i]) { ident_end(b, i + 1) } else { i }
}

/// A number literal starts at `i`: a digit, or `.` followed by a digit.
pub open spec fn number_starts(b: Seq<u8>, i: int) -> bool {
    is_digit(b[i]) || (b[i] == 46 && i + 1 < b.len() && is_digit(b[i + 1]))
}

/// End of the integer and fraction part of the number starting at `i`.
pub open spec fn mantissa_end(b: Seq<u8>, i: int) -> int {
    if b[i] == 46 {
        digits_end(b, i + 1)
    } else {
        let j = digits_end(b, i);
        if j < b.len() && b[j] == 46 && j + 1 < b.len() && is_digit(b[j + 1]) { digits_end(b, j + 1) } else { j }
    }
}

/// End of the number literal starting at `i`, or `Err(pos)` of an exponent marker with no
/// digits after it.
pub open spec fn number_end(b: Seq<u8>, i: int) -> Result<int, int> {
    let j = mantissa_end(b, i);
    if j < b.len() && (b[j] == 101 || b[j] == 69) {
        let k = if j + 1 < b.len() && (b[j + 1] == 43 || b[j + 1] == 45) { j + 2 } else { j + 1 };
        let m = digits_end(b, k);
        if m == k { Err(j) } else { Ok(m) }
    } else {
        Ok(j)
    }
}

/// Characters of bytes `s..e`, each byte taken as a character.
pub open spec fn bytes_as_chars(b: Seq<u8>, s: int, e: int) -> Seq<char> {
    Seq::new((e - s) as nat, |k: int| b[s + k] as char)
}

/// Two-byte operator at `i`, if any.
pub open spec fn two_char_op(x: u8, y: u8) -> Option<TokK> {
    if x == 38 && y == 38 { Some(TokK::AndAnd) }
    else if x == 124 && y == 124 { Some(TokK::OrOr) }
    else if x == 61 && y == 61 { Some(TokK::EqEq) }
    else if x == 33 && y == 61 { Some(TokK::Ne) }
    else if x == 60 && y == 61 { Some(TokK::Le) }
    else if x == 62 && y == 61 { Some(TokK::Ge) }
    else { None }
}

/// One-byte token, if any.
pub open spec fn one_char_op(x: u8) -> Option<TokK> {
    if x == 40 { Some(TokK::LParen) }
    else if x == 41 { Some(TokK::RParen) }
    else if x == 44 { Some(TokK::Comma) }
    else if x == 46 { Some(TokK::Dot) }
    else if x == 43 { Some(TokK::Plus) }
    else if x == 45 { Some(TokK::Minus) }
    else if x == 42 { Some(TokK::Star) }
    else if x == 47 { Some(TokK::Slash) }
    else if x == 37 { Some(TokK::Percent) }
    else if x == 33 { Some(TokK::Bang) }
    else if x == 60 { Some(TokK::Lt) }
    else if x == 62 { Some(TokK::Gt) }
    else if x == 63 { Some(TokK::Question) }
    else if x == 58 { Some(TokK::Colon) }
    else { None }
}

/// Message for an unexpected byte.
pub open spec fn unexpected_msg(x: u8) -> Seq<char> {
    "unexpected character '"@ + seq![x as char] + "'"@
}

/// Keyword or identifier for identifier text.
pub open spec fn ident_kind(t: Seq<char>) -> TokK {
    if t == "true"@ { TokK::True } else if t == "false"@ { TokK::False } else { TokK::Ident(t) }
}

/// Prepend a token to a lexing outcome.
pub open spec fn cons_tok(t: TokV, r: Option<Result<Seq<TokV>, ErrV>>) -> Option<Result<Seq<TokV>, ErrV>> {
    match r {
        Some(Ok(ts)) => Some(Ok(seq![t] + ts)),
        other => other,
    }
}

/// Outcome of lexing `b` from byte `i`: the tokens (ending with `Eof`), an error, or `None` where
/// the scan would split a multi-byte character.
pub open spec fn lex_from(b: Seq<u8>, i: int) -> Option<Result<Seq<TokV>, ErrV>>
    decreases b.len() - i, 0int,
{
    if i < 0 || i >= b.len() {
        Some(Ok(seq![TokV { kind: TokK::Eof, start: b.len() as int, end: b.len() as int }]))
    } else if is_ws(b[i]) {
        lex_from(b, i + 1)
    } else if number_starts(b, i) {
        match number_end(b, i) {
            Err(p) => Some(Err(ErrV { offset: p, message: "invalid number exponent (expected digits)"@ })),
            Ok(e) => if i < e <= b.len() { cons_tok(TokV { kind: TokK::Number(bytes_as_chars(b, i, e)), start: i, end: e }, lex_from(b, e)) } else { None },
        }
    } else if is_ident_start(b[i]) {
        let e = ident_end(b, i + 1);
        if i < e <= b.len() { cons_tok(TokV { kind: ident_kind(bytes_as_chars(b, i, e)), start: i, end: e }, lex_from(b, e)) } else { None }
    } else if i + 1 < b.len() && i + 2 < b.len() && is_continuation(b[i + 2]) {
        None
    } else if i + 1 < b.len() && two_char_op(b[i], b[i + 1]) is Some {
        cons_tok(TokV { kind: two_char_op(b[i], b[i + 1]).unwrap(), start: i, end: i + 2 }, lex_from(b, i + 2))
    } else if one_char_op(b[i]) is Some {
        cons_tok(TokV { kind: one_char_op(b[i]).unwrap(), start: i, end: i + 1 }, lex_from(b, i + 1))
    } else {
        Some(Err(ErrV { offset: i, message: unexpected_msg(b[i]) }))
    }
}

/// `ts` prepended to a lexing outcome.
pub open spec fn prepend_all(ts: Seq<TokV>, r: Option<Result<Seq<TokV>, ErrV>>) -> Option<Result<Seq<TokV>, ErrV>> {
    match r {
        Some(Ok(rest)) => Some(Ok(ts + rest)),
        other => other,
    }
}

/// Outcome of lexing the whole input.
pub open spec fn spec_lex(b: Seq<u8>) -> Option<Result<Seq<TokV>, ErrV>> {
    lex_from(b, 0)
}

proof fn lemma_digits_end(b: Seq<u8>, i: int)
    requires
        0 <= i <= b.len(),
    ensures
        i <= digits_end(b, i) <= b.len(),
        forall|k: int| i <= k < digits_end(b, i) ==> is_digit(b[k]),
    decreases b.len() - i,
{
    if i < b.len() && is_digit(b[i]) {
        lemma_digits_end(b, i + 1);
    }
}

proof fn lemma_ident_end(b: Seq<u8>, i: int)
    requires
        0 <= i <= b.len(),
    ensures
        i <= ident_end(b, i) <= b.len(),
    decreases b.len() - i,
{
    if i < b.len() && is_ident_continue(b[i]) {
        lemma_ident_end(b, i + 1);
    }
}

fn scan_digits(b: &[u8], i: usize) -> (r: usize)
    requires
        i <= b@.len(),
    ensures
        r == digits_end(b@, i as int),
        i <= r <= b@.len(),
{
    proof {
        lemma_digits_end(b@, i as int);
    }
    let mut j = i;
    while j < b.len() && 48 <= b[j] && b[j] <= 57
        invariant
            i <= j <= b@.len(),
            digits_end(b@, j as int) == digits_end(b@, i as int),
        decreases b@.len() - j,
    {
        j = j + 1;
    }
    j
}

fn scan_ident(b: &[u8], i: usize) -> (r: usize)
    requires
        i <= b@.len(),
    ensures
        r == ident_end(b@, i as int),
        i <= r <= b@.len(),
{
    proof {
        lemma_ident_end(b@, i as int);
    }
    let mut j = i;
    while j < b.len() && ((65 <= b[j] && b[j] <= 90) || (97 <= b[j] && b[j] <= 122) || (48 <= b[j] && b[j] <= 57) || b[j] == 95)
        invariant
            i <= j <= b@.len(),
            ident_end(b@, j as int) == ident_end(b@, i as int),
        decreases b@.len() - j,
    {
        j = j + 1;
    }
    j
}

fn scan_number(b: &[u8], i: usize) -> (r: Result<usize, usize>)
    requires
        i < b@.len(),
        number_starts(b@, i as int),
    ensures
        r matches Ok(e) ==> number_end(b@, i as int) == Ok::<int, int>(e as int) && i < e <= b@.len(),
        r matches Err(p) ==> number_end(b@, i as int) == Err::<int, int>(p as int),
{
    let n = b.len();
    proof {
        lemma_digits_end(b@, i as int);
        lemma_digits_end(b@, i + 1);
    }
    let mut j: usize;
    if b[i] == 46 {
        j = scan_digits(b, i + 1);
        proof {
            lemma_digits_end(b@, i + 1);
        }
    } else {
        j = scan_digits(b, i);
        if j < n && b[j] == 46 && j + 1 < n && 48 <= b[j + 1] && b[j + 1] <= 57 {
            j = scan_digits(b, j + 1);
        }
    }
    assert(j == mantissa_end(b@, i as int));
    if j < n && (b[j] == 101 || b[j] == 69) {
        let e_pos = j;
        let k = if j + 1 < n && (b[j + 1] == 43 || b[j + 1] == 45) { j + 2 } else { j + 1 };
        let m = scan_digits(b, k);
        if m == k {
            return Err(e_pos);
        }
        return Ok(m);
    }
    Ok(j)
}

fn chars_of(b: &[u8], s: usize, e: usize) -> (r: String)
    requires
        s <= e <= b@.len(),
    ensures
        r@ == bytes_as_chars(b@, s as int, e as int),
{
    let mut out = String::new();
    let mut k = s;
    while k < e
        invariant
            s <= k <= e <= b@.len(),
            out@ == bytes_as_chars(b@, s as int, k as int),
        decreases e - k,
    {
        push_char(&mut out, b[k] as char);
        assert(out@ =~= bytes_as_chars(b@, s as int, k + 1));
        k = k + 1;
    }
    out
}

fn two_char_kind(x: u8, y: u8) -> (r: Option<TokenKind>)
    ensures
        r is Some <==> two_char_op(x, y) is Some,
        r matches Some(k) ==> kind_view(k) == two_char_op(x, y).unwrap(),
{
    if x == 38 && y == 38 { Some(TokenKind::AndAnd) }
    else if x == 124 && y == 124 { Some(TokenKind::OrOr) }
    else if x == 61 && y == 61 { Some(TokenKind::EqEq) }
    else if x == 33 && y == 61 { Some(TokenKind::Ne) }
    else if x == 60 && y == 61 { Some(TokenKind::Le) }
    else if x == 62 && y == 61 { Some(TokenKind::Ge) }
    else { None }
}

fn one_char_kind(x: u8) -> (r: Option<TokenKind>)
    ensures
        r is Some <==> one_char_op(x) is Some,
        r matches Some(k) ==> kind_view(k) == one_char_op(x).unwrap(),
{
    if x == 40 { Some(TokenKind::LParen) }
    else if x == 41 { Some(TokenKind::RParen) }
    else if x == 44 { Some(TokenKind::Comma) }
    else if x == 46 { Some(TokenKind::Dot) }
    else if x == 43 { Some(TokenKind::Plus) }
    else if x == 45 { Some(TokenKind::Minus) }
    else if x == 42 { Some(TokenKind::Star) }
    else if x == 47 { Some(TokenKind::Slash) }
    else if x == 37 { Some(TokenKind::Percent) }
    else if x == 33 { Some(TokenKind::Bang) }
    else if x == 60 { Some(TokenKind::Lt) }
    else if x == 62 { Some(TokenKind::Gt) }
    else if x == 63 { Some(TokenKind::Question) }
    else if x == 58 { Some(TokenKind::Colon) }
    else { None }
}

fn keyword_or_ident(text: String) -> (r: TokenKind)
    ensures
        kind_view(r) == ident_kind(text@),
{
    let t = String::from_str("true");
    let f = String::from_str("false");
    if text == t {
        TokenKind::True
    } else if text == f {
        TokenKind::False
    } else {
        TokenKind::Ident(text)
    }
}

fn unexpected_error(offset: usize, x: u8) -> (e: ExprError)
    ensures
        err_view(e) == (ErrV { offset: offset as int, message: unexpected_msg(x) }),
{
    let mut m = String::from_str("unexpected character '");
    push_char(&mut m, x as char);
    push_str(&mut m, "'");
    assert(m@ =~= unexpected_msg(x));
    ExprError { offset, message: m }
}

/// One scanning step from a byte that is not the end of input.
enum Step {
    /// Skip white space.
    Skip(usize),
    /// Emit a token and continue after it.
    Emit(Token, usize),
    /// Stop with an error.
    Fail(ExprError),
    /// The scan would cut a multi-byte character in two.
    Cut,
}

#[verifier::rlimit(40)]
fn lex_step(bytes: &[u8], i: usize) -> (r: Step)
    requires
        i < bytes@.len(),
    ensures
        r is Cut ==> lex_from(bytes@, i as int) is None,
        r matches Step::Skip(j) ==> i < j <= bytes@.len() && lex_from(bytes@, i as int) == lex_from(bytes@, j as int),
        r matches Step::Emit(t, j) ==> i < j <= bytes@.len() && lex_from(bytes@, i as int) == cons_tok(tok_view(t), lex_from(bytes@, j as int)),
        r matches Step::Fail(e) ==> lex_from(bytes@, i as int) == Some(Err::<Seq<TokV>, ErrV>(err_view(e))),
{
    let ghost b = bytes@;
    let n = bytes.len();
    let c = bytes[i];
    if (9 <= c && c <= 13) || c == 32 || c == 0x85 || c == 0xA0 {
        return Step::Skip(i + 1);
    }
    let start = i;
    if (48 <= c && c <= 57) || (c == 46 && i + 1 < n && 48 <= bytes[i + 1] && bytes[i + 1] <= 57) {
        match scan_number(bytes, i) {
            Err(p) => {
                return Step::Fail(ExprError::new(p, "invalid number exponent (expected digits)"));
            },
            Ok(e) => {
                let text = chars_of(bytes, start, e);
                return Step::Emit(Token { kind: TokenKind::Number(text), span: Span { start, end: e } }, e);
            },
        }
    }
    if (65 <= c && c <= 90) || (97 <= c && c <= 122) || c == 95 {
        let e = scan_ident(bytes, i + 1);
        let text = chars_of(bytes, start, e);
        let kind = keyword_or_ident(text);
        return Step::Emit(Token { kind, span: Span { start, end: e } }, e);
    }
    if i + 1 < n {
        if i + 2 < n && 0x80 <= bytes[i + 2] && bytes[i + 2] < 0xC0 {
            return Step::Cut;
        }
        match two_char_kind(c, bytes[i + 1]) {
            Some(kind) => {
                return Step::Emit(Token { kind, span: Span { start, end: i + 2 } }, i + 2);
            },
            None => {},
        }
    }
    match one_char_kind(c) {
        Some(kind) => Step::Emit(Token { kind, span: Span { start, end: i + 1 } }, i + 1),
        None => Step::Fail(unexpected_error(start, c)),
    }
}

/// Tokenize `input`, ending with an `Eof` token at `input.len()`.
///
/// Inputs on which the scan would cut a multi-byte character in two are excluded by the
/// precondition.
pub fn lex(input: &str) -> (r: Result<Vec<Token>, ExprError>)
    requires
        spec_lex(input.spec_bytes()) is Some,
    ensures
        r matches Ok(ts) ==> spec_lex(input.spec_bytes()) == Some(Ok::<Seq<TokV>, ErrV>(toks_view(ts@))),
        r matches Err(e) ==> spec_lex(input.spec_bytes()) == Some(Err::<Seq<TokV>, ErrV>(err_view(e))),
{
    let bytes = input.as_bytes();
    let ghost b = bytes@;
    let n = bytes.len();
    let mut out: Vec<Token> = Vec::new();
    let mut i: usize = 0;
    while i < n
        invariant
            n == b.len(),
            b == bytes@,
            b == input.spec_bytes(),
            i <= n,
            spec_lex(b) is Some,
            spec_lex(b) == prepend_all(toks_view(out@), lex_from(b, i as int)),
        decreases n - i,
    {
        let ghost before = toks_view(out@);
        proof {
            if lex_from(b, i as int) is None {
                assert(spec_lex(b) is None);
            }
        }
        match lex_step(bytes, i) {
            Step::Skip(j) => {
                i = j;
            },
            Step::Emit(tok, j) => {
                out.push(tok);
                proof {
                    assert(toks_view(out@) =~= before + seq![tok_view(tok)]);
                    lemma_prepend_cons(before, tok_view(tok), lex_from(b, j as int));
                }
                i = j;
            },
            Step::Fail(e) => {
                return Err(e);
            },
            Step::Cut => {
                proof {
                    assert(spec_lex(b) is None);
                }
                return Err(ExprError::new(i, "input cut inside a character"));
            },
        }
    }
    let eof = Token { kind: TokenKind::Eof, span: Span { start: n, end: n } };
    let ghost before = toks_view(out@);
    out.push(eof);
    assert(toks_view(out@) =~= before + seq![tok_view(eof)]);
    Ok(out)
}

proof fn lemma_prepend_cons(before: Seq<TokV>, t: TokV, rest: Option<Result<Seq<TokV>, ErrV>>)
    ensures
        prepend_all(before, cons_tok(t, rest)) == prepend_all(before + seq![t], rest),
{
    match rest {
        Some(Ok(ts)) => {
            assert(before + (seq![t] + ts) =~= (before + seq![t]) + ts);
        },
        _ => {},
    }
}

/// Whether [`lex`] is defined on `input`: its scan never cuts a multi-byte character in two
/// before it ends or meets an error.
pub fn lex_defined(input: &str) -> (r: bool)
    ensures
        r == (spec_lex(input.spec_bytes()) is Some),
{
    let bytes = input.as_bytes();
    let ghost b = bytes@;
    let n = bytes.len();
    let mut i: usize = 0;
    while i < n
        invariant
            n == b.len(),
            b == bytes@,
            b == input.spec_bytes(),
            i <= n,
            (spec_lex(b) is Some) == (lex_from(b, i as int) is Some),
        decreases n - i,
    {
        match lex_step(bytes, i) {
            Step::Skip(j) => {
                i = j;
            },
            Step::Emit(tok, j) => {
                i = j;
            },
            Step::Fail(e) => {
                return true;
            },
            Step::Cut => {
                return false;
            },
        }
    }
    true
}

} // verus!
