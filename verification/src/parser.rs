//! Parsing: recursive descent over the tokens, with precedence climbing for
//! binary operators.  At the top level an error is recorded and parsing
//! resumes at the next token that can start or end a declaration.
//!
//! The model below (`p_*`) says, for each construct, how many tokens are
//! consumed from a position and what is produced.  Every token is consumed
//! by moving one position forward; the executable parser, which never moves
//! past an end-of-file token, does the same on token lists that hold one.
use vstd::prelude::*;
use crate::ast::{
    exprs_view, stmts_view, params_view, uses_view, channels_view, handlers_view, fns_view, lemma_span_view, Span, Expr, Literal, Stmt, Block, IfStmt, ElseBranch, LetStmt, AssignStmt, WhileStmt, ForStmt,
    ReturnStmt, EffectStmt, SendStmt, ExprStmt, TypeExpr, Param, FnDecl, UseDecl, ChannelDecl,
    ErrorPolicy, EventPolicy, AiPolicy, EventPattern, MessageTarget, HandlerDecl, AgentDecl, Program, SpecExpr, SpecLiteral, SpecStmt, SpecBlock, SpecIfStmt, SpecElseBranch, SpecLetStmt,
    SpecAssignStmt, SpecWhileStmt, SpecForStmt, SpecReturnStmt, SpecEffectStmt, SpecSendStmt,
    SpecExprStmt, SpecTypeExpr, SpecParam, SpecFnDecl, SpecUseDecl, SpecChannelDecl, SpecErrorPolicy,
    SpecEventPolicy, SpecAiPolicy, SpecEventPattern, SpecMessageTarget, SpecHandlerDecl, SpecAgentDecl,
    SpecProgram, BinOp, UnaryOp, EventPriorityLevel, FStringSegment, SpecFStringSegment, segs_view, seg_view,
    opt_str_view,
};
use crate::token::{Token, SpecToken, SpannedToken, SpecSpannedToken, token_text, debug_str, debug_quoted, token_debug, same_token, tokens_view};
use crate::text::{int_decimal, string_of, push_str, push_usize, push_char, chars_of, string_from_chars};
use crate::lexer::{
    tokens_weight, token_weight, bytes_len, lexed, lemma_lexed, lemma_lexed_weight, find_char, lemma_find_char, find_char_at,
    bytes_between, lex,
};

verus! {

// ─── ERRORS ──────────────────────────────────────────────────────

/// Errors of parsing.
#[derive(Debug, Clone)]
pub enum ParseError {
    UnexpectedToken { expected: String, found: String, line: usize, column: usize },
    ExpectedIdentifier { context: String, line: usize, column: usize },
    InvalidAssignmentTarget { line: usize, column: usize },
    InvalidChannelType { line: usize, column: usize },
}

pub enum SpecParseError {
    UnexpectedToken { expected: Seq<char>, found: Seq<char>, line: usize, column: usize },
    ExpectedIdentifier { context: Seq<char>, line: usize, column: usize },
    InvalidAssignmentTarget { line: usize, column: usize },
    InvalidChannelType { line: usize, column: usize },
}

impl View for ParseError {
    type V = SpecParseError;

    open spec fn view(&self) -> SpecParseError {
        match self {
            ParseError::UnexpectedToken { expected, found, line, column } => SpecParseError::UnexpectedToken {
                expected: expected@,
                found: found@,
                line: *line,
                column: *column,
            },
            ParseError::ExpectedIdentifier { context, line, column } => SpecParseError::ExpectedIdentifier {
                context: context@,
                line: *line,
                column: *column,
            },
            ParseError::InvalidAssignmentTarget { line, column } => SpecParseError::InvalidAssignmentTarget {
                line: *line,
                column: *column,
            },
            ParseError::InvalidChannelType { line, column } => SpecParseError::InvalidChannelType {
                line: *line,
                column: *column,
            },
        }
    }
}

/// The text of a parse error, as it is reported to the user.
pub open spec fn parse_error_text(e: SpecParseError) -> Seq<char> {
    match e {
        SpecParseError::UnexpectedToken { expected, found, line, column } => "Unexpected token: expected "@
            + debug_str(expected) + ", found "@ + debug_str(found) + " at line "@ + int_decimal(line as int)
            + ", column "@ + int_decimal(column as int),
        SpecParseError::ExpectedIdentifier { context, line, column } => "Expected identifier in "@ + context
            + " at line "@ + int_decimal(line as int) + ", column "@ + int_decimal(column as int),
        SpecParseError::InvalidAssignmentTarget { line, column } => "Invalid assignment target"@ + " on row "@
            + int_decimal(line as int) + ", column "@ + int_decimal(column as int),
        SpecParseError::InvalidChannelType { line, column } => "Invalid channel type"@ + " on row "@ + int_decimal(
            line as int,
        ) + ", column "@ + int_decimal(column as int),
    }
}

fn push_location(s: &mut String, sep: &str, line: usize, column: usize)
    ensures
        final(s)@ == old(s)@ + sep@ + int_decimal(line as int) + ", column "@ + int_decimal(column as int),
{
    push_str(s, sep);
    push_usize(s, line);
    push_str(s, ", column ");
    push_usize(s, column);
    assert(final(s)@ =~= old(s)@ + sep@ + int_decimal(line as int) + ", column "@ + int_decimal(column as int));
}

impl ParseError {
    /// The report of this error.
    pub fn message(&self) -> (r: String)
        ensures
            r@ == parse_error_text(self@),
    {
        match self {
            ParseError::UnexpectedToken { expected, found, line, column } => {
                let mut s = string_of("Unexpected token: expected ");
                let e = debug_quoted(expected.as_str());
                push_str(&mut s, e.as_str());
                push_str(&mut s, ", found ");
                let f = debug_quoted(found.as_str());
                push_str(&mut s, f.as_str());
                push_location(&mut s, " at line ", *line, *column);
                assert(s@ =~= parse_error_text(self@));
                s
            },
            ParseError::ExpectedIdentifier { context, line, column } => {
                let mut s = string_of("Expected identifier in ");
                push_str(&mut s, context.as_str());
                push_location(&mut s, " at line ", *line, *column);
                assert(s@ =~= parse_error_text(self@));
                s
            },
            ParseError::InvalidAssignmentTarget { line, column } => {
                let mut s = string_of("Invalid assignment target");
                push_location(&mut s, " on row ", *line, *column);
                assert(s@ =~= parse_error_text(self@));
                s
            },
            ParseError::InvalidChannelType { line, column } => {
                let mut s = string_of("Invalid channel type");
                push_location(&mut s, " on row ", *line, *column);
                assert(s@ =~= parse_error_text(self@));
                s
            },
        }
    }
}

// ─── TOKENS AT A POSITION ────────────────────────────────────────

/// What a construct does from a position: how many tokens it consumes, and
/// what it gives.
pub type Parsed<T> = (nat, Result<T, SpecParseError>);

/// Number of tokens from position `c` on (one more than all of them
/// before the start): it never grows as `c` moves forward.
pub open spec fn remaining(ts: Seq<SpecSpannedToken>, c: int) -> nat {
    if c < 0 {
        ts.len() + 1
    } else if c < ts.len() {
        (ts.len() - c) as nat
    } else {
        0
    }
}

/// The termination measure of expression parsing: the tokens left, plus
/// the weight of the f-strings, whose text is parsed as tokens of its own.
pub open spec fn measure(ts: Seq<SpecSpannedToken>, c: int) -> nat {
    remaining(ts, c) + tokens_weight(ts)
}

/// The token at `c`; past the end, end-of-file.
pub open spec fn peek(ts: Seq<SpecSpannedToken>, c: int) -> SpecToken {
    if 0 <= c < ts.len() {
        ts[c].token
    } else {
        SpecToken::Eof
    }
}

/// Line and column of the token at `c`; past the end, `(0, 0)`.
pub open spec fn loc(ts: Seq<SpecSpannedToken>, c: int) -> (usize, usize) {
    if 0 <= c < ts.len() {
        (ts[c].line, ts[c].column)
    } else {
        (0, 0)
    }
}

/// Span of the token at `c`; past the end, the empty span at 0.
pub open spec fn span_at(ts: Seq<SpecSpannedToken>, c: int) -> Span {
    if 0 <= c < ts.len() {
        ts[c].span
    } else {
        Span { start: 0, end: 0 }
    }
}

/// "Expected `expected`, found the token at `c`".
pub open spec fn unexpected(ts: Seq<SpecSpannedToken>, c: int, expected: Seq<char>) -> SpecParseError {
    SpecParseError::UnexpectedToken {
        expected,
        found: token_text(peek(ts, c)),
        line: loc(ts, c).0,
        column: loc(ts, c).1,
    }
}

/// Consumes the token `t`.
pub open spec fn expect_tok(ts: Seq<SpecSpannedToken>, c: int, t: SpecToken) -> Parsed<()> {
    if peek(ts, c) == t {
        (1, Ok(()))
    } else {
        (0, Err(unexpected(ts, c, token_text(t))))
    }
}

/// Number of newline tokens from `c` on.
pub open spec fn newlines(ts: Seq<SpecSpannedToken>, c: int) -> nat
    decreases remaining(ts, c),
{
    if peek(ts, c) is Newline {
        1 + newlines(ts, c + 1)
    } else {
        0
    }
}

/// Tokens at which parsing resumes after an error at the top level.
pub open spec fn resumes_at(t: SpecToken) -> bool {
    ||| t is Agent
    ||| t is Fn
    ||| t is On
    ||| t is Let
    ||| t is OnError
    ||| t is EventPolicy
    ||| t is Channel
    ||| t is RBrace
    ||| t is Eof
}

/// Number of tokens skipped after an error: up to the next token at which
/// parsing resumes.
pub open spec fn skipped(ts: Seq<SpecSpannedToken>, c: int) -> nat
    decreases remaining(ts, c),
{
    if resumes_at(peek(ts, c)) {
        0
    } else {
        1 + skipped(ts, c + 1)
    }
}

/// An identifier; `context` says where one was expected.
pub open spec fn p_ident(ts: Seq<SpecSpannedToken>, c: int, context: Seq<char>) -> Parsed<Seq<char>> {
    match peek(ts, c) {
        SpecToken::Identifier(n) => (1, Ok(n)),
        _ => (0, Err(SpecParseError::ExpectedIdentifier { context, line: loc(ts, c).0, column: loc(ts, c).1 })),
    }
}

/// A string literal.
pub open spec fn p_string(ts: Seq<SpecSpannedToken>, c: int) -> Parsed<Seq<char>> {
    match peek(ts, c) {
        SpecToken::StringLit(s) => (1, Ok(s)),
        _ => (0, Err(unexpected(ts, c, "string"@))),
    }
}

/// An integer literal.
pub open spec fn p_integer(ts: Seq<SpecSpannedToken>, c: int) -> Parsed<i64> {
    match peek(ts, c) {
        SpecToken::Integer(n) => (1, Ok(n)),
        _ => (0, Err(unexpected(ts, c, "inteiro"@))),
    }
}

/// `true` or `false`.
pub open spec fn p_bool(ts: Seq<SpecSpannedToken>, c: int) -> Parsed<bool> {
    match peek(ts, c) {
        SpecToken::True => (1, Ok(true)),
        SpecToken::False => (1, Ok(false)),
        _ => (0, Err(unexpected(ts, c, "true ou false"@))),
    }
}

/// The type named `name`.
pub open spec fn named_type(name: Seq<char>) -> SpecTypeExpr {
    if name == "Int"@ {
        SpecTypeExpr::Int
    } else if name == "Float"@ {
        SpecTypeExpr::Float
    } else if name == "String"@ {
        SpecTypeExpr::String
    } else if name == "Bool"@ {
        SpecTypeExpr::Bool
    } else if name == "Null"@ {
        SpecTypeExpr::Null
    } else {
        SpecTypeExpr::Named(name)
    }
}

/// A type: a name, optional when the next token is the identifier `?`
/// (which is then left in place).
pub open spec fn p_type(ts: Seq<SpecSpannedToken>, c: int) -> Parsed<SpecTypeExpr> {
    match peek(ts, c) {
        SpecToken::Identifier(name) => if peek(ts, c + 1) == SpecToken::Identifier("?"@) {
            (1, Ok(SpecTypeExpr::Optional(Box::new(named_type(name)))))
        } else {
            (1, Ok(named_type(name)))
        },
        _ => (0, Err(unexpected(ts, c, "tipo"@))),
    }
}

// ─── EXPRESSIONS ─────────────────────────────────────────────────

pub open spec fn bin(op: BinOp, l: SpecExpr, r: SpecExpr, span: Span) -> SpecExpr {
    SpecExpr::BinOp { op, left: Box::new(l), right: Box::new(r), span }
}

/// The binary operator that token `t` stands for at precedence level `k`:
/// 5 `or`, 4 `and`, 3 `== !=`, 2 `< > <= >=`, 1 `+ -`, 0 `* / %`.
pub open spec fn level_op(k: nat, t: SpecToken) -> Option<BinOp> {
    if k >= 5 {
        if t is Or { Some(BinOp::Or) } else { None }
    } else if k == 4 {
        if t is And { Some(BinOp::And) } else { None }
    } else if k == 3 {
        if t is EqEq { Some(BinOp::Eq) } else if t is NotEq { Some(BinOp::NotEq) } else { None }
    } else if k == 2 {
        if t is Lt {
            Some(BinOp::Lt)
        } else if t is Gt {
            Some(BinOp::Gt)
        } else if t is LtEq {
            Some(BinOp::LtEq)
        } else if t is GtEq {
            Some(BinOp::GtEq)
        } else {
            None
        }
    } else if k == 1 {
        if t is Plus { Some(BinOp::Add) } else if t is Minus { Some(BinOp::Sub) } else { None }
    } else {
        if t is Star {
            Some(BinOp::Mul)
        } else if t is Slash {
            Some(BinOp::Div)
        } else if t is Percent {
            Some(BinOp::Rem)
        } else {
            None
        }
    }
}

/// An expression.
pub open spec fn p_expr(ts: Seq<SpecSpannedToken>, c: int) -> Parsed<SpecExpr>
    decreases measure(ts, c), 22nat,
{
    p_level(ts, c, 5)
}

/// An operand of level `k`: level `k - 1`, or a unary expression at level 0.
pub open spec fn p_operand(ts: Seq<SpecSpannedToken>, c: int, k: nat) -> Parsed<SpecExpr>
    decreases measure(ts, c), 3 * k + 5,
{
    if k == 0 {
        p_unary(ts, c)
    } else {
        p_level(ts, c, (k - 1) as nat)
    }
}

/// Level `k`: operands joined, to the left, by the operators of the level.
pub open spec fn p_level(ts: Seq<SpecSpannedToken>, c: int, k: nat) -> Parsed<SpecExpr>
    decreases measure(ts, c), 3 * k + 6,
{
    let (n, r) = p_operand(ts, c, k);
    match r {
        Err(e) => (n, Err(e)),
        Ok(l) => {
            let (m, r2) = p_level_tail(ts, c + n, k, l);
            (n + m, r2)
        },
    }
}

/// The rest of level `k` after the operand `l`.
pub open spec fn p_level_tail(ts: Seq<SpecSpannedToken>, c: int, k: nat, l: SpecExpr) -> Parsed<SpecExpr>
    decreases measure(ts, c), 3 * k + 5,
{
    match level_op(k, peek(ts, c)) {
        None => (0, Ok(l)),
        Some(op) => {
            let (n, r) = p_operand(ts, c + 1, k);
            match r {
                Err(e) => (1 + n, Err(e)),
                Ok(rt) => {
                    let (m, r2) = p_level_tail(ts, c + 1 + n, k, bin(op, l, rt, span_at(ts, c)));
                    (1 + n + m, r2)
                },
            }
        },
    }
}

/// `not`/`-` prefixes, then a call chain.
pub open spec fn p_unary(ts: Seq<SpecSpannedToken>, c: int) -> Parsed<SpecExpr>
    decreases measure(ts, c), 4nat,
{
    let op = if peek(ts, c) is Not {
        Some(UnaryOp::Not)
    } else if peek(ts, c) is Minus {
        Some(UnaryOp::Neg)
    } else {
        None
    };
    match op {
        Some(o) => {
            let (n, r) = p_unary(ts, c + 1);
            match r {
                Err(e) => (1 + n, Err(e)),
                Ok(x) => (1 + n, Ok(SpecExpr::UnaryOp { op: o, operand: Box::new(x), span: span_at(ts, c) })),
            }
        },
        None => p_call(ts, c),
    }
}

/// A primary expression followed by calls, field accesses and indexing.
pub open spec fn p_call(ts: Seq<SpecSpannedToken>, c: int) -> Parsed<SpecExpr>
    decreases measure(ts, c), 3nat,
{
    let (n, r) = p_primary(ts, c);
    match r {
        Err(e) => (n, Err(e)),
        Ok(x) => {
            let (m, r2) = p_call_tail(ts, c + n, x);
            (n + m, r2)
        },
    }
}

/// Calls, field accesses and indexing applied to `x`, from `c` on.
pub open spec fn p_call_tail(ts: Seq<SpecSpannedToken>, c: int, x: SpecExpr) -> Parsed<SpecExpr>
    decreases measure(ts, c), 2nat,
{
    let (n, r) = p_suffix(ts, c, x);
    match r {
        Err(e) => (n, Err(e)),
        Ok(None) => (0, Ok(x)),
        Ok(Some(y)) => if n == 0 || peek(ts, c) is Eof {
            (0, Ok(y))
        } else {
            let (m, r2) = p_call_tail(ts, c + n, y);
            (n + m, r2)
        },
    }
}

/// One call `(args)`, field access `.name` or indexing `[expr]` applied to
/// `x` at `c`; `None` when none starts there.
pub open spec fn p_suffix(ts: Seq<SpecSpannedToken>, c: int, x: SpecExpr) -> Parsed<Option<SpecExpr>>
    decreases measure(ts, c), 1nat,
{
    match peek(ts, c) {
        SpecToken::LParen => p_call_args(ts, c, x),
        SpecToken::Dot => p_field(ts, c, x),
        SpecToken::LBracket => p_index(ts, c, x),
        _ => (0, Ok(None)),
    }
}

/// `(args)` applied to `x`, from the `(` at `c`.
pub open spec fn p_call_args(ts: Seq<SpecSpannedToken>, c: int, x: SpecExpr) -> Parsed<Option<SpecExpr>>
    decreases measure(ts, c), 0nat,
{
    if peek(ts, c) is Eof {
        (0, Ok(None))
    } else {
        let (n, r) = p_list(ts, c + 1, SpecToken::RParen);
        let (k, rc) = expect_tok(ts, c + 1 + n, SpecToken::RParen);
        if r is Err {
            (1 + n, Err(r->Err_0))
        } else if rc is Err {
            (1 + n + k, Err(rc->Err_0))
        } else {
            (1 + n + k, Ok(Some(SpecExpr::Call { callee: Box::new(x), args: r->Ok_0, span: span_at(ts, c) })))
        }
    }
}

/// `.name` applied to `x`, from the `.` at `c`.
pub open spec fn p_field(ts: Seq<SpecSpannedToken>, c: int, x: SpecExpr) -> Parsed<Option<SpecExpr>> {
    let (n, r) = p_ident(ts, c + 1, "acesso a campo"@);
    if r is Err {
        (1 + n, Err(r->Err_0))
    } else {
        (1 + n, Ok(Some(SpecExpr::FieldAccess { object: Box::new(x), field: r->Ok_0, span: span_at(ts, c) })))
    }
}

/// `[index]` applied to `x`, from the `[` at `c`.
pub open spec fn p_index(ts: Seq<SpecSpannedToken>, c: int, x: SpecExpr) -> Parsed<Option<SpecExpr>>
    decreases measure(ts, c), 0nat,
{
    if peek(ts, c) is Eof {
        (0, Ok(None))
    } else {
        let (n, r) = p_expr(ts, c + 1);
        let (k, rc) = expect_tok(ts, c + 1 + n, SpecToken::RBracket);
        if r is Err {
            (1 + n, Err(r->Err_0))
        } else if rc is Err {
            (1 + n + k, Err(rc->Err_0))
        } else {
            (
                1 + n + k,
                Ok(Some(SpecExpr::Index { object: Box::new(x), index: Box::new(r->Ok_0), span: span_at(ts, c) })),
            )
        }
    }
}

/// Comma-separated expressions up to (not including) `close`; none when
/// `close` comes first.
pub open spec fn p_list(ts: Seq<SpecSpannedToken>, c: int, close: SpecToken) -> Parsed<Seq<SpecExpr>>
    decreases measure(ts, c), 23nat,
{
    if peek(ts, c) == close {
        (0, Ok(Seq::empty()))
    } else {
        let (n, r) = p_expr(ts, c);
        match r {
            Err(e) => (n, Err(e)),
            Ok(x) => {
                let (m, r2) = p_list_tail(ts, c + n, seq![x]);
                (n + m, r2)
            },
        }
    }
}

/// `, expr` repeated, appending to `acc`.
pub open spec fn p_list_tail(ts: Seq<SpecSpannedToken>, c: int, acc: Seq<SpecExpr>) -> Parsed<Seq<SpecExpr>>
    decreases measure(ts, c), 22nat,
{
    if peek(ts, c) is Comma {
        let (n, r) = p_expr(ts, c + 1);
        match r {
            Err(e) => (1 + n, Err(e)),
            Ok(x) => {
                let (m, r2) = p_list_tail(ts, c + 1 + n, acc.push(x));
                (1 + n + m, r2)
            },
        }
    } else {
        (0, Ok(acc))
    }
}

/// The literal that the token `t` is, if it is one.
pub open spec fn token_literal(t: SpecToken) -> Option<SpecLiteral> {
    match t {
        SpecToken::Integer(n) => Some(SpecLiteral::Int(n)),
        SpecToken::Float(x) => Some(SpecLiteral::Float(x)),
        SpecToken::Scientific(x) => Some(SpecLiteral::Scientific(x)),
        SpecToken::StringLit(s) => Some(SpecLiteral::String(s)),
        SpecToken::True => Some(SpecLiteral::Bool(true)),
        SpecToken::False => Some(SpecLiteral::Bool(false)),
        SpecToken::Null => Some(SpecLiteral::Null),
        _ => None,
    }
}

/// A literal, an identifier, a parenthesized expression, a list or an
/// f-string.
pub open spec fn p_primary(ts: Seq<SpecSpannedToken>, c: int) -> Parsed<SpecExpr>
    decreases measure(ts, c), 0nat,
{
    let span = span_at(ts, c);
    match token_literal(peek(ts, c)) {
        Some(l) => (1, Ok(SpecExpr::Literal(l, span))),
        None => match peek(ts, c) {
            SpecToken::Identifier(name) => (1, Ok(SpecExpr::Identifier(name, span))),
            SpecToken::LParen => {
                let (n, r) = p_expr(ts, c + 1);
                let (k, rc) = expect_tok(ts, c + 1 + n, SpecToken::RParen);
                if r is Err {
                    (1 + n, Err(r->Err_0))
                } else if rc is Err {
                    (1 + n + k, Err(rc->Err_0))
                } else {
                    (1 + n + k, Ok(r->Ok_0))
                }
            },
            SpecToken::LBracket => {
                let (n, r) = p_list(ts, c + 1, SpecToken::RBracket);
                let (k, rc) = expect_tok(ts, c + 1 + n, SpecToken::RBracket);
                if r is Err {
                    (1 + n, Err(r->Err_0))
                } else if rc is Err {
                    (1 + n + k, Err(rc->Err_0))
                } else {
                    (1 + n + k, Ok(SpecExpr::List(r->Ok_0, span)))
                }
            },
            SpecToken::FString(_) => match p_fsegs(ts, c, 0) {
                Ok(segs) => (1, Ok(SpecExpr::FString(segs, span))),
                Err(e) => (0, Err(e)),
            },
            _ => (0, Err(unexpected(ts, c, "expressão"@))),
        },
    }
}

// ─── F-STRINGS ───────────────────────────────────────────────────

/// A piece of an f-string's text: literal text, or the expression between
/// character positions `start` and `end`, with its format spec.
pub enum FPiece {
    Text(Seq<char>),
    Hole(int, int, Option<Seq<char>>),
}

/// The literal piece that the text `lit` makes: none when it is empty.
pub open spec fn text_piece(lit: Seq<char>) -> Seq<FPiece> {
    if lit.len() == 0 {
        Seq::empty()
    } else {
        seq![FPiece::Text(lit)]
    }
}

/// The first `c` in `s[i..j]`.
pub open spec fn find_before(s: Seq<char>, c: char, i: int, j: int) -> Option<int>
    decreases j - i,
{
    if i < 0 || i >= j || i >= s.len() {
        None
    } else if s[i] == c {
        Some(i)
    } else {
        find_before(s, c, i + 1, j)
    }
}

/// The pieces of an f-string's text from position `i`, `lit` being the
/// literal text gathered since the last expression: `{{` and `}}` stand
/// for braces, `{expr}` and `{expr:spec}` for a value (the spec starts at
/// the first `:`); `None` when a `{` is never closed.
pub open spec fn fstring_pieces(raw: Seq<char>, i: int, lit: Seq<char>) -> Option<Seq<FPiece>>
    decreases raw.len() - i,
{
    if i < 0 || i >= raw.len() {
        Some(text_piece(lit))
    } else if (raw[i] == '{' || raw[i] == '}') && i + 1 < raw.len() && raw[i + 1] == raw[i] {
        fstring_pieces(raw, i + 2, lit.push(raw[i]))
    } else if raw[i] == '{' {
        match find_char(raw, '}', i + 1) {
            None => None,
            Some(j) => {
                proof {
                    lemma_find_char(raw, '}', i + 1);
                }
                let hole = match find_before(raw, ':', i + 1, j) {
                    Some(k) => FPiece::Hole(i + 1, k, Some(raw.subrange(k + 1, j))),
                    None => FPiece::Hole(i + 1, j, None),
                };
                match fstring_pieces(raw, j + 1, Seq::empty()) {
                    None => None,
                    Some(rest) => Some(text_piece(lit) + seq![hole] + rest),
                }
            },
        }
    } else {
        fstring_pieces(raw, i + 1, lit.push(raw[i]))
    }
}

pub proof fn lemma_find_before(s: Seq<char>, c: char, i: int, j: int)
    ensures
        find_before(s, c, i, j) matches Some(k) ==> 0 <= i <= k < j && k < s.len() && s[k] == c,
    decreases j - i,
{
    if !(i < 0 || i >= j || i >= s.len()) && s[i] != c {
        lemma_find_before(s, c, i + 1, j);
    }
}

/// Every expression of an f-string lies strictly inside its text, after
/// its opening brace and before its closing one.
pub proof fn lemma_fstring_holes(raw: Seq<char>, i: int, lit: Seq<char>)
    requires
        0 <= i,
    ensures
        fstring_pieces(raw, i, lit) matches Some(ps) ==> forall|k: int|
            0 <= k < ps.len() ==> (#[trigger] ps[k] matches FPiece::Hole(s, e, _) ==> 1 <= s <= e < raw.len()),
    decreases raw.len() - i,
{
    if !(i < 0 || i >= raw.len()) {
        if (raw[i] == '{' || raw[i] == '}') && i + 1 < raw.len() && raw[i + 1] == raw[i] {
            lemma_fstring_holes(raw, i + 2, lit.push(raw[i]));
        } else if raw[i] == '{' {
            lemma_find_char(raw, '}', i + 1);
            if let Some(j) = find_char(raw, '}', i + 1) {
                lemma_find_before(raw, ':', i + 1, j);
                lemma_fstring_holes(raw, j + 1, Seq::empty());
                if let Some(rest) = fstring_pieces(raw, j + 1, Seq::empty()) {
                    let hole = match find_before(raw, ':', i + 1, j) {
                        Some(k) => FPiece::Hole(i + 1, k, Some(raw.subrange(k + 1, j))),
                        None => FPiece::Hole(i + 1, j, None),
                    };
                    let ps = text_piece(lit) + seq![hole] + rest;
                    assert forall|k: int| 0 <= k < ps.len() implies (#[trigger] ps[k] matches FPiece::Hole(
                        s,
                        e,
                        _,
                    ) ==> 1 <= s <= e < raw.len()) by {
                        let t = text_piece(lit).len() as int;
                        if k > t {
                            assert(ps[k] == rest[k - t - 1]);
                        }
                    }
                }
            }
        } else {
            lemma_fstring_holes(raw, i + 1, lit.push(raw[i]));
        }
    }
}

/// A position past zero, cut to what a `usize` holds.
pub open spec fn clamp(n: int) -> usize {
    if n < 0 {
        0
    } else if n > usize::MAX {
        usize::MAX
    } else {
        n as usize
    }
}

/// Tokens lexed from an f-string's expression, placed in the source: their
/// spans moved by `base`, and all of them at `at`, the line and column of
/// the f-string.
pub open spec fn placed(inner: Seq<SpecSpannedToken>, base: int, at: (usize, usize)) -> Seq<SpecSpannedToken> {
    Seq::new(
        inner.len(),
        |k: int|
            SpecSpannedToken {
                token: inner[k].token,
                span: Span { start: clamp(inner[k].span.start + base), end: clamp(inner[k].span.end + base) },
                line: at.0,
                column: at.1,
            },
    )
}

pub proof fn lemma_placed_weight(inner: Seq<SpecSpannedToken>, base: int, at: (usize, usize))
    ensures
        tokens_weight(placed(inner, base, at)) == tokens_weight(inner),
        placed(inner, base, at).len() == inner.len(),
    decreases inner.len(),
{
    if inner.len() > 0 {
        lemma_placed_weight(inner.drop_last(), base, at);
        assert(placed(inner, base, at).drop_last() =~= placed(inner.drop_last(), base, at));
    }
}

pub proof fn lemma_weight_at(ts: Seq<SpecSpannedToken>, c: int)
    requires
        0 <= c < ts.len(),
    ensures
        token_weight(ts[c].token) <= tokens_weight(ts),
    decreases ts.len(),
{
    if c < ts.len() - 1 {
        lemma_weight_at(ts.drop_last(), c);
    }
}

pub proof fn lemma_inner_bytes(raw: Seq<char>, s: int, e: int)
    requires
        1 <= s <= e < raw.len(),
    ensures
        bytes_len(raw.subrange(s, e)) + 2 <= bytes_len(raw),
{
    let a = raw.subrange(0, s);
    let b = raw.subrange(s, e);
    let d = raw.subrange(e, raw.len() as int);
    assert(a + b + d =~= raw);
    crate::laws::lemma_bytes_concat(a, b);
    crate::laws::lemma_bytes_concat(a + b, d);
    crate::lexer::lemma_bytes_len_bound(a);
    crate::lexer::lemma_bytes_len_bound(d);
}

/// Number of pieces of the f-string token at `c`.
pub open spec fn fpiece_count(ts: Seq<SpecSpannedToken>, c: int) -> nat {
    match peek(ts, c) {
        SpecToken::FString(raw) => match fstring_pieces(raw, 0, Seq::empty()) {
            Some(ps) => ps.len(),
            None => 0,
        },
        _ => 0,
    }
}

/// The segment that piece `k` of the f-string token at `c` gives: literal
/// text, or its expression lexed and parsed on tokens of its own, placed
/// where it stands in the source (a lexing error, or tokens left after the
/// expression, are errors).  Only meaningful for a piece that exists.
pub open spec fn p_fseg(ts: Seq<SpecSpannedToken>, c: int, k: int) -> Result<SpecFStringSegment, SpecParseError>
    decreases measure(ts, c + 1), 0nat,
{
    match peek(ts, c) {
        SpecToken::FString(raw) => match fstring_pieces(raw, 0, Seq::empty()) {
            Some(ps) => if 0 <= k < ps.len() {
                match ps[k] {
                    FPiece::Text(t) => Ok(SpecFStringSegment::Lit(t)),
                    FPiece::Hole(s, e, spec) => {
                        let text = raw.subrange(s, e);
                        match lexed(text) {
                            Err(_) => Err(unexpected(ts, c, "expressão"@)),
                            Ok(inner) => {
                                let ts2 = placed(inner, span_at(ts, c).start + 2 + bytes_len(raw.subrange(0, s)), loc(ts, c));
                                proof {
                                    lemma_fstring_holes(raw, 0, Seq::empty());
                                    lemma_inner_bytes(raw, s, e);
                                    lemma_lexed_weight(text);
                                    lemma_placed_weight(inner, span_at(ts, c).start + 2 + bytes_len(raw.subrange(0, s)), loc(ts, c));
                                    lemma_weight_at(ts, c);
                                }
                                let (n, r) = p_expr(ts2, 0);
                                match r {
                                    Err(x) => Err(x),
                                    Ok(x) => if peek(ts2, n as int) is Eof {
                                        Ok(SpecFStringSegment::Expr(x, spec))
                                    } else {
                                        Err(unexpected(ts2, n as int, "RBrace"@))
                                    },
                                }
                            },
                        }
                    },
                }
            } else {
                Ok(SpecFStringSegment::Lit(Seq::empty()))
            },
            None => Ok(SpecFStringSegment::Lit(Seq::empty())),
        },
        _ => Ok(SpecFStringSegment::Lit(Seq::empty())),
    }
}

/// The segments of the f-string token at `c`, from its `k`-th piece on;
/// an unclosed `{` is an error, and so is the first piece that fails.
pub open spec fn p_fsegs(ts: Seq<SpecSpannedToken>, c: int, k: int) -> Result<Seq<SpecFStringSegment>, SpecParseError>
    decreases measure(ts, c + 1), fpiece_count(ts, c) - k,
{
    match peek(ts, c) {
        SpecToken::FString(raw) => match fstring_pieces(raw, 0, Seq::empty()) {
            None => Err(unexpected(ts, c, "RBrace"@)),
            Some(ps) => if k < 0 || k >= ps.len() {
                Ok(Seq::empty())
            } else {
                match p_fseg(ts, c, k) {
                    Err(x) => Err(x),
                    Ok(g) => match p_fsegs(ts, c, k + 1) {
                        Err(x) => Err(x),
                        Ok(gs) => Ok(seq![g] + gs),
                    },
                }
            },
        },
        _ => Ok(Seq::empty()),
    }
}

// ─── STATEMENTS ──────────────────────────────────────────────────

/// A block: `{`, statements, `}`.
pub open spec fn p_block(ts: Seq<SpecSpannedToken>, c: int) -> Parsed<SpecBlock>
    decreases remaining(ts, c), 4nat,
{
    let span = span_at(ts, c);
    let (k, rb) = expect_tok(ts, c, SpecToken::LBrace);
    match rb {
        Err(e) => (k, Err(e)),
        Ok(_) => {
            let nl = newlines(ts, c + 1);
            let (n, r) = p_block_body(ts, c + 1 + nl, Seq::empty());
            match r {
                Err(e) => (1 + nl + n, Err(e)),
                Ok(stmts) => {
                    let (k2, rc) = expect_tok(ts, c + 1 + nl + n, SpecToken::RBrace);
                    match rc {
                        Err(e) => (1 + nl + n + k2, Err(e)),
                        Ok(_) => (1 + nl + n + k2, Ok(SpecBlock { stmts, span })),
                    }
                },
            }
        },
    }
}

/// Statements, each followed by newlines, until `}` or end of file.
pub open spec fn p_block_body(ts: Seq<SpecSpannedToken>, c: int, acc: Seq<SpecStmt>) -> Parsed<Seq<SpecStmt>>
    decreases remaining(ts, c), 3nat,
{
    if peek(ts, c) is RBrace || peek(ts, c) is Eof {
        (0, Ok(acc))
    } else {
        let (n, r) = p_stmt(ts, c);
        match r {
            Err(e) => (n, Err(e)),
            Ok(s) => {
                let nl = newlines(ts, c + n);
                if n + nl == 0 {
                    (0, Ok(acc))
                } else {
                    let (m, r2) = p_block_body(ts, c + n + nl, acc.push(s));
                    (n + nl + m, r2)
                }
            },
        }
    }
}

/// A statement.
pub open spec fn p_stmt(ts: Seq<SpecSpannedToken>, c: int) -> Parsed<SpecStmt>
    decreases remaining(ts, c), 2nat,
{
    match peek(ts, c) {
        SpecToken::Let => p_let(ts, c),
        SpecToken::Return => p_return(ts, c),
        SpecToken::If => {
            let (n, r) = p_if(ts, c);
            match r {
                Err(e) => (n, Err(e)),
                Ok(i) => (n, Ok(SpecStmt::IfStmt(i))),
            }
        },
        SpecToken::While => p_while(ts, c),
        SpecToken::For => p_for(ts, c),
        SpecToken::Do => p_effect(ts, c),
        SpecToken::Send => p_send(ts, c),
        _ => p_assign_or_expr(ts, c),
    }
}

/// `let name [: type] = expr`.
#[verifier::opaque]
pub open spec fn p_let(ts: Seq<SpecSpannedToken>, c: int) -> Parsed<SpecStmt> {
    let span = span_at(ts, c);
    let (k, rk) = expect_tok(ts, c, SpecToken::Let);
    match rk {
        Err(e) => (k, Err(e)),
        Ok(_) => {
            let (n1, r1) = p_ident(ts, c + 1, "let statement"@);
            match r1 {
                Err(e) => (1 + n1, Err(e)),
                Ok(name) => {
                    let c2 = c + 1 + n1;
                    let (n2, r2): Parsed<Option<SpecTypeExpr>> = if peek(ts, c2) is Colon {
                        let (m, rt) = p_type(ts, c2 + 1);
                        match rt {
                            Err(e) => (1 + m, Err(e)),
                            Ok(t) => (1 + m, Ok(Some(t))),
                        }
                    } else {
                        (0, Ok(None))
                    };
                    match r2 {
                        Err(e) => (1 + n1 + n2, Err(e)),
                        Ok(type_ann) => {
                            let c3 = c2 + n2;
                            let (k3, r3) = expect_tok(ts, c3, SpecToken::Eq);
                            match r3 {
                                Err(e) => (1 + n1 + n2 + k3, Err(e)),
                                Ok(_) => {
                                    let (n4, r4) = p_expr(ts, c3 + 1);
                                    match r4 {
                                        Err(e) => (1 + n1 + n2 + 1 + n4, Err(e)),
                                        Ok(value) => {
                                            let nl = newlines(ts, c3 + 1 + n4);
                                            (
                                                1 + n1 + n2 + 1 + n4 + nl,
                                                Ok(SpecStmt::LetStmt(SpecLetStmt { name, type_ann, value, span })),
                                            )
                                        },
                                    }
                                },
                            }
                        },
                    }
                },
            }
        },
    }
}

/// `do expr`.
#[verifier::opaque]
pub open spec fn p_effect(ts: Seq<SpecSpannedToken>, c: int) -> Parsed<SpecStmt> {
    let span = span_at(ts, c);
    let (k, rk) = expect_tok(ts, c, SpecToken::Do);
    match rk {
        Err(e) => (k, Err(e)),
        Ok(_) => {
            let (n, r) = p_expr(ts, c + 1);
            match r {
                Err(e) => (1 + n, Err(e)),
                Ok(expr) => {
                    let nl = newlines(ts, c + 1 + n);
                    (1 + n + nl, Ok(SpecStmt::EffectStmt(SpecEffectStmt { expr, span })))
                },
            }
        },
    }
}

/// `send("agent").channel(expr)` or `send("agent", "topic", expr)`; the
/// form `send("agent"), "topic", expr` is read as the second.
#[verifier::opaque]
pub open spec fn p_send(ts: Seq<SpecSpannedToken>, c: int) -> Parsed<SpecStmt> {
    let span = span_at(ts, c);
    let (k1, r1) = expect_tok(ts, c, SpecToken::Send);
    let (k2, r2) = expect_tok(ts, c + 1, SpecToken::LParen);
    let (n3, r3) = p_string(ts, c + 2);
    let g: nat = 2 + n3;
    let (k4, r4) = expect_tok(ts, c + g, SpecToken::RParen);
    if r1 is Err {
        (k1, Err(r1->Err_0))
    } else if r2 is Err {
        (1 + k2, Err(r2->Err_0))
    } else if r3 is Err {
        (2 + n3, Err(r3->Err_0))
    } else if peek(ts, c + g) is Comma {
        let (m, r) = p_send_topic(ts, c + g, r3->Ok_0, span, true);
        (g + m, r)
    } else if r4 is Err {
        (g + k4, Err(r4->Err_0))
    } else {
        let h: nat = 3 + n3;
        let (m, r) = if peek(ts, c + h) is Dot {
            p_send_channel(ts, c + h, r3->Ok_0, span)
        } else {
            p_send_topic(ts, c + h, r3->Ok_0, span, false)
        };
        (h + m, r)
    }
}

/// The rest of `send(target).channel(expr)`, from the `.`.
#[verifier::opaque]
pub open spec fn p_send_channel(ts: Seq<SpecSpannedToken>, c: int, target_agent: Seq<char>, span: Span) -> Parsed<SpecStmt> {
    let (n6, r6) = p_ident(ts, c + 1, "nome do canal"@);
    let (k7, r7) = expect_tok(ts, c + 1 + n6, SpecToken::LParen);
    let (n8, r8) = p_expr(ts, c + 2 + n6);
    let (k9, r9) = expect_tok(ts, c + 2 + n6 + n8, SpecToken::RParen);
    if r6 is Err {
        (1 + n6, Err(r6->Err_0))
    } else if r7 is Err {
        (1 + n6 + k7, Err(r7->Err_0))
    } else if r8 is Err {
        (2 + n6 + n8, Err(r8->Err_0))
    } else if r9 is Err {
        (2 + n6 + n8 + k9, Err(r9->Err_0))
    } else {
        let t: nat = 3 + n6 + n8;
        (
            t + newlines(ts, c + t),
            Ok(
                SpecStmt::SendStmt(
                    SpecSendStmt { target_agent, channel: Some(r6->Ok_0), topic: None, payload: r8->Ok_0, span },
                ),
            ),
        )
    }
}

/// The rest of a send with a topic, from the `,` after the target:
/// `, "topic", expr`, then `)` when `closed` (the target's `)` is still open).
#[verifier::opaque]
pub open spec fn p_send_topic(
    ts: Seq<SpecSpannedToken>,
    c: int,
    target_agent: Seq<char>,
    span: Span,
    closed: bool,
) -> Parsed<SpecStmt> {
    let (k6, r6) = expect_tok(ts, c, SpecToken::Comma);
    let (n7, r7) = p_string(ts, c + 1);
    let (k8, r8) = expect_tok(ts, c + 1 + n7, SpecToken::Comma);
    let (n9, r9) = p_expr(ts, c + 2 + n7);
    let t: nat = 2 + n7 + n9;
    let (k10, r10) = expect_tok(ts, c + t, SpecToken::RParen);
    let stmt = SpecStmt::SendStmt(
        SpecSendStmt { target_agent, channel: None, topic: Some(r7->Ok_0), payload: r9->Ok_0, span },
    );
    if r6 is Err {
        (k6, Err(r6->Err_0))
    } else if r7 is Err {
        (1 + n7, Err(r7->Err_0))
    } else if r8 is Err {
        (1 + n7 + k8, Err(r8->Err_0))
    } else if r9 is Err {
        (2 + n7 + n9, Err(r9->Err_0))
    } else if !closed {
        (t + newlines(ts, c + t), Ok(stmt))
    } else if r10 is Err {
        (t + k10, Err(r10->Err_0))
    } else {
        (t + 1 + newlines(ts, c + t + 1), Ok(stmt))
    }
}

/// `return [expr]`; the value is absent when a newline or `}` follows.
#[verifier::opaque]
pub open spec fn p_return(ts: Seq<SpecSpannedToken>, c: int) -> Parsed<SpecStmt> {
    let span = span_at(ts, c);
    let (k, rk) = expect_tok(ts, c, SpecToken::Return);
    if rk is Err {
        (k, Err(rk->Err_0))
    } else if !(peek(ts, c + 1) is Newline) && !(peek(ts, c + 1) is RBrace) {
        let (n, r) = p_expr(ts, c + 1);
        if r is Err {
            (1 + n, Err(r->Err_0))
        } else {
            (
                1 + n + newlines(ts, c + 1 + n),
                Ok(SpecStmt::ReturnStmt(SpecReturnStmt { value: Some(r->Ok_0), span })),
            )
        }
    } else {
        (1 + newlines(ts, c + 1), Ok(SpecStmt::ReturnStmt(SpecReturnStmt { value: None, span })))
    }
}

/// `if expr block [else (if ... | block)]`.
pub open spec fn p_if(ts: Seq<SpecSpannedToken>, c: int) -> Parsed<SpecIfStmt>
    decreases remaining(ts, c), 1nat,
{
    let span = span_at(ts, c);
    let (k, rk) = expect_tok(ts, c, SpecToken::If);
    if rk is Err {
        (k, Err(rk->Err_0))
    } else {
        let (n1, r1) = p_expr(ts, c + 1);
        if r1 is Err {
            (1 + n1, Err(r1->Err_0))
        } else {
            let (n2, r2) = p_block(ts, c + 1 + n1);
            if r2 is Err {
                (1 + n1 + n2, Err(r2->Err_0))
            } else {
                let h: nat = 1 + n1 + n2;
                let condition = r1->Ok_0;
                let then_branch = r2->Ok_0;
                if peek(ts, c + h) is Else {
                    let nl = newlines(ts, c + h + 1);
                    let c4 = c + h + 1 + nl;
                    if peek(ts, c4) is If {
                        let (n5, r5) = p_if(ts, c4);
                        if r5 is Err {
                            (h + 1 + nl + n5, Err(r5->Err_0))
                        } else {
                            (
                                h + 1 + nl + n5,
                                Ok(
                                    SpecIfStmt {
                                        condition,
                                        then_branch,
                                        else_branch: Some(Box::new(SpecElseBranch::If(r5->Ok_0))),
                                        span,
                                    },
                                ),
                            )
                        }
                    } else {
                        let (n5, r5) = p_block(ts, c4);
                        if r5 is Err {
                            (h + 1 + nl + n5, Err(r5->Err_0))
                        } else {
                            (
                                h + 1 + nl + n5,
                                Ok(
                                    SpecIfStmt {
                                        condition,
                                        then_branch,
                                        else_branch: Some(Box::new(SpecElseBranch::Block(r5->Ok_0))),
                                        span,
                                    },
                                ),
                            )
                        }
                    }
                } else {
                    (h, Ok(SpecIfStmt { condition, then_branch, else_branch: None, span }))
                }
            }
        }
    }
}

/// `while expr block`.
pub open spec fn p_while(ts: Seq<SpecSpannedToken>, c: int) -> Parsed<SpecStmt>
    decreases remaining(ts, c), 1nat,
{
    let span = span_at(ts, c);
    let (k, rk) = expect_tok(ts, c, SpecToken::While);
    if rk is Err {
        (k, Err(rk->Err_0))
    } else {
        let (n1, r1) = p_expr(ts, c + 1);
        if r1 is Err {
            (1 + n1, Err(r1->Err_0))
        } else {
            let (n2, r2) = p_block(ts, c + 1 + n1);
            if r2 is Err {
                (1 + n1 + n2, Err(r2->Err_0))
            } else {
                (
                    1 + n1 + n2,
                    Ok(SpecStmt::WhileStmt(SpecWhileStmt { condition: r1->Ok_0, body: r2->Ok_0, span })),
                )
            }
        }
    }
}

/// `for name in expr block`.
pub open spec fn p_for(ts: Seq<SpecSpannedToken>, c: int) -> Parsed<SpecStmt>
    decreases remaining(ts, c), 1nat,
{
    let span = span_at(ts, c);
    let (k, rk) = expect_tok(ts, c, SpecToken::For);
    if rk is Err {
        (k, Err(rk->Err_0))
    } else {
        let (n1, r1) = p_ident(ts, c + 1, "variável do for"@);
        if r1 is Err {
            (1 + n1, Err(r1->Err_0))
        } else {
            let (k2, r2) = expect_tok(ts, c + 1 + n1, SpecToken::In);
            if r2 is Err {
                (1 + n1 + k2, Err(r2->Err_0))
            } else {
                let (n3, r3) = p_expr(ts, c + 2 + n1);
                if r3 is Err {
                    (2 + n1 + n3, Err(r3->Err_0))
                } else {
                    let (n4, r4) = p_block(ts, c + 2 + n1 + n3);
                    if r4 is Err {
                        (2 + n1 + n3 + n4, Err(r4->Err_0))
                    } else {
                        (
                            2 + n1 + n3 + n4,
                            Ok(
                                SpecStmt::ForStmt(
                                    SpecForStmt { var: r1->Ok_0, iterable: r3->Ok_0, body: r4->Ok_0, span },
                                ),
                            ),
                        )
                    }
                }
            }
        }
    }
}

/// An assignment `name = expr`, or an expression statement; a name alone
/// is not a statement (an `=` must follow it).
#[verifier::opaque]
pub open spec fn p_assign_or_expr(ts: Seq<SpecSpannedToken>, c: int) -> Parsed<SpecStmt> {
    let (n, r) = p_expr(ts, c);
    if r is Err {
        (n, Err(r->Err_0))
    } else {
        let x = r->Ok_0;
        if peek(ts, c + n) is Eq {
            let (n2, r2) = p_expr(ts, c + n + 1);
            if r2 is Err {
                (n + 1 + n2, Err(r2->Err_0))
            } else {
                let nl = newlines(ts, c + n + 1 + n2);
                let at = loc(ts, c + n + 1 + n2 + nl);
                match x {
                    SpecExpr::Identifier(name, span) => (
                        n + 1 + n2 + nl,
                        Ok(SpecStmt::AssignStmt(SpecAssignStmt { name, value: r2->Ok_0, span })),
                    ),
                    _ => (n + 1 + n2 + nl, Err(SpecParseError::InvalidAssignmentTarget { line: at.0, column: at.1 })),
                }
            }
        } else if x is Identifier {
            (n, Err(unexpected(ts, c + n, "Eq"@)))
        } else {
            (n + newlines(ts, c + n), Ok(SpecStmt::ExprStmt(SpecExprStmt { expr: x, span: x.span() })))
        }
    }
}

// ─── DECLARATIONS ────────────────────────────────────────────────

/// `name [: type]`.
pub open spec fn p_param(ts: Seq<SpecSpannedToken>, c: int) -> Parsed<SpecParam> {
    let span = span_at(ts, c);
    let (n1, r1) = p_ident(ts, c, "parâmetro"@);
    if r1 is Err {
        (n1, Err(r1->Err_0))
    } else if peek(ts, c + n1) is Colon {
        let (n2, r2) = p_type(ts, c + n1 + 1);
        if r2 is Err {
            (n1 + 1 + n2, Err(r2->Err_0))
        } else {
            (n1 + 1 + n2, Ok(SpecParam { name: r1->Ok_0, type_annotation: Some(r2->Ok_0), span }))
        }
    } else {
        (n1, Ok(SpecParam { name: r1->Ok_0, type_annotation: None, span }))
    }
}

/// Comma-separated parameters; none when `)` comes first.
pub open spec fn p_params(ts: Seq<SpecSpannedToken>, c: int) -> Parsed<Seq<SpecParam>> {
    if peek(ts, c) is RParen {
        (0, Ok(Seq::empty()))
    } else {
        let (n, r) = p_param(ts, c);
        if r is Err {
            (n, Err(r->Err_0))
        } else {
            let (m, r2) = p_params_tail(ts, c + n, seq![r->Ok_0]);
            (n + m, r2)
        }
    }
}

/// `, param` repeated, appending to `acc`.
pub open spec fn p_params_tail(ts: Seq<SpecSpannedToken>, c: int, acc: Seq<SpecParam>) -> Parsed<Seq<SpecParam>>
    decreases remaining(ts, c),
{
    if peek(ts, c) is Comma {
        let (n, r) = p_param(ts, c + 1);
        if r is Err {
            (1 + n, Err(r->Err_0))
        } else {
            let (m, r2) = p_params_tail(ts, c + 1 + n, acc.push(r->Ok_0));
            (1 + n + m, r2)
        }
    } else {
        (0, Ok(acc))
    }
}

/// `fn name(params) [-> type] block`.
#[verifier::opaque]
pub open spec fn p_fn(ts: Seq<SpecSpannedToken>, c: int) -> Parsed<SpecFnDecl> {
    let span = span_at(ts, c);
    let (k1, r1) = expect_tok(ts, c, SpecToken::Fn);
    let (n2, r2) = p_ident(ts, c + 1, "nome da função"@);
    let (k3, r3) = expect_tok(ts, c + 1 + n2, SpecToken::LParen);
    let (n4, r4) = p_params(ts, c + 2 + n2);
    let (k5, r5) = expect_tok(ts, c + 2 + n2 + n4, SpecToken::RParen);
    let h: nat = 3 + n2 + n4;
    let (n6, r6): Parsed<Option<SpecTypeExpr>> = if peek(ts, c + h) is Arrow {
        let (m, rt) = p_type(ts, c + h + 1);
        (
            1 + m,
            match rt {
                Ok(t) => Ok(Some(t)),
                Err(e) => Err(e),
            },
        )
    } else {
        (0, Ok(None))
    };
    let (n7, r7) = p_block(ts, c + h + n6);
    if r1 is Err {
        (k1, Err(r1->Err_0))
    } else if r2 is Err {
        (1 + n2, Err(r2->Err_0))
    } else if r3 is Err {
        (1 + n2 + k3, Err(r3->Err_0))
    } else if r4 is Err {
        (2 + n2 + n4, Err(r4->Err_0))
    } else if r5 is Err {
        (2 + n2 + n4 + k5, Err(r5->Err_0))
    } else if r6 is Err {
        (h + n6, Err(r6->Err_0))
    } else if r7 is Err {
        (h + n6 + n7, Err(r7->Err_0))
    } else {
        (
            h + n6 + n7,
            Ok(
                SpecFnDecl {
                    name: r2->Ok_0,
                    params: r4->Ok_0,
                    return_type: r6->Ok_0,
                    body: r7->Ok_0,
                    span,
                },
            ),
        )
    }
}

/// The event an `on` handler reacts to.
#[verifier::opaque]
pub open spec fn p_event(ts: Seq<SpecSpannedToken>, c: int) -> Parsed<SpecEventPattern> {
    match peek(ts, c) {
        SpecToken::Start => (1, Ok(SpecEventPattern::Start)),
        SpecToken::Stop => (1, Ok(SpecEventPattern::Stop)),
        SpecToken::Identifier(name) => if name == "speech"@ {
            (1, Ok(SpecEventPattern::Speech))
        } else if name == "image"@ {
            (1, Ok(SpecEventPattern::Image))
        } else if name == "timer"@ || name == "idle"@ || name == "sensor_change"@ || name == "network"@
            || name == "message"@ {
            let (k1, r1) = expect_tok(ts, c + 1, SpecToken::LParen);
            let (n2, r2) = p_event_argument(ts, c + 2, name);
            let (k3, r3) = expect_tok(ts, c + 2 + n2, SpecToken::RParen);
            if r1 is Err {
                (1 + k1, Err(r1->Err_0))
            } else if r2 is Err {
                (2 + n2, Err(r2->Err_0))
            } else if r3 is Err {
                (2 + n2 + k3, Err(r3->Err_0))
            } else {
                (3 + n2, Ok(r2->Ok_0))
            }
        } else {
            (1, Ok(SpecEventPattern::Custom(name)))
        },
        _ => (0, Err(unexpected(ts, c, "padrão de evento"@))),
    }
}

/// What stands between the parentheses of the event `name`.
pub open spec fn p_event_argument(ts: Seq<SpecSpannedToken>, c: int, name: Seq<char>) -> Parsed<SpecEventPattern> {
    if name == "timer"@ || name == "idle"@ {
        let (n, r) = p_expr(ts, c);
        (
            n,
            match r {
                Ok(x) => Ok(if name == "timer"@ { SpecEventPattern::Timer(x) } else { SpecEventPattern::Idle(x) }),
                Err(e) => Err(e),
            },
        )
    } else if name == "message"@ {
        match peek(ts, c) {
            SpecToken::Identifier(agent) => if peek(ts, c + 1) is Dot {
                let (n, r) = p_ident(ts, c + 2, "nome do canal"@);
                (
                    2 + n,
                    match r {
                        Ok(channel) => Ok(SpecEventPattern::Message(SpecMessageTarget::Typed { agent, channel })),
                        Err(e) => Err(e),
                    },
                )
            } else {
                (1, Ok(SpecEventPattern::Message(SpecMessageTarget::Simple(agent))))
            },
            _ => {
                let (n, r) = p_string(ts, c);
                (
                    n,
                    match r {
                        Ok(s) => Ok(SpecEventPattern::Message(SpecMessageTarget::Simple(s))),
                        Err(e) => Err(e),
                    },
                )
            },
        }
    } else {
        let (n, r) = p_string(ts, c);
        (
            n,
            match r {
                Ok(s) => Ok(
                    if name == "sensor_change"@ {
                        SpecEventPattern::SensorChange(s)
                    } else {
                        SpecEventPattern::Network(s)
                    },
                ),
                Err(e) => Err(e),
            },
        )
    }
}

/// The priority after `priority`: a level keyword, consumed; otherwise
/// normal, with nothing consumed.
pub open spec fn p_priority_level(ts: Seq<SpecSpannedToken>, c: int) -> (nat, EventPriorityLevel) {
    match peek(ts, c) {
        SpecToken::PriorityCritical => (1, EventPriorityLevel::Critical),
        SpecToken::PriorityHigh => (1, EventPriorityLevel::High),
        SpecToken::PriorityNormal => (1, EventPriorityLevel::Normal),
        SpecToken::PriorityLow => (1, EventPriorityLevel::Low),
        _ => (0, EventPriorityLevel::Normal),
    }
}

/// An optional `priority level`.
pub open spec fn p_priority(ts: Seq<SpecSpannedToken>, c: int) -> (nat, EventPriorityLevel) {
    if peek(ts, c) is Priority {
        let (m, lv) = p_priority_level(ts, c + 1);
        (1 + m, lv)
    } else {
        (0, EventPriorityLevel::Normal)
    }
}

/// `on event [priority level] [concurrent] block`.
#[verifier::opaque]
pub open spec fn p_handler(ts: Seq<SpecSpannedToken>, c: int) -> Parsed<SpecHandlerDecl> {
    let span = span_at(ts, c);
    let (k1, r1) = expect_tok(ts, c, SpecToken::On);
    let (n2, r2) = p_event(ts, c + 1);
    let c3 = c + 1 + n2;
    let (n3, priority) = p_priority(ts, c3);
    let c4 = c3 + n3;
    let concurrent = peek(ts, c4) is Concurrent;
    let n4: nat = if concurrent { 1 } else { 0 };
    let (n5, r5) = p_block(ts, c4 + n4);
    if r1 is Err {
        (k1, Err(r1->Err_0))
    } else if r2 is Err {
        (1 + n2, Err(r2->Err_0))
    } else if r5 is Err {
        (1 + n2 + n3 + n4 + n5, Err(r5->Err_0))
    } else {
        (
            1 + n2 + n3 + n4 + n5,
            Ok(SpecHandlerDecl { event: r2->Ok_0, priority, concurrent, body: r5->Ok_0, span }),
        )
    }
}

/// `use name`.
pub open spec fn p_use(ts: Seq<SpecSpannedToken>, c: int) -> Parsed<SpecUseDecl> {
    let span = span_at(ts, c);
    let (k1, r1) = expect_tok(ts, c, SpecToken::Use);
    let (n2, r2) = p_ident(ts, c + 1, "nome da capability"@);
    if r1 is Err {
        (k1, Err(r1->Err_0))
    } else if r2 is Err {
        (1 + n2, Err(r2->Err_0))
    } else {
        (1 + n2 + newlines(ts, c + 1 + n2), Ok(SpecUseDecl { capability: r2->Ok_0, span }))
    }
}

/// `channel name: type`.
pub open spec fn p_channel(ts: Seq<SpecSpannedToken>, c: int) -> Parsed<SpecChannelDecl> {
    let span = span_at(ts, c);
    let (k1, r1) = expect_tok(ts, c, SpecToken::Channel);
    let (n2, r2) = p_ident(ts, c + 1, "nome do canal"@);
    let (k3, r3) = expect_tok(ts, c + 1 + n2, SpecToken::Colon);
    let (n4, r4) = p_type(ts, c + 2 + n2);
    if r1 is Err {
        (k1, Err(r1->Err_0))
    } else if r2 is Err {
        (1 + n2, Err(r2->Err_0))
    } else if r3 is Err {
        (1 + n2 + k3, Err(r3->Err_0))
    } else if r4 is Err {
        (2 + n2 + n4, Err(r4->Err_0))
    } else {
        (
            2 + n2 + n4 + newlines(ts, c + 2 + n2 + n4),
            Ok(SpecChannelDecl { name: r2->Ok_0, chan_type: r4->Ok_0, span }),
        )
    }
}

/// A `OnError` block with no fields set.
pub open spec fn empty_error_policy() -> SpecErrorPolicy {
    SpecErrorPolicy { strategy: None, max_retries: None, backoff_ms: None, on_exhaust: None }
}

/// The value of field `key` of a `error` policy block at `c`, set in `pol`;
/// an unknown field's value is parsed as an expression and dropped.
#[verifier::opaque]
pub open spec fn p_error_value(ts: Seq<SpecSpannedToken>, c: int, key: Seq<char>, pol: SpecErrorPolicy) -> Parsed<SpecErrorPolicy> {
    if key == "strategy"@ {
        let (n, r) = p_string(ts, c);
        (
            n,
            match r {
                Ok(v) => Ok(SpecErrorPolicy { strategy: Some(v), ..pol }),
                Err(e) => Err(e),
            },
        )
    } else if key == "max_retries"@ {
        let (n, r) = p_integer(ts, c);
        (
            n,
            match r {
                Ok(v) => Ok(SpecErrorPolicy { max_retries: Some(v as u32), ..pol }),
                Err(e) => Err(e),
            },
        )
    } else if key == "backoff_ms"@ {
        let (n, r) = p_integer(ts, c);
        (
            n,
            match r {
                Ok(v) => Ok(SpecErrorPolicy { backoff_ms: Some(v as u64), ..pol }),
                Err(e) => Err(e),
            },
        )
    } else if key == "on_exhaust"@ {
        let (n, r) = p_string(ts, c);
        (
            n,
            match r {
                Ok(v) => Ok(SpecErrorPolicy { on_exhaust: Some(v), ..pol }),
                Err(e) => Err(e),
            },
        )
    } else {
        let (n, r) = p_expr(ts, c);
        (
            n,
            match r {
                Ok(_) => Ok(pol),
                Err(e) => Err(e),
            },
        )
    }
}

/// Fields `key = value` of a `error` policy block, each followed by
/// newlines, until `}` or end of file.
pub open spec fn p_error_fields(ts: Seq<SpecSpannedToken>, c: int, pol: SpecErrorPolicy) -> Parsed<SpecErrorPolicy>
    decreases remaining(ts, c),
{
    if peek(ts, c) is RBrace || peek(ts, c) is Eof {
        (0, Ok(pol))
    } else {
        let (n1, r1) = p_ident(ts, c, "campo de on_error"@);
        let (k2, r2) = expect_tok(ts, c + 1, SpecToken::Eq);
        if r1 is Err {
            (n1, Err(r1->Err_0))
        } else if r2 is Err {
            (1 + k2, Err(r2->Err_0))
        } else {
            let (n3, r3) = p_error_value(ts, c + 2, r1->Ok_0, pol);
            if r3 is Err {
                (2 + n3, Err(r3->Err_0))
            } else {
                let nl = newlines(ts, c + 2 + n3);
                let (m, r4) = p_error_fields(ts, c + 2 + n3 + nl, r3->Ok_0);
                (2 + n3 + nl + m, r4)
            }
        }
    }
}

/// `on_error { fields }`.
pub open spec fn p_error_policy(ts: Seq<SpecSpannedToken>, c: int) -> Parsed<SpecErrorPolicy> {
    let (k1, r1) = expect_tok(ts, c, SpecToken::OnError);
    let (k2, r2) = expect_tok(ts, c + 1, SpecToken::LBrace);
    let nl = newlines(ts, c + 2);
    let (n3, r3) = p_error_fields(ts, c + 2 + nl, empty_error_policy());
    let (k4, r4) = expect_tok(ts, c + 2 + nl + n3, SpecToken::RBrace);
    if r1 is Err {
        (k1, Err(r1->Err_0))
    } else if r2 is Err {
        (1 + k2, Err(r2->Err_0))
    } else if r3 is Err {
        (2 + nl + n3, Err(r3->Err_0))
    } else if r4 is Err {
        (2 + nl + n3 + k4, Err(r4->Err_0))
    } else {
        (3 + nl + n3 + newlines(ts, c + 3 + nl + n3), Ok(r3->Ok_0))
    }
}

/// A `EventPolicy` block with no fields set.
pub open spec fn empty_event_policy() -> SpecEventPolicy {
    SpecEventPolicy { on_overflow: None, critical_queue: None, normal_queue: None, low_queue: None }
}

/// The value of field `key` of a `event` policy block at `c`, set in `pol`;
/// an unknown field's value is parsed as an expression and dropped.
#[verifier::opaque]
pub open spec fn p_event_value(ts: Seq<SpecSpannedToken>, c: int, key: Seq<char>, pol: SpecEventPolicy) -> Parsed<SpecEventPolicy> {
    if key == "on_overflow"@ {
        let (n, r) = p_string(ts, c);
        (
            n,
            match r {
                Ok(v) => Ok(SpecEventPolicy { on_overflow: Some(v), ..pol }),
                Err(e) => Err(e),
            },
        )
    } else if key == "critical_queue"@ {
        let (n, r) = p_integer(ts, c);
        (
            n,
            match r {
                Ok(v) => Ok(SpecEventPolicy { critical_queue: Some(v as usize), ..pol }),
                Err(e) => Err(e),
            },
        )
    } else if key == "normal_queue"@ {
        let (n, r) = p_integer(ts, c);
        (
            n,
            match r {
                Ok(v) => Ok(SpecEventPolicy { normal_queue: Some(v as usize), ..pol }),
                Err(e) => Err(e),
            },
        )
    } else if key == "low_queue"@ {
        let (n, r) = p_integer(ts, c);
        (
            n,
            match r {
                Ok(v) => Ok(SpecEventPolicy { low_queue: Some(v as usize), ..pol }),
                Err(e) => Err(e),
            },
        )
    } else {
        let (n, r) = p_expr(ts, c);
        (
            n,
            match r {
                Ok(_) => Ok(pol),
                Err(e) => Err(e),
            },
        )
    }
}

/// Fields `key = value` of a `event` policy block, each followed by
/// newlines, until `}` or end of file.
pub open spec fn p_event_fields(ts: Seq<SpecSpannedToken>, c: int, pol: SpecEventPolicy) -> Parsed<SpecEventPolicy>
    decreases remaining(ts, c),
{
    if peek(ts, c) is RBrace || peek(ts, c) is Eof {
        (0, Ok(pol))
    } else {
        let (n1, r1) = p_ident(ts, c, "campo de event_policy"@);
        let (k2, r2) = expect_tok(ts, c + 1, SpecToken::Eq);
        if r1 is Err {
            (n1, Err(r1->Err_0))
        } else if r2 is Err {
            (1 + k2, Err(r2->Err_0))
        } else {
            let (n3, r3) = p_event_value(ts, c + 2, r1->Ok_0, pol);
            if r3 is Err {
                (2 + n3, Err(r3->Err_0))
            } else {
                let nl = newlines(ts, c + 2 + n3);
                let (m, r4) = p_event_fields(ts, c + 2 + n3 + nl, r3->Ok_0);
                (2 + n3 + nl + m, r4)
            }
        }
    }
}

/// `event_policy { fields }`.
pub open spec fn p_event_policy(ts: Seq<SpecSpannedToken>, c: int) -> Parsed<SpecEventPolicy> {
    let (k1, r1) = expect_tok(ts, c, SpecToken::EventPolicy);
    let (k2, r2) = expect_tok(ts, c + 1, SpecToken::LBrace);
    let nl = newlines(ts, c + 2);
    let (n3, r3) = p_event_fields(ts, c + 2 + nl, empty_event_policy());
    let (k4, r4) = expect_tok(ts, c + 2 + nl + n3, SpecToken::RBrace);
    if r1 is Err {
        (k1, Err(r1->Err_0))
    } else if r2 is Err {
        (1 + k2, Err(r2->Err_0))
    } else if r3 is Err {
        (2 + nl + n3, Err(r3->Err_0))
    } else if r4 is Err {
        (2 + nl + n3 + k4, Err(r4->Err_0))
    } else {
        (3 + nl + n3 + newlines(ts, c + 3 + nl + n3), Ok(r3->Ok_0))
    }
}

/// A `AiPolicy` block with no fields set.
pub open spec fn empty_ai_policy() -> SpecAiPolicy {
    SpecAiPolicy { timeout_ms: None, max_queue_during: None, on_timeout: None, fallback_response: None, cache_identical: None }
}

/// The value of field `key` of a `ai` policy block at `c`, set in `pol`;
/// an unknown field's value is parsed as an expression and dropped.
#[verifier::opaque]
pub open spec fn p_ai_value(ts: Seq<SpecSpannedToken>, c: int, key: Seq<char>, pol: SpecAiPolicy) -> Parsed<SpecAiPolicy> {
    if key == "timeout_ms"@ {
        let (n, r) = p_integer(ts, c);
        (
            n,
            match r {
                Ok(v) => Ok(SpecAiPolicy { timeout_ms: Some(v as u64), ..pol }),
                Err(e) => Err(e),
            },
        )
    } else if key == "max_queue_during"@ {
        let (n, r) = p_integer(ts, c);
        (
            n,
            match r {
                Ok(v) => Ok(SpecAiPolicy { max_queue_during: Some(v as usize), ..pol }),
                Err(e) => Err(e),
            },
        )
    } else if key == "on_timeout"@ {
        let (n, r) = p_string(ts, c);
        (
            n,
            match r {
                Ok(v) => Ok(SpecAiPolicy { on_timeout: Some(v), ..pol }),
                Err(e) => Err(e),
            },
        )
    } else if key == "fallback_response"@ {
        let (n, r) = p_string(ts, c);
        (
            n,
            match r {
                Ok(v) => Ok(SpecAiPolicy { fallback_response: Some(v), ..pol }),
                Err(e) => Err(e),
            },
        )
    } else if key == "cache_identical"@ {
        let (n, r) = p_bool(ts, c);
        (
            n,
            match r {
                Ok(v) => Ok(SpecAiPolicy { cache_identical: Some(v), ..pol }),
                Err(e) => Err(e),
            },
        )
    } else {
        let (n, r) = p_expr(ts, c);
        (
            n,
            match r {
                Ok(_) => Ok(pol),
                Err(e) => Err(e),
            },
        )
    }
}

/// Fields `key = value` of a `ai` policy block, each followed by
/// newlines, until `}` or end of file.
pub open spec fn p_ai_fields(ts: Seq<SpecSpannedToken>, c: int, pol: SpecAiPolicy) -> Parsed<SpecAiPolicy>
    decreases remaining(ts, c),
{
    if peek(ts, c) is RBrace || peek(ts, c) is Eof {
        (0, Ok(pol))
    } else {
        let (n1, r1) = p_ident(ts, c, "campo de ai_policy"@);
        let (k2, r2) = expect_tok(ts, c + 1, SpecToken::Eq);
        if r1 is Err {
            (n1, Err(r1->Err_0))
        } else if r2 is Err {
            (1 + k2, Err(r2->Err_0))
        } else {
            let (n3, r3) = p_ai_value(ts, c + 2, r1->Ok_0, pol);
            if r3 is Err {
                (2 + n3, Err(r3->Err_0))
            } else {
                let nl = newlines(ts, c + 2 + n3);
                let (m, r4) = p_ai_fields(ts, c + 2 + n3 + nl, r3->Ok_0);
                (2 + n3 + nl + m, r4)
            }
        }
    }
}

/// `ai_policy { fields }`.
pub open spec fn p_ai_policy(ts: Seq<SpecSpannedToken>, c: int) -> Parsed<SpecAiPolicy> {
    let (k1, r1) = expect_tok(ts, c, SpecToken::AiPolicy);
    let (k2, r2) = expect_tok(ts, c + 1, SpecToken::LBrace);
    let nl = newlines(ts, c + 2);
    let (n3, r3) = p_ai_fields(ts, c + 2 + nl, empty_ai_policy());
    let (k4, r4) = expect_tok(ts, c + 2 + nl + n3, SpecToken::RBrace);
    if r1 is Err {
        (k1, Err(r1->Err_0))
    } else if r2 is Err {
        (1 + k2, Err(r2->Err_0))
    } else if r3 is Err {
        (2 + nl + n3, Err(r3->Err_0))
    } else if r4 is Err {
        (2 + nl + n3 + k4, Err(r4->Err_0))
    } else {
        (3 + nl + n3 + newlines(ts, c + 3 + nl + n3), Ok(r3->Ok_0))
    }
}

/// The declarations gathered inside an agent so far.
pub struct SpecAgentParts {
    pub capabilities: Seq<SpecUseDecl>,
    pub handlers: Seq<SpecHandlerDecl>,
    pub functions: Seq<SpecFnDecl>,
    pub channels: Seq<SpecChannelDecl>,
    pub error_policy: Option<SpecErrorPolicy>,
    pub event_policy: Option<SpecEventPolicy>,
    pub ai_policy: Option<SpecAiPolicy>,
}

/// One declaration inside an agent, at `c`, added to `parts`; `None` at `}`.
#[verifier::opaque]
pub open spec fn p_agent_item(ts: Seq<SpecSpannedToken>, c: int, parts: SpecAgentParts) -> Parsed<Option<SpecAgentParts>> {
    match peek(ts, c) {
        SpecToken::Use => {
            let (n, r) = p_use(ts, c);
            (n, match r {
                Ok(u) => Ok(Some(SpecAgentParts { capabilities: parts.capabilities.push(u), ..parts })),
                Err(e) => Err(e),
            })
        },
        SpecToken::On => {
            let (n, r) = p_handler(ts, c);
            (n, match r {
                Ok(h) => Ok(Some(SpecAgentParts { handlers: parts.handlers.push(h), ..parts })),
                Err(e) => Err(e),
            })
        },
        SpecToken::Fn => {
            let (n, r) = p_fn(ts, c);
            (n, match r {
                Ok(f) => Ok(Some(SpecAgentParts { functions: parts.functions.push(f), ..parts })),
                Err(e) => Err(e),
            })
        },
        SpecToken::Channel => {
            let (n, r) = p_channel(ts, c);
            (n, match r {
                Ok(ch) => Ok(Some(SpecAgentParts { channels: parts.channels.push(ch), ..parts })),
                Err(e) => Err(e),
            })
        },
        SpecToken::OnError => {
            let (n, r) = p_error_policy(ts, c);
            (n, match r {
                Ok(p) => Ok(Some(SpecAgentParts { error_policy: Some(p), ..parts })),
                Err(e) => Err(e),
            })
        },
        SpecToken::EventPolicy => {
            let (n, r) = p_event_policy(ts, c);
            (n, match r {
                Ok(p) => Ok(Some(SpecAgentParts { event_policy: Some(p), ..parts })),
                Err(e) => Err(e),
            })
        },
        SpecToken::AiPolicy => {
            let (n, r) = p_ai_policy(ts, c);
            (n, match r {
                Ok(p) => Ok(Some(SpecAgentParts { ai_policy: Some(p), ..parts })),
                Err(e) => Err(e),
            })
        },
        SpecToken::RBrace => (0, Ok(None)),
        _ => (0, Err(unexpected(ts, c, "use, on, fn, channel, on_error, event_policy, ou }"@))),
    }
}

/// Declarations inside an agent, each preceded and followed by newlines,
/// until `}` or end of file.
pub open spec fn p_agent_items(ts: Seq<SpecSpannedToken>, c: int, parts: SpecAgentParts) -> Parsed<SpecAgentParts>
    decreases remaining(ts, c),
{
    if peek(ts, c) is RBrace || peek(ts, c) is Eof {
        (0, Ok(parts))
    } else {
        let nl = newlines(ts, c);
        let (n, r) = p_agent_item(ts, c + nl, parts);
        match r {
            Err(e) => (nl + n, Err(e)),
            Ok(None) => (nl, Ok(parts)),
            Ok(Some(p2)) => {
                let nl2 = newlines(ts, c + nl + n);
                if nl + n + nl2 == 0 {
                    (0, Ok(p2))
                } else {
                    let (m, r2) = p_agent_items(ts, c + nl + n + nl2, p2);
                    (nl + n + nl2 + m, r2)
                }
            },
        }
    }
}

/// The value of a run of decimal digits.
pub open spec fn digits_value(d: Seq<char>) -> int
    decreases d.len(),
{
    if d.len() == 0 {
        0
    } else {
        digits_value(d.drop_last()) * 10 + ((d.last() as u32) as int - 48)
    }
}

/// `c` is one of the digits `0` to `9`.
pub open spec fn is_decimal_digit(c: char) -> bool {
    48 <= (c as u32) && (c as u32) <= 57
}

/// Every character of `d` is a decimal digit.
pub open spec fn all_digits(d: Seq<char>) -> bool {
    forall|k: int| 0 <= k < d.len() ==> is_decimal_digit(#[trigger] d[k])
}

/// The version a word such as `v2` gives after an agent's name: `v`
/// followed by one or more digits whose value fits in 64 bits.
pub open spec fn version_tag(w: Seq<char>) -> Option<u64> {
    let d = w.subrange(1, w.len() as int);
    if w.len() >= 2 && w[0] == 'v' && all_digits(d) && digits_value(d) <= u64::MAX {
        Some(digits_value(d) as u64)
    } else {
        None
    }
}

/// The version an identifier token gives, as `version_tag` reads it.
pub open spec fn ident_version(t: SpecToken) -> Option<u64> {
    match t {
        SpecToken::Identifier(w) => version_tag(w),
        _ => None,
    }
}

proof fn lemma_digits_grow(d: Seq<char>, i: int)
    requires
        all_digits(d),
        0 <= i <= d.len(),
    ensures
        0 <= digits_value(d.take(i)) <= digits_value(d),
    decreases d.len(), i,
{
    if i < d.len() {
        let e = d.drop_last();
        assert(all_digits(e)) by {
            assert forall|k: int| 0 <= k < e.len() implies is_decimal_digit(#[trigger] e[k]) by {
                assert(e[k] == d[k]);
            }
        }
        lemma_digits_grow(e, i);
        lemma_digits_grow(e, e.len() as int);
        assert(e.take(i) =~= d.take(i));
        assert(e.take(e.len() as int) =~= e);
        assert(is_decimal_digit(d[d.len() - 1]));
    } else {
        assert(d.take(i) =~= d);
        if d.len() > 0 {
            lemma_digits_grow(d, i - 1);
            assert(d.take(i - 1) =~= d.drop_last());
            assert(is_decimal_digit(d[d.len() - 1]));
        }
    }
}

/// The version that the word `w` gives after an agent's name.
pub fn version_tag_of(w: &str) -> (r: Option<u64>)
    ensures
        r == version_tag(w@),
{
    let cs = chars_of(w);
    let n = cs.len();
    if n < 2 || cs[0] != 'v' {
        return None;
    }
    let ghost d = w@.subrange(1, n as int);
    let mut acc: u64 = 0;
    let mut i: usize = 1;
    while i < n
        invariant
            1 <= i <= n,
            n == cs@.len(),
            cs@ == w@,
            d == w@.subrange(1, n as int),
            forall|k: int| 0 <= k < i - 1 ==> is_decimal_digit(#[trigger] d[k]),
            acc as int == digits_value(d.take(i - 1)),
        decreases n - i,
    {
        let c = cs[i];
        let code = c as u32;
        assert(d[i - 1] == c);
        if code < 48 || code > 57 {
            assert(!is_decimal_digit(d[i - 1]));
            return None;
        }
        let dig = (code - 48) as u64;
        assert(is_decimal_digit(d[i - 1]));
        assert(d.take(i as int).drop_last() =~= d.take(i - 1));
        assert(d.take(i as int).last() == c);
        if acc > (u64::MAX - dig) / 10 {
            assert(acc * 10 + dig > u64::MAX) by (nonlinear_arith)
                requires
                    acc > (u64::MAX - dig) / 10,
                    dig <= 9,
            ;
            proof {
                if all_digits(d) {
                    lemma_digits_grow(d, i as int);
                }
            }
            return None;
        }
        assert(acc * 10 + dig <= u64::MAX) by (nonlinear_arith)
            requires
                acc <= (u64::MAX - dig) / 10,
                dig <= 9,
        ;
        acc = acc * 10 + dig;
        i = i + 1;
    }
    assert(d.take(n - 1) =~= d);
    Some(acc)
}

/// `agent name [v N | vN] { declarations }`.
#[verifier::opaque]
pub open spec fn p_agent(ts: Seq<SpecSpannedToken>, c: int) -> Parsed<SpecAgentDecl> {
    let span = span_at(ts, c);
    let (k1, r1) = expect_tok(ts, c, SpecToken::Agent);
    let (n2, r2) = p_ident(ts, c + 1, "nome do agent"@);
    let c3 = c + 1 + n2;
    let (n3, r3): Parsed<Option<u64>> = if peek(ts, c3) == SpecToken::Identifier("v"@) {
        let (m, ri) = p_integer(ts, c3 + 1);
        (
            1 + m,
            match ri {
                Ok(v) => Ok(Some(v as u64)),
                Err(e) => Err(e),
            },
        )
    } else if ident_version(peek(ts, c3)) is Some {
        (1, Ok(ident_version(peek(ts, c3))))
    } else {
        (0, Ok(None))
    };
    let (k4, r4) = expect_tok(ts, c3 + n3, SpecToken::LBrace);
    let nl = newlines(ts, c3 + n3 + 1);
    let empty = SpecAgentParts {
        capabilities: Seq::empty(),
        handlers: Seq::empty(),
        functions: Seq::empty(),
        channels: Seq::empty(),
        error_policy: None,
        event_policy: None,
        ai_policy: None,
    };
    let (n5, r5) = p_agent_items(ts, c3 + n3 + 1 + nl, empty);
    let (k6, r6) = expect_tok(ts, c3 + n3 + 1 + nl + n5, SpecToken::RBrace);
    if r1 is Err {
        (k1, Err(r1->Err_0))
    } else if r2 is Err {
        (1 + n2, Err(r2->Err_0))
    } else if r3 is Err {
        (1 + n2 + n3, Err(r3->Err_0))
    } else if r4 is Err {
        (1 + n2 + n3 + k4, Err(r4->Err_0))
    } else if r5 is Err {
        (2 + n2 + n3 + nl + n5, Err(r5->Err_0))
    } else if r6 is Err {
        (2 + n2 + n3 + nl + n5 + k6, Err(r6->Err_0))
    } else {
        let parts = r5->Ok_0;
        (
            3 + n2 + n3 + nl + n5,
            Ok(
                SpecAgentDecl {
                    name: r2->Ok_0,
                    version: r3->Ok_0,
                    capabilities: parts.capabilities,
                    handlers: parts.handlers,
                    functions: parts.functions,
                    error_policy: parts.error_policy,
                    event_policy: parts.event_policy,
                    ai_policy: parts.ai_policy,
                    channels: parts.channels,
                    span,
                },
            ),
        )
    }
}

/// A top-level declaration: an agent, a function or a `let`.
pub open spec fn p_top(ts: Seq<SpecSpannedToken>, c: int) -> Parsed<SpecStmt> {
    match peek(ts, c) {
        SpecToken::Agent => {
            let (n, r) = p_agent(ts, c);
            (n, match r {
                Ok(a) => Ok(SpecStmt::AgentDecl(a)),
                Err(e) => Err(e),
            })
        },
        SpecToken::Fn => {
            let (n, r) = p_fn(ts, c);
            (n, match r {
                Ok(f) => Ok(SpecStmt::FnDecl(f)),
                Err(e) => Err(e),
            })
        },
        SpecToken::Let => p_let(ts, c),
        _ => (0, Err(unexpected(ts, c, "agent, fn, ou let"@))),
    }
}

/// The top-level declarations from `c` to the end of file, each followed by
/// newlines; after an error, the tokens up to where parsing resumes are
/// skipped.  A round that consumes nothing (an error at a token where
/// parsing resumes, such as a stray `}`) ends the parse.
pub open spec fn p_program_from(
    ts: Seq<SpecSpannedToken>,
    c: int,
    stmts: Seq<SpecStmt>,
    errs: Seq<SpecParseError>,
) -> (Seq<SpecStmt>, Seq<SpecParseError>)
    decreases remaining(ts, c),
{
    if peek(ts, c) is Eof {
        (stmts, errs)
    } else {
        let (n, r) = p_top(ts, c);
        let (c2, s2, e2) = match r {
            Ok(s) => (c + n, stmts.push(s), errs),
            Err(e) => (c + n + skipped(ts, c + n), stmts, errs.push(e)),
        };
        let c3 = c2 + newlines(ts, c2);
        if c3 <= c {
            (s2, e2)
        } else {
            p_program_from(ts, c3, s2, e2)
        }
    }
}

/// Some token is an end-of-file token.
pub open spec fn has_eof(ts: Seq<SpecSpannedToken>) -> bool {
    exists|k: int| 0 <= k < ts.len() && #[trigger] ts[k].token is Eof
}

/// The result of parsing the tokens `ts`: the program, or every error when
/// there is one.
pub open spec fn parse_tokens(ts: Seq<SpecSpannedToken>) -> Result<SpecProgram, Seq<SpecParseError>> {
    let (stmts, errs) = p_program_from(ts, newlines(ts, 0) as int, Seq::empty(), Seq::empty());
    if errs.len() == 0 {
        Ok(SpecProgram { stmts, span: span_at(ts, 0) })
    } else {
        Err(errs)
    }
}

// ─── THE PARSER ──────────────────────────────────────────────────

/// A parse result agrees with its model.
pub open spec fn agrees<T: View>(r: Result<T, ParseError>, s: Result<T::V, SpecParseError>) -> bool {
    match (r, s) {
        (Ok(x), Ok(y)) => x@ == y,
        (Err(e), Err(f)) => e@ == f,
        _ => false,
    }
}

/// Whether parsing resumes at `t` after an error.
fn resumes(t: &Token) -> (r: bool)
    ensures
        r == resumes_at(t@),
{
    match t {
        Token::Agent | Token::Fn | Token::On | Token::Let | Token::OnError | Token::EventPolicy | Token::Channel
        | Token::RBrace | Token::Eof => true,
        _ => false,
    }
}

/// `d` put in front of the segments of `r`, when there are any.
pub open spec fn prepend_ok(
    d: Seq<SpecFStringSegment>,
    r: Result<Seq<SpecFStringSegment>, SpecParseError>,
) -> Result<Seq<SpecFStringSegment>, SpecParseError> {
    match r {
        Ok(x) => Ok(d + x),
        Err(e) => Err(e),
    }
}

/// One step of `p_fsegs`: the segment of piece `k`, then the rest.
proof fn lemma_fsegs_step(ts: Seq<SpecSpannedToken>, c: int, k: int, raw: Seq<char>, ps: Seq<FPiece>)
    requires
        peek(ts, c) == SpecToken::FString(raw),
        fstring_pieces(raw, 0, Seq::empty()) == Some(ps),
        0 <= k,
    ensures
        k < ps.len() ==> p_fsegs(ts, c, k) == match p_fseg(ts, c, k) {
            Err(x) => Err(x),
            Ok(g) => prepend_ok(seq![g], p_fsegs(ts, c, k + 1)),
        },
        k >= ps.len() ==> p_fsegs(ts, c, k) == Ok::<Seq<SpecFStringSegment>, SpecParseError>(Seq::empty()),
{
}

// ─── F-STRINGS, EXECUTABLE ───────────────────────────────────────

/// A piece of an f-string's text (see `FPiece`).
enum Piece {
    Text(String),
    Hole(usize, usize, Option<String>),
}

spec fn piece_view(p: Piece) -> FPiece {
    match p {
        Piece::Text(t) => FPiece::Text(t@),
        Piece::Hole(s, e, f) => FPiece::Hole(s as int, e as int, opt_str_view(f)),
    }
}

spec fn pieces_view(v: Seq<Piece>) -> Seq<FPiece> {
    Seq::new(v.len(), |i: int| piece_view(v[i]))
}

fn find_before_at(s: &Vec<char>, c: char, i: usize, j: usize) -> (r: Option<usize>)
    ensures
        match r {
            Some(k) => find_before(s@, c, i as int, j as int) == Some(k as int),
            None => find_before(s@, c, i as int, j as int) == None::<int>,
        },
{
    let mut k = i;
    while k < j && k < s.len()
        invariant
            i <= k,
            find_before(s@, c, i as int, j as int) == find_before(s@, c, k as int, j as int),
        decreases j - k,
    {
        if s[k] == c {
            return Some(k);
        }
        k = k + 1;
    }
    None
}

fn text_piece_of(lit: String) -> (v: Vec<Piece>)
    ensures
        pieces_view(v@) == text_piece(lit@),
{
    let mut v: Vec<Piece> = Vec::new();
    if lit.as_str().unicode_len() != 0 {
        let ghost l = lit@;
        v.push(Piece::Text(lit));
        assert(pieces_view(v@) =~= seq![FPiece::Text(l)]);
    } else {
        assert(pieces_view(v@) =~= Seq::<FPiece>::empty());
    }
    v
}

/// The pieces of the f-string text `raw` from `i` (see `fstring_pieces`).
fn fstring_pieces_at(raw: &Vec<char>, i: usize, lit: String) -> (r: Option<Vec<Piece>>)
    ensures
        match r {
            Some(v) => fstring_pieces(raw@, i as int, lit@) == Some(pieces_view(v@)),
            None => fstring_pieces(raw@, i as int, lit@) is None,
        },
    decreases raw@.len() - i,
{
    if i >= raw.len() {
        return Some(text_piece_of(lit));
    }
    let c = raw[i];
    if (c == '{' || c == '}') && i + 1 < raw.len() && raw[i + 1] == c {
        let mut l = lit;
        push_char(&mut l, c);
        return fstring_pieces_at(raw, i + 2, l);
    }
    if c == '{' {
        match find_char_at(raw, '}', i + 1) {
            None => None,
            Some(j) => {
                proof {
                    lemma_find_char(raw@, '}', i + 1);
                }
                let hole = match find_before_at(raw, ':', i + 1, j) {
                    Some(k) => {
                        proof {
                            lemma_find_before(raw@, ':', i + 1, j as int);
                        }
                        Piece::Hole(i + 1, k, Some(string_from_chars(raw, k + 1, j)))
                    },
                    None => Piece::Hole(i + 1, j, None),
                };
                let ghost hv = piece_view(hole);
                match fstring_pieces_at(raw, j + 1, String::new()) {
                    None => None,
                    Some(rest) => {
                        let ghost rv = pieces_view(rest@);
                        let ghost lv = lit@;
                        let mut v = text_piece_of(lit);
                        let ghost tv = pieces_view(v@);
                        v.push(hole);
                        let mut rest = rest;
                        v.append(&mut rest);
                        assert(pieces_view(v@) =~= tv + seq![hv] + rv);
                        Some(v)
                    },
                }
            },
        }
    } else {
        let mut l = lit;
        push_char(&mut l, c);
        fstring_pieces_at(raw, i + 1, l)
    }
}

fn copy_opt_string(o: &Option<String>) -> (r: Option<String>)
    ensures
        opt_str_view(r) == opt_str_view(*o),
{
    match o {
        Some(t) => Some(t.clone()),
        None => None,
    }
}

/// `a + b`, or `usize::MAX` when that does not fit.
fn clamp_add(a: usize, b: usize) -> (r: usize)
    ensures
        r == clamp(a + b),
{
    if a <= usize::MAX - b {
        a + b
    } else {
        usize::MAX
    }
}

proof fn lemma_placed_clamped(inner: Seq<SpecSpannedToken>, base: int, at: (usize, usize))
    requires
        base >= 0,
        forall|k: int| 0 <= k < inner.len() ==> (#[trigger] inner[k]).span.start >= 0,
    ensures
        placed(inner, clamp(base) as int, at) == placed(inner, base, at),
{
    assert(placed(inner, clamp(base) as int, at) =~= placed(inner, base, at));
}

/// The tokens `inner` placed in the source (see `placed`).
fn place_tokens(inner: Vec<SpannedToken>, base: usize, line: usize, column: usize) -> (r: Vec<SpannedToken>)
    ensures
        tokens_view(r@) == placed(tokens_view(inner@), base as int, (line, column)),
{
    let ghost goal = placed(tokens_view(inner@), base as int, (line, column));
    let ghost orig = inner@;
    let mut rest = inner;
    let mut out: Vec<SpannedToken> = Vec::new();
    while rest.len() > 0
        invariant
            out@.len() + rest@.len() == orig.len(),
            rest@ == orig.subrange(out@.len() as int, orig.len() as int),
            goal == placed(tokens_view(orig), base as int, (line, column)),
            forall|j: int| 0 <= j < out@.len() ==> #[trigger] out@[j]@ == goal[j],
        decreases rest@.len(),
    {
        let t = rest.remove(0);
        let ghost j = out@.len() as int;
        assert(t == orig[j]);
        out.push(SpannedToken {
            token: t.token,
            span: Span { start: clamp_add(t.span.start, base), end: clamp_add(t.span.end, base) },
            line,
            column,
        });
        assert(rest@ =~= orig.subrange(out@.len() as int, orig.len() as int));
    }
    assert(tokens_view(out@) =~= goal);
    out
}

/// A recursive-descent parser over a list of tokens.
pub struct Parser {
    tokens: Vec<SpannedToken>,
    cursor: usize,
}

impl Parser {
    /// The tokens being parsed.
    pub closed spec fn toks(&self) -> Seq<SpecSpannedToken> {
        tokens_view(self.tokens@)
    }

    /// The position of the next token.
    pub closed spec fn pos(&self) -> int {
        self.cursor as int
    }

    /// An end-of-file token lies at or after the current position.
    pub closed spec fn wf(&self) -> bool {
        exists|k: int| self.cursor <= k < self.tokens@.len() && #[trigger] self.tokens@[k].token@ is Eof
    }

    /// `next` is this parser after consuming what `p` says, with the same
    /// tokens.
    pub open spec fn stepped<V>(&self, next: &Self, p: Parsed<V>) -> bool {
        &&& next.wf()
        &&& next.toks() == self.toks()
        &&& next.pos() == self.pos() + p.0
    }

    /// A parser at the first of `tokens`.
    pub fn new(tokens: Vec<SpannedToken>) -> (p: Self)
        ensures
            p.toks() == tokens_view(tokens@),
            p.pos() == 0,
    {
        Parser { tokens, cursor: 0 }
    }

    proof fn lemma_wf(&self)
        requires
            self.wf(),
        ensures
            0 <= self.pos() < self.toks().len(),
            self.toks().len() == self.tokens@.len(),
            forall|i: int| 0 <= i < self.tokens@.len() ==> #[trigger] self.toks()[i] == self.tokens@[i]@,
    {
    }

    /// The token at the current position.
    fn peek(&self) -> (t: &Token)
        requires
            self.wf(),
        ensures
            t@ == peek(self.toks(), self.pos()),
    {
        proof {
            self.lemma_wf();
        }
        &self.tokens[self.cursor].token
    }

    /// Whether the current token is `t`.
    fn check(&self, t: &Token) -> (r: bool)
        requires
            self.wf(),
        ensures
            r == (peek(self.toks(), self.pos()) == t@),
    {
        same_token(self.peek(), t)
    }

    /// Moves past the current token, which is not the end of file.
    fn advance(&mut self)
        requires
            old(self).wf(),
            !(peek(old(self).toks(), old(self).pos()) is Eof),
        ensures
            old(self).stepped(final(self), (1nat, Ok::<(), SpecParseError>(()))),
    {
        proof {
            self.lemma_wf();
            let k = choose|k: int| self.cursor <= k < self.tokens@.len() && #[trigger] self.tokens@[k].token@ is Eof;
            assert(k > self.cursor);
        }
        if self.cursor < self.tokens.len() - 1 {
            self.cursor = self.cursor + 1;
        }
        proof {
            let k = choose|k: int| old(self).cursor <= k < self.tokens@.len() && #[trigger] self.tokens@[k].token@ is Eof;
            assert(self.cursor <= k);
        }
    }

    /// Line and column of the current token.
    fn loc(&self) -> (r: (usize, usize))
        requires
            self.wf(),
        ensures
            r == loc(self.toks(), self.pos()),
    {
        proof {
            self.lemma_wf();
        }
        (self.tokens[self.cursor].line, self.tokens[self.cursor].column)
    }

    /// Span of the current token.
    fn current_span(&self) -> (r: Span)
        requires
            self.wf(),
        ensures
            r == span_at(self.toks(), self.pos()),
    {
        proof {
            self.lemma_wf();
        }
        Span { start: self.tokens[self.cursor].span.start, end: self.tokens[self.cursor].span.end }
    }

    /// "Expected `expected`, found the current token".
    fn unexpected(&self, expected: String) -> (e: ParseError)
        requires
            self.wf(),
        ensures
            e@ == unexpected(self.toks(), self.pos(), expected@),
    {
        let (line, column) = self.loc();
        ParseError::UnexpectedToken { expected, found: token_debug(self.peek()), line, column }
    }

    /// Consumes the token `t`.
    fn expect(&mut self, t: &Token) -> (r: Result<(), ParseError>)
        requires
            old(self).wf(),
            !(t@ is Eof),
        ensures
            old(self).stepped(final(self), expect_tok(old(self).toks(), old(self).pos(), t@)),
            agrees(r, expect_tok(old(self).toks(), old(self).pos(), t@).1),
    {
        if self.check(t) {
            self.advance();
            Ok(())
        } else {
            Err(self.unexpected(token_debug(t)))
        }
    }

    /// Moves past newlines.
    fn skip_newlines(&mut self)
        requires
            old(self).wf(),
        ensures
            old(self).stepped(final(self), (newlines(old(self).toks(), old(self).pos()), Ok::<(), SpecParseError>(()))),
    {
        let ghost ts = self.toks();
        let ghost c0 = self.pos();
        while self.check(&Token::Newline)
            invariant
                self.wf(),
                self.toks() == ts,
                self.pos() >= c0,
                newlines(ts, c0) == (self.pos() - c0) + newlines(ts, self.pos()),
            decreases remaining(ts, self.pos()),
        {
            assert(peek(ts, self.pos()) is Newline);
            self.advance();
        }
    }

    /// Moves to the next token at which parsing resumes after an error.
    fn synchronize(&mut self)
        requires
            old(self).wf(),
        ensures
            old(self).stepped(final(self), (skipped(old(self).toks(), old(self).pos()), Ok::<(), SpecParseError>(()))),
    {
        let ghost ts = self.toks();
        let ghost c0 = self.pos();
        loop
            invariant
                self.wf(),
                self.toks() == ts,
                self.pos() >= c0,
                ts == old(self).toks(),
                c0 == old(self).pos(),
                skipped(ts, c0) == (self.pos() - c0) + skipped(ts, self.pos()),
            decreases remaining(ts, self.pos()),
        {
            if resumes(self.peek()) {
                return;
            }
            self.advance();
        }
    }

    // ── values ──

    fn parse_identifier(&mut self, context: &str) -> (r: Result<String, ParseError>)
        requires
            old(self).wf(),
        ensures
            old(self).stepped(final(self), p_ident(old(self).toks(), old(self).pos(), context@)),
            agrees(r, p_ident(old(self).toks(), old(self).pos(), context@).1),
    {
        let (line, column) = self.loc();
        match self.peek() {
            Token::Identifier(name) => {
                let n = name.clone();
                self.advance();
                Ok(n)
            },
            _ => Err(ParseError::ExpectedIdentifier { context: string_of(context), line, column }),
        }
    }

    fn parse_string_value(&mut self) -> (r: Result<String, ParseError>)
        requires
            old(self).wf(),
        ensures
            old(self).stepped(final(self), p_string(old(self).toks(), old(self).pos())),
            agrees(r, p_string(old(self).toks(), old(self).pos()).1),
    {
        match self.peek() {
            Token::StringLit(s) => {
                let v = s.clone();
                self.advance();
                Ok(v)
            },
            _ => Err(self.unexpected(string_of("string"))),
        }
    }

    fn parse_integer(&mut self) -> (r: Result<i64, ParseError>)
        requires
            old(self).wf(),
        ensures
            old(self).stepped(final(self), p_integer(old(self).toks(), old(self).pos())),
            agrees(r, p_integer(old(self).toks(), old(self).pos()).1),
    {
        match self.peek() {
            Token::Integer(n) => {
                let v = *n;
                self.advance();
                Ok(v)
            },
            _ => Err(self.unexpected(string_of("inteiro"))),
        }
    }

    fn parse_bool_value(&mut self) -> (r: Result<bool, ParseError>)
        requires
            old(self).wf(),
        ensures
            old(self).stepped(final(self), p_bool(old(self).toks(), old(self).pos())),
            agrees(r, p_bool(old(self).toks(), old(self).pos()).1),
    {
        match self.peek() {
            Token::True => {
                self.advance();
                Ok(true)
            },
            Token::False => {
                self.advance();
                Ok(false)
            },
            _ => Err(self.unexpected(string_of("true ou false"))),
        }
    }

    fn parse_type_expr(&mut self) -> (r: Result<TypeExpr, ParseError>)
        requires
            old(self).wf(),
        ensures
            old(self).stepped(final(self), p_type(old(self).toks(), old(self).pos())),
            agrees(r, p_type(old(self).toks(), old(self).pos()).1),
    {
        match self.peek() {
            Token::Identifier(name) => {
                let base = if *name == string_of("Int") {
                    TypeExpr::Int
                } else if *name == string_of("Float") {
                    TypeExpr::Float
                } else if *name == string_of("String") {
                    TypeExpr::String
                } else if *name == string_of("Bool") {
                    TypeExpr::Bool
                } else if *name == string_of("Null") {
                    TypeExpr::Null
                } else {
                    TypeExpr::Named(name.clone())
                };
                assert(base@ == named_type(name@));
                self.advance();
                if self.check(&Token::Identifier(string_of("?"))) {
                    Ok(TypeExpr::Optional(Box::new(base)))
                } else {
                    Ok(base)
                }
            },
            _ => Err(self.unexpected(string_of("tipo"))),
        }
    }

    // ── expressions ──

    /// Parses an expression.
    fn parse_expr(&mut self) -> (r: Result<Expr, ParseError>)
        requires
            old(self).wf(),
        ensures
            old(self).stepped(final(self), p_expr(old(self).toks(), old(self).pos())),
            agrees(r, p_expr(old(self).toks(), old(self).pos()).1),
            r is Ok ==> final(self).pos() > old(self).pos(),
        decreases measure(old(self).toks(), old(self).pos()), 20nat,
    {
        self.parse_level(5)
    }

    /// Level `k` of binary operators (5 `or`, 4 `and`, 3 equality,
    /// 2 comparison, 1 additive, 0 multiplicative), left-associative.
    fn parse_level(&mut self, k: usize) -> (r: Result<Expr, ParseError>)
        requires
            old(self).wf(),
            k <= 5,
        ensures
            old(self).stepped(final(self), p_level(old(self).toks(), old(self).pos(), k as nat)),
            agrees(r, p_level(old(self).toks(), old(self).pos(), k as nat).1),
            r is Ok ==> final(self).pos() > old(self).pos(),
        decreases measure(old(self).toks(), old(self).pos()), 2 * k + 5,
    {
        let ghost ts = self.toks();
        let ghost c0 = self.pos();
        let mut l = match self.parse_operand(k) {
            Ok(x) => x,
            Err(e) => return Err(e),
        };
        loop
            invariant
                self.wf(),
                self.toks() == ts,
                ts == old(self).toks(),
                c0 == old(self).pos(),
                self.pos() > c0,
                k <= 5,
                p_level(ts, c0, k as nat).0 == (self.pos() - c0) + p_level_tail(ts, self.pos(), k as nat, l@).0,
                p_level(ts, c0, k as nat).1 == p_level_tail(ts, self.pos(), k as nat, l@).1,
            decreases remaining(ts, self.pos()),
        {
            match level_binop(k, self.peek()) {
                None => {
                    return Ok(l);
                },
                Some(op) => {
                    let span = self.current_span();
                    self.advance();
                    let rt = match self.parse_operand(k) {
                        Ok(x) => x,
                        Err(e) => {
                            return Err(e);
                        },
                    };
                    l = Expr::BinOp { op, left: Box::new(l), right: Box::new(rt), span };
                },
            }
        }
    }

    /// An operand of level `k`.
    fn parse_operand(&mut self, k: usize) -> (r: Result<Expr, ParseError>)
        requires
            old(self).wf(),
            k <= 5,
        ensures
            old(self).stepped(final(self), p_operand(old(self).toks(), old(self).pos(), k as nat)),
            agrees(r, p_operand(old(self).toks(), old(self).pos(), k as nat).1),
            r is Ok ==> final(self).pos() > old(self).pos(),
        decreases measure(old(self).toks(), old(self).pos()), 2 * k + 4,
    {
        if k == 0 {
            self.parse_unary()
        } else {
            self.parse_level(k - 1)
        }
    }

    /// `not` and `-` prefixes, then a call chain.
    fn parse_unary(&mut self) -> (r: Result<Expr, ParseError>)
        requires
            old(self).wf(),
        ensures
            old(self).stepped(final(self), p_unary(old(self).toks(), old(self).pos())),
            agrees(r, p_unary(old(self).toks(), old(self).pos()).1),
            r is Ok ==> final(self).pos() > old(self).pos(),
        decreases measure(old(self).toks(), old(self).pos()), 3nat,
    {
        let span = self.current_span();
        let op = match self.peek() {
            Token::Not => Some(UnaryOp::Not),
            Token::Minus => Some(UnaryOp::Neg),
            _ => None,
        };
        match op {
            Some(o) => {
                self.advance();
                match self.parse_unary() {
                    Ok(e) => Ok(Expr::UnaryOp { op: o, operand: Box::new(e), span }),
                    Err(e) => Err(e),
                }
            },
            None => self.parse_call(),
        }
    }

    /// A primary expression followed by calls, field accesses and indexing.
    fn parse_call(&mut self) -> (r: Result<Expr, ParseError>)
        requires
            old(self).wf(),
        ensures
            old(self).stepped(final(self), p_call(old(self).toks(), old(self).pos())),
            agrees(r, p_call(old(self).toks(), old(self).pos()).1),
            r is Ok ==> final(self).pos() > old(self).pos(),
        decreases measure(old(self).toks(), old(self).pos()), 2nat,
    {
        let ghost ts = self.toks();
        let ghost c0 = self.pos();
        let mut expr = match self.parse_primary() {
            Ok(x) => x,
            Err(e) => return Err(e),
        };
        loop
            invariant
                self.wf(),
                self.toks() == ts,
                ts == old(self).toks(),
                c0 == old(self).pos(),
                self.pos() > c0,
                p_call(ts, c0).0 == (self.pos() - c0) + p_call_tail(ts, self.pos(), expr@).0,
                p_call(ts, c0).1 == p_call_tail(ts, self.pos(), expr@).1,
            decreases remaining(ts, self.pos()),
        {
            let ghost before = expr@;
            match self.parse_suffix(expr) {
                Err(e) => {
                    return Err(e);
                },
                Ok((applied, y)) => {
                    if !applied {
                        return Ok(y);
                    }
                    expr = y;
                },
            }
        }
    }

    /// One call, field access or indexing applied to `x`; gives back `x`
    /// unchanged (and `false`) when none starts here.
    fn parse_suffix(&mut self, x: Expr) -> (r: Result<(bool, Expr), ParseError>)
        requires
            old(self).wf(),
        ensures
            old(self).stepped(final(self), p_suffix(old(self).toks(), old(self).pos(), x@)),
            match (r, p_suffix(old(self).toks(), old(self).pos(), x@).1) {
                (Ok((true, y)), Ok(Some(z))) => y@ == z && final(self).pos() > old(self).pos(),
                (Ok((false, y)), Ok(None)) => y@ == x@,
                (Err(e), Err(f)) => e@ == f,
                _ => false,
            },
        decreases measure(old(self).toks(), old(self).pos()), 1nat,
    {
        match self.peek() {
            Token::LParen => self.parse_call_args(x),
            Token::Dot => self.parse_field(x),
            Token::LBracket => self.parse_index(x),
            _ => Ok((false, x)),
        }
    }

    /// `(args)` applied to `x`, from the `(`.
    fn parse_call_args(&mut self, x: Expr) -> (r: Result<(bool, Expr), ParseError>)
        requires
            old(self).wf(),
            peek(old(self).toks(), old(self).pos()) is LParen,
        ensures
            old(self).stepped(final(self), p_call_args(old(self).toks(), old(self).pos(), x@)),
            match (r, p_call_args(old(self).toks(), old(self).pos(), x@).1) {
                (Ok((true, y)), Ok(Some(z))) => y@ == z && final(self).pos() > old(self).pos(),
                (Err(e), Err(f)) => e@ == f,
                _ => false,
            },
        decreases measure(old(self).toks(), old(self).pos()), 0nat,
    {
        let span = self.current_span();
        self.advance();
        let args = match self.parse_arg_list() {
            Ok(a) => a,
            Err(e) => return Err(e),
        };
        match self.expect(&Token::RParen) {
            Ok(_) => {},
            Err(e) => return Err(e),
        }
        let ghost xv = x@;
        let ghost av = exprs_view(args@);
        let y = Expr::Call { callee: Box::new(x), args, span };
        assert(y@ == (SpecExpr::Call { callee: Box::new(xv), args: av, span })) by {
            assert(y@->args =~= av);
        }
        Ok((true, y))
    }

    /// `.name` applied to `x`, from the `.`.
    fn parse_field(&mut self, x: Expr) -> (r: Result<(bool, Expr), ParseError>)
        requires
            old(self).wf(),
            peek(old(self).toks(), old(self).pos()) is Dot,
        ensures
            old(self).stepped(final(self), p_field(old(self).toks(), old(self).pos(), x@)),
            match (r, p_field(old(self).toks(), old(self).pos(), x@).1) {
                (Ok((true, y)), Ok(Some(z))) => y@ == z && final(self).pos() > old(self).pos(),
                (Err(e), Err(f)) => e@ == f,
                _ => false,
            },
    {
        let span = self.current_span();
        self.advance();
        let field = match self.parse_identifier("acesso a campo") {
            Ok(f) => f,
            Err(e) => return Err(e),
        };
        Ok((true, Expr::FieldAccess { object: Box::new(x), field, span }))
    }

    /// `[index]` applied to `x`, from the `[`.
    fn parse_index(&mut self, x: Expr) -> (r: Result<(bool, Expr), ParseError>)
        requires
            old(self).wf(),
            peek(old(self).toks(), old(self).pos()) is LBracket,
        ensures
            old(self).stepped(final(self), p_index(old(self).toks(), old(self).pos(), x@)),
            match (r, p_index(old(self).toks(), old(self).pos(), x@).1) {
                (Ok((true, y)), Ok(Some(z))) => y@ == z && final(self).pos() > old(self).pos(),
                (Err(e), Err(f)) => e@ == f,
                _ => false,
            },
        decreases measure(old(self).toks(), old(self).pos()), 0nat,
    {
        let span = self.current_span();
        self.advance();
        let index = match self.parse_expr() {
            Ok(i) => i,
            Err(e) => return Err(e),
        };
        match self.expect(&Token::RBracket) {
            Ok(_) => {},
            Err(e) => return Err(e),
        }
        Ok((true, Expr::Index { object: Box::new(x), index: Box::new(index), span }))
    }

    /// Arguments of a call, up to `)`.
    fn parse_arg_list(&mut self) -> (r: Result<Vec<Expr>, ParseError>)
        requires
            old(self).wf(),
        ensures
            old(self).stepped(final(self), p_list(old(self).toks(), old(self).pos(), SpecToken::RParen)),
            exprs_agree(r, p_list(old(self).toks(), old(self).pos(), SpecToken::RParen).1),
        decreases measure(old(self).toks(), old(self).pos()), 22nat,
    {
        self.parse_list(&Token::RParen)
    }

    /// Comma-separated expressions up to `close`.
    fn parse_list(&mut self, close: &Token) -> (r: Result<Vec<Expr>, ParseError>)
        requires
            old(self).wf(),
        ensures
            old(self).stepped(final(self), p_list(old(self).toks(), old(self).pos(), close@)),
            exprs_agree(r, p_list(old(self).toks(), old(self).pos(), close@).1),
        decreases measure(old(self).toks(), old(self).pos()), 21nat,
    {
        let ghost ts = self.toks();
        let ghost c0 = self.pos();
        let mut items: Vec<Expr> = Vec::new();
        if self.check(close) {
            assert(exprs_view(items@) =~= Seq::<SpecExpr>::empty());
            return Ok(items);
        }
        let first = match self.parse_expr() {
            Ok(x) => x,
            Err(e) => return Err(e),
        };
        let ghost fv = first@;
        items.push(first);
        assert(exprs_view(items@) =~= seq![fv]);
        loop
            invariant
                self.wf(),
                self.toks() == ts,
                ts == old(self).toks(),
                c0 == old(self).pos(),
                self.pos() > c0,
                p_list(ts, c0, close@).0 == (self.pos() - c0) + p_list_tail(ts, self.pos(), exprs_view(items@)).0,
                p_list(ts, c0, close@).1 == p_list_tail(ts, self.pos(), exprs_view(items@)).1,
            decreases remaining(ts, self.pos()),
        {
            if !self.check(&Token::Comma) {
                return Ok(items);
            }
            self.advance();
            let x = match self.parse_expr() {
                Ok(x) => x,
                Err(e) => {
                    return Err(e);
                },
            };
            let ghost before = exprs_view(items@);
            let ghost xv = x@;
            items.push(x);
            assert(exprs_view(items@) =~= before.push(xv));
        }
    }

    /// A literal, an identifier, a parenthesized expression, a list or an
    /// f-string.
    #[verifier::spinoff_prover]
    #[verifier::rlimit(30)]
    fn parse_primary(&mut self) -> (r: Result<Expr, ParseError>)
        requires
            old(self).wf(),
        ensures
            old(self).stepped(final(self), p_primary(old(self).toks(), old(self).pos())),
            agrees(r, p_primary(old(self).toks(), old(self).pos()).1),
            r is Ok ==> final(self).pos() > old(self).pos(),
        decreases measure(old(self).toks(), old(self).pos()), 1nat,
    {
        let span = self.current_span();
        match literal_of(self.peek()) {
            Some(l) => {
                self.advance();
                return Ok(Expr::Literal(l, span));
            },
            None => {},
        }
        match self.peek() {
            Token::Identifier(name) => {
                let n = name.clone();
                self.advance();
                Ok(Expr::Identifier(n, span))
            },
            Token::LParen => {
                self.advance();
                let e = match self.parse_expr() {
                    Ok(x) => x,
                    Err(e) => return Err(e),
                };
                match self.expect(&Token::RParen) {
                    Ok(_) => Ok(e),
                    Err(err) => Err(err),
                }
            },
            Token::LBracket => self.parse_list_literal(span),
            Token::FString(_) => self.parse_fstring(span),
            _ => Err(self.unexpected(string_of("expressão"))),
        }
    }

    /// An f-string, from its token: its pieces, each expression lexed and
    /// parsed on tokens of its own placed where it stands in the source.
    #[verifier::spinoff_prover]
    #[verifier::rlimit(30)]
    fn parse_fstring(&mut self, span: Span) -> (r: Result<Expr, ParseError>)
        requires
            old(self).wf(),
            peek(old(self).toks(), old(self).pos()) is FString,
            span == span_at(old(self).toks(), old(self).pos()),
        ensures
            old(self).stepped(final(self), p_primary(old(self).toks(), old(self).pos())),
            agrees(r, p_primary(old(self).toks(), old(self).pos()).1),
            r is Ok ==> final(self).pos() > old(self).pos(),
        decreases measure(old(self).toks(), old(self).pos() + 1), 1nat,
    {
        let ghost ts = self.toks();
        let ghost c = self.pos();
        proof {
            self.lemma_wf();
        }
        let raw: Vec<char> = match self.peek() {
            Token::FString(t) => chars_of(t.as_str()),
            _ => Vec::new(),
        };
        let ghost raw_s = raw@;
        assert(peek(ts, c) == SpecToken::FString(raw_s));
        let pieces = match fstring_pieces_at(&raw, 0, String::new()) {
            None => {
                return Err(self.unexpected(string_of("RBrace")));
            },
            Some(v) => v,
        };
        let ghost ps = pieces_view(pieces@);
        proof {
            assert(prepend_ok(Seq::empty(), p_fsegs(ts, c, 0)) == p_fsegs(ts, c, 0)) by {
                if let Ok(x) = p_fsegs(ts, c, 0) {
                    assert(Seq::<SpecFStringSegment>::empty() + x =~= x);
                }
            }
        }
        let (line, column) = self.loc();
        let mut segs: Vec<FStringSegment> = Vec::new();
        let mut k: usize = 0;
        while k < pieces.len()
            invariant
                self.wf(),
                self.toks() == ts,
                self.pos() == c,
                ts == old(self).toks(),
                c == old(self).pos(),
                raw@ == raw_s,
                peek(ts, c) == SpecToken::FString(raw_s),
                fstring_pieces(raw_s, 0, Seq::empty()) == Some(ps),
                pieces_view(pieces@) == ps,
                k <= pieces@.len(),
                (line, column) == loc(ts, c),
                span == span_at(ts, c),
                p_fsegs(ts, c, 0) == prepend_ok(segs_view(segs@), p_fsegs(ts, c, k as int)),
            decreases pieces@.len() - k,
        {
            proof {
                lemma_fsegs_step(ts, c, k as int, raw_s, ps);
                assert(ps[k as int] == piece_view(pieces@[k as int]));
            }
            let ghost before = segs_view(segs@);
            let g = match self.parse_fseg(&raw, &pieces[k], Ghost(k as int), line, column, span) {
                Err(e) => {
                    proof {
                        assert(p_fseg(ts, c, k as int) == Err::<SpecFStringSegment, SpecParseError>(e@));
                        assert(p_fsegs(ts, c, 0) == Err::<Seq<SpecFStringSegment>, SpecParseError>(e@));
                    }
                    return Err(e);
                },
                Ok(g) => g,
            };
            segs.push(g);
            proof {
                assert(segs_view(segs@) =~= before.push(seg_view(g)));
                if let Ok(gs) = p_fsegs(ts, c, k + 1) {
                    assert(seq![seg_view(g)] + gs == seq![seg_view(g)] + gs);
                    assert(before + (seq![seg_view(g)] + gs) =~= before.push(seg_view(g)) + gs);
                }
            }
            k = k + 1;
        }
        proof {
            lemma_fsegs_step(ts, c, k as int, raw_s, ps);
            assert(segs_view(segs@) + Seq::<SpecFStringSegment>::empty() =~= segs_view(segs@));
        }
        self.advance();
        let ghost sv = segs_view(segs@);
        let x = Expr::FString(segs, span);
        assert(x@ == SpecExpr::FString(sv, span)) by {
            assert(x@->FString_0 =~= sv);
        }
        Ok(x)
    }

    /// The segment that piece `k` (`piece`) of the f-string at the current
    /// token gives (see `p_fseg`).
    #[verifier::spinoff_prover]
    #[verifier::rlimit(30)]
    fn parse_fseg(
        &self,
        raw: &Vec<char>,
        piece: &Piece,
        Ghost(k): Ghost<int>,
        line: usize,
        column: usize,
        span: Span,
    ) -> (r: Result<FStringSegment, ParseError>)
        requires
            self.wf(),
            peek(self.toks(), self.pos()) == SpecToken::FString(raw@),
            fstring_pieces(raw@, 0, Seq::empty()) matches Some(ps) && 0 <= k < ps.len() && ps[k] == piece_view(*piece),
            (line, column) == loc(self.toks(), self.pos()),
            span == span_at(self.toks(), self.pos()),
        ensures
            match (r, p_fseg(self.toks(), self.pos(), k)) {
                (Ok(g), Ok(h)) => seg_view(g) == h,
                (Err(e), Err(f)) => e@ == f,
                _ => false,
            },
        decreases measure(self.toks(), self.pos() + 1), 0nat,
    {
        let ghost ts = self.toks();
        let ghost c = self.pos();
        let ghost raw_s = raw@;
        proof {
            self.lemma_wf();
            lemma_fstring_holes(raw_s, 0, Seq::empty());
        }
        match piece {
            Piece::Text(t) => Ok(FStringSegment::Lit(t.clone())),
            Piece::Hole(a, b, spec) => {
                let ghost ps = fstring_pieces(raw_s, 0, Seq::empty())->Some_0;
                assert(ps[k] matches FPiece::Hole(x, y, _) ==> 1 <= x <= y < raw_s.len());
                let text = string_from_chars(raw, *a, *b);
                proof {
                    lemma_lexed(text@);
                }
                let inner = match lex(text.as_str()) {
                    Err(_) => {
                        return Err(self.unexpected(string_of("expressão")));
                    },
                    Ok(v) => v,
                };
                let ghost inner_s = tokens_view(inner@);
                let nb = bytes_between(raw, 0, *a);
                let total: u128 = span.start as u128 + 2 + nb;
                let base: usize = if total > usize::MAX as u128 {
                    usize::MAX
                } else {
                    total as usize
                };
                let ghost big = span.start + 2 + bytes_len(raw_s.subrange(0, *a as int));
                proof {
                    assert(base == clamp(big));
                    lemma_placed_clamped(inner_s, big, (line, column));
                }
                let placed_v = place_tokens(inner, base, line, column);
                let ghost ts2 = tokens_view(placed_v@);
                proof {
                    lemma_inner_bytes(raw_s, *a as int, *b as int);
                    lemma_lexed_weight(text@);
                    lemma_placed_weight(inner_s, big, loc(ts, c));
                    lemma_weight_at(ts, c);
                    assert(ts2 == placed(inner_s, big, loc(ts, c)));
                }
                let mut sub = Parser::new(placed_v);
                proof {
                    let last = inner_s.len() - 1;
                    assert(inner_s[last].token is Eof);
                    assert(ts2[last].token is Eof);
                    assert(sub.tokens@[last]@ == ts2[last]);
                }
                let x = match sub.parse_expr() {
                    Err(err) => {
                        return Err(err);
                    },
                    Ok(x) => x,
                };
                if !sub.check(&Token::Eof) {
                    return Err(sub.unexpected(string_of("RBrace")));
                }
                let f = copy_opt_string(spec);
                Ok(FStringSegment::Expr(x, f))
            },
        }
    }

    /// `[items]`, from the `[`.
    fn parse_list_literal(&mut self, span: Span) -> (r: Result<Expr, ParseError>)
        requires
            old(self).wf(),
            peek(old(self).toks(), old(self).pos()) is LBracket,
            span == span_at(old(self).toks(), old(self).pos()),
        ensures
            old(self).stepped(final(self), p_primary(old(self).toks(), old(self).pos())),
            agrees(r, p_primary(old(self).toks(), old(self).pos()).1),
            r is Ok ==> final(self).pos() > old(self).pos(),
        decreases measure(old(self).toks(), old(self).pos()), 0nat,
    {
        self.advance();
        let items = match self.parse_list(&Token::RBracket) {
            Ok(a) => a,
            Err(e) => return Err(e),
        };
        match self.expect(&Token::RBracket) {
            Ok(_) => {
                let ghost iv = exprs_view(items@);
                let x = Expr::List(items, span);
                assert(x@ == SpecExpr::List(iv, span)) by {
                    assert(x@->List_0 =~= iv);
                }
                Ok(x)
            },
            Err(err) => Err(err),
        }
    }

    // ── statements ──

    /// A block: `{`, statements, `}`.
    fn parse_block(&mut self) -> (r: Result<Block, ParseError>)
        requires
            old(self).wf(),
        ensures
            old(self).stepped(final(self), p_block(old(self).toks(), old(self).pos())),
            agrees(r, p_block(old(self).toks(), old(self).pos()).1),
        decreases remaining(old(self).toks(), old(self).pos()), 4nat,
    {
        let ghost ts = self.toks();
        let ghost c0 = self.pos();
        let span = self.current_span();
        match self.expect(&Token::LBrace) {
            Ok(_) => {},
            Err(e) => return Err(e),
        }
        self.skip_newlines();
        let ghost c1 = self.pos();
        let mut stmts: Vec<Stmt> = Vec::new();
        assert(stmts_view(stmts@) =~= Seq::<SpecStmt>::empty());
        while !self.check(&Token::RBrace) && !self.check(&Token::Eof)
            invariant
                self.wf(),
                self.toks() == ts,
                ts == old(self).toks(),
                c0 == old(self).pos(),
                c1 > c0,
                self.pos() >= c1,
                peek(ts, c0) is LBrace,
                c1 == c0 + 1 + newlines(ts, c0 + 1),
                p_block_body(ts, c1, Seq::empty()).0 == (self.pos() - c1) + p_block_body(
                    ts,
                    self.pos(),
                    stmts_view(stmts@),
                ).0,
                p_block_body(ts, c1, Seq::empty()).1 == p_block_body(ts, self.pos(), stmts_view(stmts@)).1,
            decreases remaining(ts, self.pos()),
        {
            let s = match self.parse_stmt() {
                Ok(s) => s,
                Err(e) => {
                    return Err(e);
                },
            };
            self.skip_newlines();
            let ghost before = stmts_view(stmts@);
            let ghost sv = s@;
            stmts.push(s);
            assert(stmts_view(stmts@) =~= before.push(sv));
        }
        match self.expect(&Token::RBrace) {
            Ok(_) => {},
            Err(e) => return Err(e),
        }
        let ghost sv = stmts_view(stmts@);
        let b = Block { stmts, span };
        assert(b@.stmts =~= sv);
        Ok(b)
    }

    /// A statement.
    fn parse_stmt(&mut self) -> (r: Result<Stmt, ParseError>)
        requires
            old(self).wf(),
        ensures
            old(self).stepped(final(self), p_stmt(old(self).toks(), old(self).pos())),
            agrees(r, p_stmt(old(self).toks(), old(self).pos()).1),
            r is Ok ==> final(self).pos() > old(self).pos(),
        decreases remaining(old(self).toks(), old(self).pos()), 2nat,
    {
        match self.peek() {
            Token::Let => self.parse_let_stmt(),
            Token::Return => self.parse_return_stmt(),
            Token::If => match self.parse_if_stmt() {
                Ok(i) => Ok(Stmt::IfStmt(i)),
                Err(e) => Err(e),
            },
            Token::While => self.parse_while_stmt(),
            Token::For => self.parse_for_stmt(),
            Token::Do => self.parse_effect_stmt(),
            Token::Send => self.parse_send_stmt(),
            _ => self.parse_assign_or_expr_stmt(),
        }
    }

    /// `let name [: type] = expr`.
    fn parse_let_stmt(&mut self) -> (r: Result<Stmt, ParseError>)
        requires
            old(self).wf(),
        ensures
            old(self).stepped(final(self), p_let(old(self).toks(), old(self).pos())),
            agrees(r, p_let(old(self).toks(), old(self).pos()).1),
            r is Ok ==> final(self).pos() > old(self).pos(),
    {
        reveal(p_let);
        let span = self.current_span();
        match self.expect(&Token::Let) {
            Ok(_) => {},
            Err(e) => return Err(e),
        }
        let name = match self.parse_identifier("let statement") {
            Ok(n) => n,
            Err(e) => return Err(e),
        };
        let type_ann = if self.check(&Token::Colon) {
            self.advance();
            match self.parse_type_expr() {
                Ok(t) => Some(t),
                Err(e) => return Err(e),
            }
        } else {
            None
        };
        match self.expect(&Token::Eq) {
            Ok(_) => {},
            Err(e) => return Err(e),
        }
        let value = match self.parse_expr() {
            Ok(v) => v,
            Err(e) => return Err(e),
        };
        self.skip_newlines();
        Ok(Stmt::LetStmt(LetStmt { name, type_ann, value, span }))
    }

    /// `do expr`.
    fn parse_effect_stmt(&mut self) -> (r: Result<Stmt, ParseError>)
        requires
            old(self).wf(),
        ensures
            old(self).stepped(final(self), p_effect(old(self).toks(), old(self).pos())),
            agrees(r, p_effect(old(self).toks(), old(self).pos()).1),
            r is Ok ==> final(self).pos() > old(self).pos(),
    {
        reveal(p_effect);
        let span = self.current_span();
        match self.expect(&Token::Do) {
            Ok(_) => {},
            Err(e) => return Err(e),
        }
        let expr = match self.parse_expr() {
            Ok(v) => v,
            Err(e) => return Err(e),
        };
        self.skip_newlines();
        Ok(Stmt::EffectStmt(EffectStmt { expr, span }))
    }

    /// `send("agent").channel(expr)` or `send("agent", "topic", expr)`.
    fn parse_send_stmt(&mut self) -> (r: Result<Stmt, ParseError>)
        requires
            old(self).wf(),
        ensures
            old(self).stepped(final(self), p_send(old(self).toks(), old(self).pos())),
            agrees(r, p_send(old(self).toks(), old(self).pos()).1),
            r is Ok ==> final(self).pos() > old(self).pos(),
    {
        reveal(p_send);
        let span = self.current_span();
        match self.expect(&Token::Send) {
            Ok(_) => {},
            Err(e) => return Err(e),
        }
        match self.expect(&Token::LParen) {
            Ok(_) => {},
            Err(e) => return Err(e),
        }
        let target_agent = match self.parse_string_value() {
            Ok(v) => v,
            Err(e) => return Err(e),
        };
        if self.check(&Token::Comma) {
            return self.parse_send_topic(target_agent, span, true);
        }
        match self.expect(&Token::RParen) {
            Ok(_) => {},
            Err(e) => return Err(e),
        }
        if self.check(&Token::Dot) {
            self.parse_send_channel(target_agent, span)
        } else {
            self.parse_send_topic(target_agent, span, false)
        }
    }

    /// The rest of `send(target).channel(expr)`, from the `.`.
    fn parse_send_channel(&mut self, target_agent: String, span: Span) -> (r: Result<Stmt, ParseError>)
        requires
            old(self).wf(),
            peek(old(self).toks(), old(self).pos()) is Dot,
        ensures
            old(self).stepped(final(self), p_send_channel(old(self).toks(), old(self).pos(), target_agent@, span)),
            agrees(r, p_send_channel(old(self).toks(), old(self).pos(), target_agent@, span).1),
    {
        reveal(p_send_channel);
        self.advance();
        let channel = match self.parse_identifier("nome do canal") {
            Ok(v) => v,
            Err(e) => return Err(e),
        };
        match self.expect(&Token::LParen) {
            Ok(_) => {},
            Err(e) => return Err(e),
        }
        let payload = match self.parse_expr() {
            Ok(v) => v,
            Err(e) => return Err(e),
        };
        match self.expect(&Token::RParen) {
            Ok(_) => {},
            Err(e) => return Err(e),
        }
        self.skip_newlines();
        Ok(Stmt::SendStmt(SendStmt { target_agent, channel: Some(channel), topic: None, payload, span }))
    }

    /// The rest of a send with a topic, from the `,` after the target; the
    /// closing `)` follows the payload when `closed`.
    #[verifier::spinoff_prover]
    #[verifier::rlimit(30)]
    fn parse_send_topic(&mut self, target_agent: String, span: Span, closed: bool) -> (r: Result<Stmt, ParseError>)
        requires
            old(self).wf(),
        ensures
            old(self).stepped(final(self), p_send_topic(old(self).toks(), old(self).pos(), target_agent@, span, closed)),
            agrees(r, p_send_topic(old(self).toks(), old(self).pos(), target_agent@, span, closed).1),
    {
        reveal(p_send_topic);
        match self.expect(&Token::Comma) {
            Ok(_) => {},
            Err(e) => return Err(e),
        }
        let topic = match self.parse_string_value() {
            Ok(v) => v,
            Err(e) => return Err(e),
        };
        match self.expect(&Token::Comma) {
            Ok(_) => {},
            Err(e) => return Err(e),
        }
        let payload = match self.parse_expr() {
            Ok(v) => v,
            Err(e) => return Err(e),
        };
        if closed {
            match self.expect(&Token::RParen) {
                Ok(_) => {},
                Err(e) => return Err(e),
            }
        }
        self.skip_newlines();
        Ok(Stmt::SendStmt(SendStmt { target_agent, channel: None, topic: Some(topic), payload, span }))
    }

    /// `return [expr]`.
    fn parse_return_stmt(&mut self) -> (r: Result<Stmt, ParseError>)
        requires
            old(self).wf(),
        ensures
            old(self).stepped(final(self), p_return(old(self).toks(), old(self).pos())),
            agrees(r, p_return(old(self).toks(), old(self).pos()).1),
            r is Ok ==> final(self).pos() > old(self).pos(),
    {
        reveal(p_return);
        let span = self.current_span();
        match self.expect(&Token::Return) {
            Ok(_) => {},
            Err(e) => return Err(e),
        }
        let value = if !self.check(&Token::Newline) && !self.check(&Token::RBrace) {
            match self.parse_expr() {
                Ok(v) => Some(v),
                Err(e) => return Err(e),
            }
        } else {
            None
        };
        self.skip_newlines();
        Ok(Stmt::ReturnStmt(ReturnStmt { value, span }))
    }

    /// `if expr block [else (if ... | block)]`.
    #[verifier::spinoff_prover]
    #[verifier::rlimit(40)]
    fn parse_if_stmt(&mut self) -> (r: Result<IfStmt, ParseError>)
        requires
            old(self).wf(),
        ensures
            old(self).stepped(final(self), p_if(old(self).toks(), old(self).pos())),
            agrees(r, p_if(old(self).toks(), old(self).pos()).1),
            r is Ok ==> final(self).pos() > old(self).pos(),
        decreases remaining(old(self).toks(), old(self).pos()), 1nat,
    {
        let span = self.current_span();
        match self.expect(&Token::If) {
            Ok(_) => {},
            Err(e) => return Err(e),
        }
        let condition = match self.parse_expr() {
            Ok(v) => v,
            Err(e) => return Err(e),
        };
        let then_branch = match self.parse_block() {
            Ok(v) => v,
            Err(e) => return Err(e),
        };
        let else_branch = if self.check(&Token::Else) {
            self.advance();
            self.skip_newlines();
            if self.check(&Token::If) {
                match self.parse_if_stmt() {
                    Ok(i) => Some(Box::new(ElseBranch::If(i))),
                    Err(e) => return Err(e),
                }
            } else {
                match self.parse_block() {
                    Ok(b) => Some(Box::new(ElseBranch::Block(b))),
                    Err(e) => return Err(e),
                }
            }
        } else {
            None
        };
        Ok(IfStmt { condition, then_branch, else_branch, span })
    }

    /// `while expr block`.
    fn parse_while_stmt(&mut self) -> (r: Result<Stmt, ParseError>)
        requires
            old(self).wf(),
        ensures
            old(self).stepped(final(self), p_while(old(self).toks(), old(self).pos())),
            agrees(r, p_while(old(self).toks(), old(self).pos()).1),
            r is Ok ==> final(self).pos() > old(self).pos(),
        decreases remaining(old(self).toks(), old(self).pos()), 1nat,
    {
        let span = self.current_span();
        match self.expect(&Token::While) {
            Ok(_) => {},
            Err(e) => return Err(e),
        }
        let condition = match self.parse_expr() {
            Ok(v) => v,
            Err(e) => return Err(e),
        };
        let body = match self.parse_block() {
            Ok(v) => v,
            Err(e) => return Err(e),
        };
        Ok(Stmt::WhileStmt(WhileStmt { condition, body, span }))
    }

    /// `for name in expr block`.
    #[verifier::spinoff_prover]
    #[verifier::rlimit(30)]
    fn parse_for_stmt(&mut self) -> (r: Result<Stmt, ParseError>)
        requires
            old(self).wf(),
        ensures
            old(self).stepped(final(self), p_for(old(self).toks(), old(self).pos())),
            agrees(r, p_for(old(self).toks(), old(self).pos()).1),
            r is Ok ==> final(self).pos() > old(self).pos(),
        decreases remaining(old(self).toks(), old(self).pos()), 1nat,
    {
        let span = self.current_span();
        match self.expect(&Token::For) {
            Ok(_) => {},
            Err(e) => return Err(e),
        }
        let var = match self.parse_identifier("variável do for") {
            Ok(v) => v,
            Err(e) => return Err(e),
        };
        match self.expect(&Token::In) {
            Ok(_) => {},
            Err(e) => return Err(e),
        }
        let iterable = match self.parse_expr() {
            Ok(v) => v,
            Err(e) => return Err(e),
        };
        let body = match self.parse_block() {
            Ok(v) => v,
            Err(e) => return Err(e),
        };
        Ok(Stmt::ForStmt(ForStmt { var, iterable, body, span }))
    }

    /// An assignment `name = expr`, or an expression statement.
    fn parse_assign_or_expr_stmt(&mut self) -> (r: Result<Stmt, ParseError>)
        requires
            old(self).wf(),
        ensures
            old(self).stepped(final(self), p_assign_or_expr(old(self).toks(), old(self).pos())),
            agrees(r, p_assign_or_expr(old(self).toks(), old(self).pos()).1),
            r is Ok ==> final(self).pos() > old(self).pos(),
    {
        reveal(p_assign_or_expr);
        let expr = match self.parse_expr() {
            Ok(v) => v,
            Err(e) => return Err(e),
        };
        if self.check(&Token::Eq) {
            self.advance();
            let value = match self.parse_expr() {
                Ok(v) => v,
                Err(e) => return Err(e),
            };
            self.skip_newlines();
            return match expr {
                Expr::Identifier(name, span) => Ok(Stmt::AssignStmt(AssignStmt { name, value, span })),
                _ => {
                    let (line, column) = self.loc();
                    Err(ParseError::InvalidAssignmentTarget { line, column })
                },
            };
        }
        if let Expr::Identifier(_, _) = expr {
            return Err(self.unexpected(string_of("Eq")));
        }
        self.skip_newlines();
        let span = expr.span();
        proof {
            lemma_span_view(expr);
        }
        Ok(Stmt::ExprStmt(ExprStmt { expr, span }))
    }

    // ── declarations ──

    /// `name [: type]`.
    fn parse_param(&mut self) -> (r: Result<Param, ParseError>)
        requires
            old(self).wf(),
        ensures
            old(self).stepped(final(self), p_param(old(self).toks(), old(self).pos())),
            agrees(r, p_param(old(self).toks(), old(self).pos()).1),
    {
        let span = self.current_span();
        let name = match self.parse_identifier("parâmetro") {
            Ok(n) => n,
            Err(e) => return Err(e),
        };
        let type_annotation = if self.check(&Token::Colon) {
            self.advance();
            match self.parse_type_expr() {
                Ok(t) => Some(t),
                Err(e) => return Err(e),
            }
        } else {
            None
        };
        Ok(Param { name, type_annotation, span })
    }

    /// Comma-separated parameters, up to `)`.
    fn parse_param_list(&mut self) -> (r: Result<Vec<Param>, ParseError>)
        requires
            old(self).wf(),
        ensures
            old(self).stepped(final(self), p_params(old(self).toks(), old(self).pos())),
            match (r, p_params(old(self).toks(), old(self).pos()).1) {
                (Ok(v), Ok(w)) => params_view(v@) == w,
                (Err(e), Err(f)) => e@ == f,
                _ => false,
            },
    {
        let ghost ts = self.toks();
        let ghost c0 = self.pos();
        let mut params: Vec<Param> = Vec::new();
        if self.check(&Token::RParen) {
            assert(params_view(params@) =~= Seq::<SpecParam>::empty());
            return Ok(params);
        }
        let first = match self.parse_param() {
            Ok(p) => p,
            Err(e) => return Err(e),
        };
        let ghost fv = first@;
        params.push(first);
        assert(params_view(params@) =~= seq![fv]);
        loop
            invariant
                self.wf(),
                self.toks() == ts,
                ts == old(self).toks(),
                c0 == old(self).pos(),
                !(peek(ts, c0) is RParen),
                p_param(ts, c0).1 is Ok,
                self.pos() >= c0,
                p_params(ts, c0).0 == (self.pos() - c0) + p_params_tail(ts, self.pos(), params_view(params@)).0,
                p_params(ts, c0).1 == p_params_tail(ts, self.pos(), params_view(params@)).1,
            decreases remaining(ts, self.pos()),
        {
            if !self.check(&Token::Comma) {
                return Ok(params);
            }
            self.advance();
            let p = match self.parse_param() {
                Ok(p) => p,
                Err(e) => {
                    return Err(e);
                },
            };
            let ghost before = params_view(params@);
            let ghost pv = p@;
            params.push(p);
            assert(params_view(params@) =~= before.push(pv));
        }
    }

    /// `fn name(params) [-> type] block`.
    #[verifier::spinoff_prover]
    #[verifier::rlimit(100)]
    fn parse_fn_decl(&mut self) -> (r: Result<FnDecl, ParseError>)
        requires
            old(self).wf(),
        ensures
            old(self).stepped(final(self), p_fn(old(self).toks(), old(self).pos())),
            agrees(r, p_fn(old(self).toks(), old(self).pos()).1),
            r is Ok ==> final(self).pos() > old(self).pos(),
    {
        reveal(p_fn);
        let span = self.current_span();
        match self.expect(&Token::Fn) {
            Ok(_) => {},
            Err(e) => return Err(e),
        }
        let name = match self.parse_identifier("nome da função") {
            Ok(n) => n,
            Err(e) => return Err(e),
        };
        match self.expect(&Token::LParen) {
            Ok(_) => {},
            Err(e) => return Err(e),
        }
        let params = match self.parse_param_list() {
            Ok(p) => p,
            Err(e) => return Err(e),
        };
        match self.expect(&Token::RParen) {
            Ok(_) => {},
            Err(e) => return Err(e),
        }
        let return_type = if self.check(&Token::Arrow) {
            self.advance();
            match self.parse_type_expr() {
                Ok(t) => Some(t),
                Err(e) => return Err(e),
            }
        } else {
            None
        };
        let body = match self.parse_block() {
            Ok(b) => b,
            Err(e) => return Err(e),
        };
        Ok(FnDecl { name, params, return_type, body, span })
    }

    /// The event an `on` handler reacts to.
    fn parse_event_pattern(&mut self) -> (r: Result<EventPattern, ParseError>)
        requires
            old(self).wf(),
        ensures
            old(self).stepped(final(self), p_event(old(self).toks(), old(self).pos())),
            agrees(r, p_event(old(self).toks(), old(self).pos()).1),
    {
        reveal(p_event);
        let name = match self.peek() {
            Token::Start => {
                self.advance();
                return Ok(EventPattern::Start);
            },
            Token::Stop => {
                self.advance();
                return Ok(EventPattern::Stop);
            },
            Token::Identifier(name) => name.clone(),
            _ => {
                return Err(self.unexpected(string_of("padrão de evento")));
            },
        };
        self.advance();
        if name == string_of("speech") {
            Ok(EventPattern::Speech)
        } else if name == string_of("image") {
            Ok(EventPattern::Image)
        } else if name == string_of("timer") || name == string_of("idle") || name == string_of("sensor_change")
            || name == string_of("network") || name == string_of("message") {
            match self.expect(&Token::LParen) {
                Ok(_) => {},
                Err(e) => return Err(e),
            }
            let ev = match self.parse_event_argument(&name) {
                Ok(ev) => ev,
                Err(e) => return Err(e),
            };
            match self.expect(&Token::RParen) {
                Ok(_) => Ok(ev),
                Err(e) => Err(e),
            }
        } else {
            Ok(EventPattern::Custom(name))
        }
    }

    /// What stands between the parentheses of the event `name`.
    fn parse_event_argument(&mut self, name: &String) -> (r: Result<EventPattern, ParseError>)
        requires
            old(self).wf(),
        ensures
            old(self).stepped(final(self), p_event_argument(old(self).toks(), old(self).pos(), name@)),
            agrees(r, p_event_argument(old(self).toks(), old(self).pos(), name@).1),
    {
        if *name == string_of("timer") || *name == string_of("idle") {
            let is_timer = *name == string_of("timer");
            match self.parse_expr() {
                Ok(x) => Ok(
                    if is_timer {
                        EventPattern::Timer(x)
                    } else {
                        EventPattern::Idle(x)
                    },
                ),
                Err(e) => Err(e),
            }
        } else if *name == string_of("message") {
            let agent = match self.peek() {
                Token::Identifier(a) => Some(a.clone()),
                _ => None,
            };
            match agent {
                Some(agent) => {
                    self.advance();
                    if self.check(&Token::Dot) {
                        self.advance();
                        match self.parse_identifier("nome do canal") {
                            Ok(channel) => Ok(EventPattern::Message(MessageTarget::Typed { agent, channel })),
                            Err(e) => Err(e),
                        }
                    } else {
                        Ok(EventPattern::Message(MessageTarget::Simple(agent)))
                    }
                },
                None => match self.parse_string_value() {
                    Ok(s) => Ok(EventPattern::Message(MessageTarget::Simple(s))),
                    Err(e) => Err(e),
                },
            }
        } else {
            let is_sensor = *name == string_of("sensor_change");
            match self.parse_string_value() {
                Ok(s) => Ok(
                    if is_sensor {
                        EventPattern::SensorChange(s)
                    } else {
                        EventPattern::Network(s)
                    },
                ),
                Err(e) => Err(e),
            }
        }
    }

    /// `on event [priority level] [concurrent] block`.
    #[verifier::spinoff_prover]
    #[verifier::rlimit(30)]
    fn parse_handler_decl(&mut self) -> (r: Result<HandlerDecl, ParseError>)
        requires
            old(self).wf(),
        ensures
            old(self).stepped(final(self), p_handler(old(self).toks(), old(self).pos())),
            agrees(r, p_handler(old(self).toks(), old(self).pos()).1),
            r is Ok ==> final(self).pos() > old(self).pos(),
    {
        reveal(p_handler);
        let span = self.current_span();
        match self.expect(&Token::On) {
            Ok(_) => {},
            Err(e) => return Err(e),
        }
        let event = match self.parse_event_pattern() {
            Ok(ev) => ev,
            Err(e) => return Err(e),
        };
        let priority = self.parse_priority();
        let concurrent = if self.check(&Token::Concurrent) {
            self.advance();
            true
        } else {
            false
        };
        let body = match self.parse_block() {
            Ok(b) => b,
            Err(e) => return Err(e),
        };
        Ok(HandlerDecl { event, priority, concurrent, body, span })
    }

    /// An optional `priority level`; normal when absent.
    fn parse_priority(&mut self) -> (r: EventPriorityLevel)
        requires
            old(self).wf(),
        ensures
            old(self).stepped(final(self), (p_priority(old(self).toks(), old(self).pos()).0, Ok::<(), SpecParseError>(()))),
            r == p_priority(old(self).toks(), old(self).pos()).1,
    {
        if !self.check(&Token::Priority) {
            return EventPriorityLevel::Normal;
        }
        self.advance();
        let level = match self.peek() {
            Token::PriorityCritical => Some(EventPriorityLevel::Critical),
            Token::PriorityHigh => Some(EventPriorityLevel::High),
            Token::PriorityNormal => Some(EventPriorityLevel::Normal),
            Token::PriorityLow => Some(EventPriorityLevel::Low),
            _ => None,
        };
        match level {
            Some(l) => {
                self.advance();
                l
            },
            None => EventPriorityLevel::Normal,
        }
    }

    /// `use name`.
    fn parse_use_decl(&mut self) -> (r: Result<UseDecl, ParseError>)
        requires
            old(self).wf(),
        ensures
            old(self).stepped(final(self), p_use(old(self).toks(), old(self).pos())),
            agrees(r, p_use(old(self).toks(), old(self).pos()).1),
    {
        let span = self.current_span();
        match self.expect(&Token::Use) {
            Ok(_) => {},
            Err(e) => return Err(e),
        }
        let capability = match self.parse_identifier("nome da capability") {
            Ok(n) => n,
            Err(e) => return Err(e),
        };
        self.skip_newlines();
        Ok(UseDecl { capability, span })
    }

    /// `channel name: type`.
    fn parse_channel_decl(&mut self) -> (r: Result<ChannelDecl, ParseError>)
        requires
            old(self).wf(),
        ensures
            old(self).stepped(final(self), p_channel(old(self).toks(), old(self).pos())),
            agrees(r, p_channel(old(self).toks(), old(self).pos()).1),
    {
        let span = self.current_span();
        match self.expect(&Token::Channel) {
            Ok(_) => {},
            Err(e) => return Err(e),
        }
        let name = match self.parse_identifier("nome do canal") {
            Ok(n) => n,
            Err(e) => return Err(e),
        };
        match self.expect(&Token::Colon) {
            Ok(_) => {},
            Err(e) => return Err(e),
        }
        let chan_type = match self.parse_type_expr() {
            Ok(t) => t,
            Err(e) => return Err(e),
        };
        self.skip_newlines();
        Ok(ChannelDecl { name, chan_type, span })
    }

    /// The value of field `key` of a `on_error` block, set in `pol`.
    fn parse_error_value(&mut self, key: &String, pol: ErrorPolicy) -> (r: Result<ErrorPolicy, ParseError>)
        requires
            old(self).wf(),
        ensures
            old(self).stepped(final(self), p_error_value(old(self).toks(), old(self).pos(), key@, pol@)),
            agrees(r, p_error_value(old(self).toks(), old(self).pos(), key@, pol@).1),
    {
        reveal(p_error_value);
        let mut pol = pol;
        if *key == string_of("strategy") {
            match self.parse_string_value() {
                Ok(v) => {
                    pol.strategy = Some(v);
                    Ok(pol)
                },
                Err(e) => Err(e),
            }
        } else if *key == string_of("max_retries") {
            match self.parse_integer() {
                Ok(v) => {
                    pol.max_retries = Some(v as u32);
                    Ok(pol)
                },
                Err(e) => Err(e),
            }
        } else if *key == string_of("backoff_ms") {
            match self.parse_integer() {
                Ok(v) => {
                    pol.backoff_ms = Some(v as u64);
                    Ok(pol)
                },
                Err(e) => Err(e),
            }
        } else if *key == string_of("on_exhaust") {
            match self.parse_string_value() {
                Ok(v) => {
                    pol.on_exhaust = Some(v);
                    Ok(pol)
                },
                Err(e) => Err(e),
            }
        } else {
            match self.parse_expr() {
                Ok(_) => Ok(pol),
                Err(e) => Err(e),
            }
        }
    }

    /// A `on_error` block.
    fn parse_error_policy(&mut self) -> (r: Result<ErrorPolicy, ParseError>)
        requires
            old(self).wf(),
        ensures
            old(self).stepped(final(self), p_error_policy(old(self).toks(), old(self).pos())),
            agrees(r, p_error_policy(old(self).toks(), old(self).pos()).1),
    {
        let ghost ts = self.toks();
        let ghost c0 = self.pos();
        match self.expect(&Token::OnError) {
            Ok(_) => {},
            Err(e) => return Err(e),
        }
        match self.expect(&Token::LBrace) {
            Ok(_) => {},
            Err(e) => return Err(e),
        }
        self.skip_newlines();
        let ghost c1 = self.pos();
        let mut pol = ErrorPolicy { strategy: None, max_retries: None, backoff_ms: None, on_exhaust: None };
        assert(pol@ == empty_error_policy());
        while !self.check(&Token::RBrace) && !self.check(&Token::Eof)
            invariant
                self.wf(),
                self.toks() == ts,
                ts == old(self).toks(),
                c0 == old(self).pos(),
                c1 == c0 + 2 + newlines(ts, c0 + 2),
                self.pos() >= c1,
                peek(ts, c0) is OnError,
                peek(ts, c0 + 1) is LBrace,
                p_error_fields(ts, c1, empty_error_policy()).0 == (self.pos() - c1) + p_error_fields(ts, self.pos(), pol@).0,
                p_error_fields(ts, c1, empty_error_policy()).1 == p_error_fields(ts, self.pos(), pol@).1,
            decreases remaining(ts, self.pos()),
        {
            let key = match self.parse_identifier("campo de on_error") {
                Ok(k) => k,
                Err(e) => {
                    return Err(e);
                },
            };
            match self.expect(&Token::Eq) {
                Ok(_) => {},
                Err(e) => {
                    return Err(e);
                },
            }
            pol = match self.parse_error_value(&key, pol) {
                Ok(p) => p,
                Err(e) => {
                    return Err(e);
                },
            };
            self.skip_newlines();
        }
        match self.expect(&Token::RBrace) {
            Ok(_) => {},
            Err(e) => return Err(e),
        }
        self.skip_newlines();
        Ok(pol)
    }

    /// The value of field `key` of a `event_policy` block, set in `pol`.
    fn parse_event_value(&mut self, key: &String, pol: EventPolicy) -> (r: Result<EventPolicy, ParseError>)
        requires
            old(self).wf(),
        ensures
            old(self).stepped(final(self), p_event_value(old(self).toks(), old(self).pos(), key@, pol@)),
            agrees(r, p_event_value(old(self).toks(), old(self).pos(), key@, pol@).1),
    {
        reveal(p_event_value);
        let mut pol = pol;
        if *key == string_of("on_overflow") {
            match self.parse_string_value() {
                Ok(v) => {
                    pol.on_overflow = Some(v);
                    Ok(pol)
                },
                Err(e) => Err(e),
            }
        } else if *key == string_of("critical_queue") {
            match self.parse_integer() {
                Ok(v) => {
                    pol.critical_queue = Some(v as usize);
                    Ok(pol)
                },
                Err(e) => Err(e),
            }
        } else if *key == string_of("normal_queue") {
            match self.parse_integer() {
                Ok(v) => {
                    pol.normal_queue = Some(v as usize);
                    Ok(pol)
                },
                Err(e) => Err(e),
            }
        } else if *key == string_of("low_queue") {
            match self.parse_integer() {
                Ok(v) => {
                    pol.low_queue = Some(v as usize);
                    Ok(pol)
                },
                Err(e) => Err(e),
            }
        } else {
            match self.parse_expr() {
                Ok(_) => Ok(pol),
                Err(e) => Err(e),
            }
        }
    }

    /// A `event_policy` block.
    fn parse_event_policy(&mut self) -> (r: Result<EventPolicy, ParseError>)
        requires
            old(self).wf(),
        ensures
            old(self).stepped(final(self), p_event_policy(old(self).toks(), old(self).pos())),
            agrees(r, p_event_policy(old(self).toks(), old(self).pos()).1),
    {
        let ghost ts = self.toks();
        let ghost c0 = self.pos();
        match self.expect(&Token::EventPolicy) {
            Ok(_) => {},
            Err(e) => return Err(e),
        }
        match self.expect(&Token::LBrace) {
            Ok(_) => {},
            Err(e) => return Err(e),
        }
        self.skip_newlines();
        let ghost c1 = self.pos();
        let mut pol = EventPolicy { on_overflow: None, critical_queue: None, normal_queue: None, low_queue: None };
        assert(pol@ == empty_event_policy());
        while !self.check(&Token::RBrace) && !self.check(&Token::Eof)
            invariant
                self.wf(),
                self.toks() == ts,
                ts == old(self).toks(),
                c0 == old(self).pos(),
                c1 == c0 + 2 + newlines(ts, c0 + 2),
                self.pos() >= c1,
                peek(ts, c0) is EventPolicy,
                peek(ts, c0 + 1) is LBrace,
                p_event_fields(ts, c1, empty_event_policy()).0 == (self.pos() - c1) + p_event_fields(ts, self.pos(), pol@).0,
                p_event_fields(ts, c1, empty_event_policy()).1 == p_event_fields(ts, self.pos(), pol@).1,
            decreases remaining(ts, self.pos()),
        {
            let key = match self.parse_identifier("campo de event_policy") {
                Ok(k) => k,
                Err(e) => {
                    return Err(e);
                },
            };
            match self.expect(&Token::Eq) {
                Ok(_) => {},
                Err(e) => {
                    return Err(e);
                },
            }
            pol = match self.parse_event_value(&key, pol) {
                Ok(p) => p,
                Err(e) => {
                    return Err(e);
                },
            };
            self.skip_newlines();
        }
        match self.expect(&Token::RBrace) {
            Ok(_) => {},
            Err(e) => return Err(e),
        }
        self.skip_newlines();
        Ok(pol)
    }

    /// The value of field `key` of a `ai_policy` block, set in `pol`.
    fn parse_ai_value(&mut self, key: &String, pol: AiPolicy) -> (r: Result<AiPolicy, ParseError>)
        requires
            old(self).wf(),
        ensures
            old(self).stepped(final(self), p_ai_value(old(self).toks(), old(self).pos(), key@, pol@)),
            agrees(r, p_ai_value(old(self).toks(), old(self).pos(), key@, pol@).1),
    {
        reveal(p_ai_value);
        let mut pol = pol;
        if *key == string_of("timeout_ms") {
            match self.parse_integer() {
                Ok(v) => {
                    pol.timeout_ms = Some(v as u64);
                    Ok(pol)
                },
                Err(e) => Err(e),
            }
        } else if *key == string_of("max_queue_during") {
            match self.parse_integer() {
                Ok(v) => {
                    pol.max_queue_during = Some(v as usize);
                    Ok(pol)
                },
                Err(e) => Err(e),
            }
        } else if *key == string_of("on_timeout") {
            match self.parse_string_value() {
                Ok(v) => {
                    pol.on_timeout = Some(v);
                    Ok(pol)
                },
                Err(e) => Err(e),
            }
        } else if *key == string_of("fallback_response") {
            match self.parse_string_value() {
                Ok(v) => {
                    pol.fallback_response = Some(v);
                    Ok(pol)
                },
                Err(e) => Err(e),
            }
        } else if *key == string_of("cache_identical") {
            match self.parse_bool_value() {
                Ok(v) => {
                    pol.cache_identical = Some(v);
                    Ok(pol)
                },
                Err(e) => Err(e),
            }
        } else {
            match self.parse_expr() {
                Ok(_) => Ok(pol),
                Err(e) => Err(e),
            }
        }
    }

    /// A `ai_policy` block.
    fn parse_ai_policy(&mut self) -> (r: Result<AiPolicy, ParseError>)
        requires
            old(self).wf(),
        ensures
            old(self).stepped(final(self), p_ai_policy(old(self).toks(), old(self).pos())),
            agrees(r, p_ai_policy(old(self).toks(), old(self).pos()).1),
    {
        let ghost ts = self.toks();
        let ghost c0 = self.pos();
        match self.expect(&Token::AiPolicy) {
            Ok(_) => {},
            Err(e) => return Err(e),
        }
        match self.expect(&Token::LBrace) {
            Ok(_) => {},
            Err(e) => return Err(e),
        }
        self.skip_newlines();
        let ghost c1 = self.pos();
        let mut pol = AiPolicy { timeout_ms: None, max_queue_during: None, on_timeout: None, fallback_response: None, cache_identical: None };
        assert(pol@ == empty_ai_policy());
        while !self.check(&Token::RBrace) && !self.check(&Token::Eof)
            invariant
                self.wf(),
                self.toks() == ts,
                ts == old(self).toks(),
                c0 == old(self).pos(),
                c1 == c0 + 2 + newlines(ts, c0 + 2),
                self.pos() >= c1,
                peek(ts, c0) is AiPolicy,
                peek(ts, c0 + 1) is LBrace,
                p_ai_fields(ts, c1, empty_ai_policy()).0 == (self.pos() - c1) + p_ai_fields(ts, self.pos(), pol@).0,
                p_ai_fields(ts, c1, empty_ai_policy()).1 == p_ai_fields(ts, self.pos(), pol@).1,
            decreases remaining(ts, self.pos()),
        {
            let key = match self.parse_identifier("campo de ai_policy") {
                Ok(k) => k,
                Err(e) => {
                    return Err(e);
                },
            };
            match self.expect(&Token::Eq) {
                Ok(_) => {},
                Err(e) => {
                    return Err(e);
                },
            }
            pol = match self.parse_ai_value(&key, pol) {
                Ok(p) => p,
                Err(e) => {
                    return Err(e);
                },
            };
            self.skip_newlines();
        }
        match self.expect(&Token::RBrace) {
            Ok(_) => {},
            Err(e) => return Err(e),
        }
        self.skip_newlines();
        Ok(pol)
    }

    // ── agents and programs ──

    /// One declaration inside an agent, added to `parts`; at `}` nothing is
    /// consumed and `parts` comes back unchanged, with `false`.
    fn parse_agent_item(&mut self, parts: AgentParts) -> (r: Result<(bool, AgentParts), ParseError>)
        requires
            old(self).wf(),
        ensures
            old(self).stepped(final(self), p_agent_item(old(self).toks(), old(self).pos(), parts_view(parts))),
            match (r, p_agent_item(old(self).toks(), old(self).pos(), parts_view(parts)).1) {
                (Ok((true, q)), Ok(Some(sq))) => parts_view(q) == sq && final(self).pos() > old(self).pos(),
                (Ok((false, q)), Ok(None)) => parts_view(q) == parts_view(parts) && final(self).pos() == old(self).pos(),
                (Err(e), Err(f)) => e@ == f,
                _ => false,
            },
    {
        reveal(p_agent_item);
        let mut parts = parts;
        let ghost pv = parts_view(parts);
        match self.peek() {
            Token::Use => match self.parse_use_decl() {
                Ok(u) => {
                    let ghost uv = u@;
                    parts.capabilities.push(u);
                    assert(uses_view(parts.capabilities@) =~= pv.capabilities.push(uv));
                    Ok((true, parts))
                },
                Err(e) => Err(e),
            },
            Token::On => match self.parse_handler_decl() {
                Ok(h) => {
                    let ghost hv = h@;
                    parts.handlers.push(h);
                    assert(handlers_view(parts.handlers@) =~= pv.handlers.push(hv));
                    Ok((true, parts))
                },
                Err(e) => Err(e),
            },
            Token::Fn => match self.parse_fn_decl() {
                Ok(f) => {
                    let ghost fv = f@;
                    parts.functions.push(f);
                    assert(fns_view(parts.functions@) =~= pv.functions.push(fv));
                    Ok((true, parts))
                },
                Err(e) => Err(e),
            },
            Token::Channel => match self.parse_channel_decl() {
                Ok(ch) => {
                    let ghost cv = ch@;
                    parts.channels.push(ch);
                    assert(channels_view(parts.channels@) =~= pv.channels.push(cv));
                    Ok((true, parts))
                },
                Err(e) => Err(e),
            },
            Token::OnError => match self.parse_error_policy() {
                Ok(p) => {
                    parts.error_policy = Some(p);
                    Ok((true, parts))
                },
                Err(e) => Err(e),
            },
            Token::EventPolicy => match self.parse_event_policy() {
                Ok(p) => {
                    parts.event_policy = Some(p);
                    Ok((true, parts))
                },
                Err(e) => Err(e),
            },
            Token::AiPolicy => match self.parse_ai_policy() {
                Ok(p) => {
                    parts.ai_policy = Some(p);
                    Ok((true, parts))
                },
                Err(e) => Err(e),
            },
            Token::RBrace => Ok((false, parts)),
            _ => Err(self.unexpected(string_of("use, on, fn, channel, on_error, event_policy, ou }"))),
        }
    }

    /// Declarations inside an agent, until `}` or end of file.
    fn parse_agent_items(&mut self, init: AgentParts) -> (r: Result<AgentParts, ParseError>)
        requires
            old(self).wf(),
        ensures
            old(self).stepped(final(self), p_agent_items(old(self).toks(), old(self).pos(), parts_view(init))),
            match (r, p_agent_items(old(self).toks(), old(self).pos(), parts_view(init)).1) {
                (Ok(q), Ok(sq)) => parts_view(q) == sq,
                (Err(e), Err(f)) => e@ == f,
                _ => false,
            },
    {
        let ghost ts = self.toks();
        let ghost c0 = self.pos();
        let ghost p0 = parts_view(init);
        let mut parts = init;
        loop
            invariant
                self.wf(),
                self.toks() == ts,
                ts == old(self).toks(),
                c0 == old(self).pos(),
                self.pos() >= c0,
                p0 == parts_view(init),
                p_agent_items(ts, c0, p0).0 == (self.pos() - c0) + p_agent_items(ts, self.pos(), parts_view(parts)).0,
                p_agent_items(ts, c0, p0).1 == p_agent_items(ts, self.pos(), parts_view(parts)).1,
            decreases remaining(ts, self.pos()),
        {
            if self.check(&Token::RBrace) || self.check(&Token::Eof) {
                return Ok(parts);
            }
            self.skip_newlines();
            match self.parse_agent_item(parts) {
                Err(e) => {
                    return Err(e);
                },
                Ok((added, q)) => {
                    if !added {
                        return Ok(q);
                    }
                    parts = q;
                },
            }
            self.skip_newlines();
        }
    }

    /// `agent name [v N | vN] { declarations }`.
    #[verifier::spinoff_prover]
    #[verifier::rlimit(30)]
    fn parse_agent_decl(&mut self) -> (r: Result<AgentDecl, ParseError>)
        requires
            old(self).wf(),
        ensures
            old(self).stepped(final(self), p_agent(old(self).toks(), old(self).pos())),
            agrees(r, p_agent(old(self).toks(), old(self).pos()).1),
            r is Ok ==> final(self).pos() > old(self).pos(),
    {
        reveal(p_agent);
        let span = self.current_span();
        match self.expect(&Token::Agent) {
            Ok(_) => {},
            Err(e) => return Err(e),
        }
        let name = match self.parse_identifier("nome do agent") {
            Ok(n) => n,
            Err(e) => return Err(e),
        };
        let is_v = self.check(&Token::Identifier(string_of("v")));
        let version = if is_v {
            self.advance();
            match self.parse_integer() {
                Ok(n) => Some(n as u64),
                Err(e) => return Err(e),
            }
        } else {
            let tag = match self.peek() {
                Token::Identifier(w) => version_tag_of(w.as_str()),
                _ => None,
            };
            if tag.is_some() {
                self.advance();
            }
            tag
        };
        match self.expect(&Token::LBrace) {
            Ok(_) => {},
            Err(e) => return Err(e),
        }
        self.skip_newlines();
        let empty = AgentParts {
            capabilities: Vec::new(),
            handlers: Vec::new(),
            functions: Vec::new(),
            channels: Vec::new(),
            error_policy: None,
            event_policy: None,
            ai_policy: None,
        };
        assert(uses_view(empty.capabilities@) =~= Seq::<SpecUseDecl>::empty());
        assert(handlers_view(empty.handlers@) =~= Seq::<SpecHandlerDecl>::empty());
        assert(fns_view(empty.functions@) =~= Seq::<SpecFnDecl>::empty());
        assert(channels_view(empty.channels@) =~= Seq::<SpecChannelDecl>::empty());
        assert(parts_view(empty) == (SpecAgentParts {
            capabilities: Seq::empty(),
            handlers: Seq::empty(),
            functions: Seq::empty(),
            channels: Seq::empty(),
            error_policy: None,
            event_policy: None,
            ai_policy: None,
        }));
        let parts = match self.parse_agent_items(empty) {
            Ok(p) => p,
            Err(e) => return Err(e),
        };
        match self.expect(&Token::RBrace) {
            Ok(_) => {},
            Err(e) => return Err(e),
        }
        let ghost pv = parts_view(parts);
        let a = AgentDecl {
            name,
            version,
            capabilities: parts.capabilities,
            handlers: parts.handlers,
            functions: parts.functions,
            error_policy: parts.error_policy,
            event_policy: parts.event_policy,
            ai_policy: parts.ai_policy,
            channels: parts.channels,
            span,
        };
        assert(a@.handlers =~= pv.handlers);
        assert(a@.functions =~= pv.functions);
        Ok(a)
    }

    /// A top-level declaration: an agent, a function or a `let`.
    fn parse_top_level(&mut self) -> (r: Result<Stmt, ParseError>)
        requires
            old(self).wf(),
        ensures
            old(self).stepped(final(self), p_top(old(self).toks(), old(self).pos())),
            agrees(r, p_top(old(self).toks(), old(self).pos()).1),
            r is Ok ==> final(self).pos() > old(self).pos(),
    {
        match self.peek() {
            Token::Agent => match self.parse_agent_decl() {
                Ok(a) => Ok(Stmt::AgentDecl(a)),
                Err(e) => Err(e),
            },
            Token::Fn => match self.parse_fn_decl() {
                Ok(f) => Ok(Stmt::FnDecl(f)),
                Err(e) => Err(e),
            },
            Token::Let => self.parse_let_stmt(),
            _ => Err(self.unexpected(string_of("agent, fn, ou let"))),
        }
    }

    /// Parses the whole token list (see `parse_tokens`): the program, or
    /// every error when there is one.  The tokens must be none, or hold an
    /// end-of-file token.
    pub fn parse_program(&mut self) -> (r: Result<Program, Vec<ParseError>>)
        requires
            old(self).pos() == 0,
            old(self).toks().len() == 0 || has_eof(old(self).toks()),
        ensures
            program_agrees(r, parse_tokens(old(self).toks())),
    {
        let ghost ts = self.toks();
        if self.tokens.len() == 0 {
            let p = Program { stmts: Vec::new(), span: Span { start: 0, end: 0 } };
            assert(p@.stmts =~= Seq::<SpecStmt>::empty());
            return Ok(p);
        }
        proof {
            let k = choose|k: int| 0 <= k < ts.len() && #[trigger] ts[k].token is Eof;
            assert(self.tokens@[k].token@ is Eof);
        }
        let start = self.current_span();
        self.skip_newlines();
        let ghost c1 = self.pos();
        let mut stmts: Vec<Stmt> = Vec::new();
        let mut errors: Vec<ParseError> = Vec::new();
        assert(stmts_view(stmts@) =~= Seq::<SpecStmt>::empty());
        assert(errors_view(errors@) =~= Seq::<SpecParseError>::empty());
        while !self.check(&Token::Eof)
            invariant
                self.wf(),
                self.toks() == ts,
                ts == old(self).toks(),
                ts.len() > 0,
                start == span_at(ts, 0),
                c1 == newlines(ts, 0),
                p_program_from(ts, c1, Seq::empty(), Seq::empty()) == p_program_from(
                    ts,
                    self.pos(),
                    stmts_view(stmts@),
                    errors_view(errors@),
                ),
            decreases remaining(ts, self.pos()),
        {
            let before = self.cursor;
            let ghost sv = stmts_view(stmts@);
            let ghost ev = errors_view(errors@);
            match self.parse_top_level() {
                Ok(s) => {
                    let ghost x = s@;
                    stmts.push(s);
                    assert(stmts_view(stmts@) =~= sv.push(x));
                },
                Err(e) => {
                    let ghost x = e@;
                    errors.push(e);
                    assert(errors_view(errors@) =~= ev.push(x));
                    self.synchronize();
                },
            }
            self.skip_newlines();
            if self.cursor <= before {
                return Err(errors);
            }
        }
        if errors.len() == 0 {
            let p = Program { stmts, span: start };
            assert(p@.stmts =~= stmts_view(p.stmts@));
            Ok(p)
        } else {
            Err(errors)
        }
    }
}

/// The literal that the token `t` is, if it is one.
fn literal_of(t: &Token) -> (r: Option<Literal>)
    ensures
        match (r, token_literal(t@)) {
            (Some(l), Some(m)) => l@ == m,
            (None, None) => true,
            _ => false,
        },
{
    match t {
        Token::Integer(n) => Some(Literal::Int(*n)),
        Token::Float(x) => Some(Literal::Float(x.clone())),
        Token::Scientific(x) => Some(Literal::Scientific(x.clone())),
        Token::StringLit(x) => Some(Literal::String(x.clone())),
        Token::True => Some(Literal::Bool(true)),
        Token::False => Some(Literal::Bool(false)),
        Token::Null => Some(Literal::Null),
        _ => None,
    }
}

/// A parsed list of expressions agrees with its model.
pub open spec fn exprs_agree(r: Result<Vec<Expr>, ParseError>, s: Result<Seq<SpecExpr>, SpecParseError>) -> bool {
    match (r, s) {
        (Ok(x), Ok(y)) => exprs_view(x@) == y,
        (Err(e), Err(f)) => e@ == f,
        _ => false,
    }
}

/// The binary operator the token `t` stands for at level `k`.
fn level_binop(k: usize, t: &Token) -> (r: Option<BinOp>)
    requires
        k <= 5,
    ensures
        r == level_op(k as nat, t@),
{
    match t {
        Token::Or => if k == 5 { Some(BinOp::Or) } else { None },
        Token::And => if k == 4 { Some(BinOp::And) } else { None },
        Token::EqEq => if k == 3 { Some(BinOp::Eq) } else { None },
        Token::NotEq => if k == 3 { Some(BinOp::NotEq) } else { None },
        Token::Lt => if k == 2 { Some(BinOp::Lt) } else { None },
        Token::Gt => if k == 2 { Some(BinOp::Gt) } else { None },
        Token::LtEq => if k == 2 { Some(BinOp::LtEq) } else { None },
        Token::GtEq => if k == 2 { Some(BinOp::GtEq) } else { None },
        Token::Plus => if k == 1 { Some(BinOp::Add) } else { None },
        Token::Minus => if k == 1 { Some(BinOp::Sub) } else { None },
        Token::Star => if k == 0 { Some(BinOp::Mul) } else { None },
        Token::Slash => if k == 0 { Some(BinOp::Div) } else { None },
        Token::Percent => if k == 0 { Some(BinOp::Rem) } else { None },
        _ => None,
    }
}


/// What an agent's body holds, gathered as it is parsed.
struct AgentParts {
    capabilities: Vec<UseDecl>,
    handlers: Vec<HandlerDecl>,
    functions: Vec<FnDecl>,
    channels: Vec<ChannelDecl>,
    error_policy: Option<ErrorPolicy>,
    event_policy: Option<EventPolicy>,
    ai_policy: Option<AiPolicy>,
}

spec fn parts_view(p: AgentParts) -> SpecAgentParts {
    SpecAgentParts {
        capabilities: uses_view(p.capabilities@),
        handlers: handlers_view(p.handlers@),
        functions: fns_view(p.functions@),
        channels: channels_view(p.channels@),
        error_policy: match p.error_policy {
            Some(x) => Some(x@),
            None => None,
        },
        event_policy: match p.event_policy {
            Some(x) => Some(x@),
            None => None,
        },
        ai_policy: match p.ai_policy {
            Some(x) => Some(x@),
            None => None,
        },
    }
}

/// The models of a vector of parse errors, element by element.
pub open spec fn errors_view(v: Seq<ParseError>) -> Seq<SpecParseError> {
    Seq::new(v.len(), |i: int| v[i]@)
}

/// A parse of a whole program agrees with its model.
pub open spec fn program_agrees(r: Result<Program, Vec<ParseError>>, s: Result<SpecProgram, Seq<SpecParseError>>) -> bool {
    match (r, s) {
        (Ok(p), Ok(q)) => p@ == q,
        (Err(es), Err(fs)) => errors_view(es@) == fs,
        _ => false,
    }
}

/// Parses a list of tokens (see `parse_tokens`): the program, or every
/// error when there is one.  The list must be empty or hold an end-of-file
/// token, as the lexer's output does.
pub fn parse(tokens: Vec<SpannedToken>) -> (r: Result<Program, Vec<ParseError>>)
    requires
        tokens@.len() == 0 || has_eof(tokens_view(tokens@)),
    ensures
        program_agrees(r, parse_tokens(tokens_view(tokens@))),
{
    let mut p = Parser::new(tokens);
    p.parse_program()
}

} // verus!
