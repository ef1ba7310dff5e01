//! The meaning of GCRL programs: a big-step evaluation of the model of the
//! syntax tree.
//!
//! `fuel` bounds the depth of nesting of loop iterations and function calls;
//! running out of it stops evaluation with `SpecHalt::StepLimit`.
use vstd::prelude::*;
use crate::ast::{
    SpecExpr, SpecFStringSegment, SpecStmt, SpecBlock, SpecIfStmt, SpecElseBranch,
    SpecWhileStmt, SpecForStmt, SpecFnDecl, SpecParam, SpecProgram, SpecHandlerDecl,
    SpecAgentDecl,
};
use crate::text::{int_decimal, seq_join, radix_digits};
use crate::value::{SpecValue, FloatModel, SpecFloatRequest, answer_text, answer_bits, type_name_of, text_of_value, truthy};
use crate::ops::{SpecRuntimeError, type_error, binop_result, unary_result, literal_value};
use crate::env::{SpecScope, env_get, env_define, env_assign, env_push, env_pop};

verus! {

/// Why evaluation stopped early.
pub enum SpecHalt {
    Error(SpecRuntimeError),
    StepLimit,
}

/// The state of a running agent: its variables and what it has printed.
pub struct SpecMachine {
    pub env: Seq<SpecScope>,
    pub out: Seq<Seq<char>>,
}

// ─── SOURCE POSITIONS ────────────────────────────────────────────

/// Number of bytes of the UTF-8 encoding of `c`.
pub open spec fn char_width(c: char) -> nat {
    if (c as u32) < 0x80 {
        1
    } else if (c as u32) < 0x800 {
        2
    } else if (c as u32) < 0x10000 {
        3
    } else {
        4
    }
}

pub open spec fn source_line_col_from(src: Seq<char>, pos: int, i: int, byte: int, line: int, col: int) -> (int, int)
    decreases src.len() - i,
{
    if i >= src.len() || i < 0 || byte >= pos {
        (line, col)
    } else if src[i] == '\n' {
        source_line_col_from(src, pos, i + 1, byte + char_width(src[i]), line + 1, 1)
    } else {
        source_line_col_from(src, pos, i + 1, byte + char_width(src[i]), line, col + 1)
    }
}

/// Line and column (both from 1) of the character at byte offset `pos`:
/// one more than the newlines before it, and one more than the characters
/// since the last of them.
pub open spec fn source_line_col(src: Seq<char>, pos: int) -> (int, int) {
    source_line_col_from(src, pos, 0, 0, 1, 1)
}

/// The error `e`, placed at the line and column of byte offset `pos`.
pub open spec fn err_at(src: Seq<char>, pos: int, e: SpecRuntimeError) -> SpecHalt {
    let (l, c) = source_line_col(src, pos);
    SpecHalt::Error(located(e, l as usize, c as usize))
}

/// The error `e` with its location set to (`line`, `column`).
pub open spec fn located(e: SpecRuntimeError, line: usize, column: usize) -> SpecRuntimeError {
    match e {
        SpecRuntimeError::VariableNotFound { name, .. } => SpecRuntimeError::VariableNotFound { name, line, column },
        SpecRuntimeError::TypeError { message, .. } => SpecRuntimeError::TypeError { message, line, column },
        SpecRuntimeError::DivisionByZero { .. } => SpecRuntimeError::DivisionByZero { line, column },
        SpecRuntimeError::Return(v) => SpecRuntimeError::Return(v),
        SpecRuntimeError::NativeError { message, .. } => SpecRuntimeError::NativeError { message, line, column },
    }
}

// ─── FORMATTING ──────────────────────────────────────────────────

pub open spec fn is_digit(c: char) -> bool {
    '0' <= c && c <= '9'
}

pub open spec fn digits_value(s: Seq<char>) -> nat
    decreases s.len(),
{
    if s.len() == 0 {
        0
    } else {
        digits_value(s.drop_last()) * 10 + ((s.last() as nat) - ('0' as nat)) as nat
    }
}

/// The value of a digit string only grows as digits are added.
pub proof fn lemma_digits_value_mono(d: Seq<char>, i: int)
    requires
        0 <= i <= d.len(),
        forall|j: int| 0 <= j < d.len() ==> is_digit(#[trigger] d[j]),
    ensures
        digits_value(d.take(i)) <= digits_value(d),
    decreases d.len() - i,
{
    if i < d.len() {
        lemma_digits_value_mono(d, i + 1);
        assert(d.take(i + 1).drop_last() =~= d.take(i));
        assert(digits_value(d.take(i + 1)) == digits_value(d.take(i)) * 10 + ((d[i] as nat) - ('0' as nat)) as nat);
    } else {
        assert(d.take(i) =~= d);
    }
}

/// Every character of `d` is a decimal digit.
pub open spec fn all_digit_chars(d: Seq<char>) -> bool {
    forall|i: int| 0 <= i < d.len() ==> is_digit(#[trigger] d[i])
}

/// `usize::from_str`: an optional `+`, then one or more digits, in range.
pub open spec fn parse_usize(s: Seq<char>) -> Option<nat> {
    let d = if s.len() > 0 && s[0] == '+' {
        s.drop_first()
    } else {
        s
    };
    if d.len() == 0 || !all_digit_chars(d) {
        None
    } else if digits_value(d) > usize::MAX {
        None
    } else {
        Some(digits_value(d))
    }
}

/// The precision of a `.Nf` format spec.
pub open spec fn fixed_precision(f: Seq<char>) -> Option<nat> {
    if f.len() >= 2 && f[0] == '.' && f[f.len() - 1] == 'f' {
        parse_usize(f.subrange(1, f.len() - 1))
    } else {
        None
    }
}

/// An integer in base `base`: a minus sign, then the digits of its size.
pub open spec fn signed_radix(i: int, base: nat, upper: bool) -> Seq<char> {
    if i < 0 {
        "-"@ + radix_digits((-i) as nat, base, upper)
    } else {
        radix_digits(i as nat, base, upper)
    }
}

/// The text of a value in an f-string, under an optional format spec, as
/// Python writes it: `.Nf` writes the number (an integer as a float) with
/// `N` decimals; `d`, `x`, `X`, `b`, `o` write an integer in base 10, 16,
/// 2 or 8.
pub open spec fn format_text(fm: FloatModel, v: SpecValue, fmt: Option<Seq<char>>) -> Seq<char> {
    match (v, fmt) {
        (SpecValue::Float(b), Some(f)) => match fixed_precision(f) {
            Some(p) => answer_text(fm(SpecFloatRequest::Fixed(b, p as usize))),
            None => answer_text(fm(SpecFloatRequest::Display(b))),
        },
        (SpecValue::Int(i), Some(f)) => match fixed_precision(f) {
            Some(p) => answer_text(fm(SpecFloatRequest::Fixed(answer_bits(fm(SpecFloatRequest::FromInt(i))), p as usize))),
            None => if f == seq!['d'] {
                int_decimal(i as int)
            } else if f == seq!['x'] {
                signed_radix(i as int, 16, false)
            } else if f == seq!['X'] {
                signed_radix(i as int, 16, true)
            } else if f == seq!['b'] {
                signed_radix(i as int, 2, false)
            } else if f == seq!['o'] {
                signed_radix(i as int, 8, false)
            } else {
                text_of_value(fm, v)
            },
        },
        _ => text_of_value(fm, v),
    }
}

// ─── NATIVE FUNCTIONS ────────────────────────────────────────────

pub enum Native {
    Print,
    Len,
    TypeOf,
    ToStr,
}

pub open spec fn native_of(name: Seq<char>) -> Option<Native> {
    if name == "print"@ {
        Some(Native::Print)
    } else if name == "len"@ {
        Some(Native::Len)
    } else if name == "type_of"@ {
        Some(Native::TypeOf)
    } else if name == "to_str"@ {
        Some(Native::ToStr)
    } else {
        None
    }
}

/// The line `print` writes for its arguments.
pub open spec fn print_line(fm: FloatModel, vals: Seq<SpecValue>) -> Seq<char> {
    seq_join(Seq::new(vals.len(), |i: int| text_of_value(fm, vals[i])), " "@)
}

/// Number of bytes of the UTF-8 encoding of a text.
pub open spec fn utf8_len(s: Seq<char>) -> nat {
    vstd::utf8::encode_utf8(s).len()
}


// ─── SIZES ───────────────────────────────────────────────────────

/// Number of expression nodes that evaluation may visit.
pub open spec fn expr_size(e: SpecExpr) -> nat
    decreases e,
{
    match e {
        SpecExpr::BinOp { left, right, .. } => 1 + expr_size(*left) + expr_size(*right),
        SpecExpr::UnaryOp { operand, .. } => 1 + expr_size(*operand),
        SpecExpr::Call { callee, args, .. } => 1 + expr_size(*callee) + exprs_size(args),
        SpecExpr::FieldAccess { object, .. } => 1 + expr_size(*object),
        SpecExpr::Index { object, index, .. } => 1 + expr_size(*object) + expr_size(*index),
        SpecExpr::List(items, _) => 1 + exprs_size(items),
        SpecExpr::FString(segs, _) => 1 + segs_size(segs),
        _ => 1,
    }
}

pub open spec fn exprs_size(s: Seq<SpecExpr>) -> nat
    decreases s,
{
    if s.len() == 0 {
        0
    } else {
        exprs_size(s.subrange(0, s.len() - 1)) + expr_size(s[s.len() - 1])
    }
}

pub open spec fn segs_size(s: Seq<SpecFStringSegment>) -> nat
    decreases s,
{
    if s.len() == 0 {
        0
    } else {
        segs_size(s.subrange(0, s.len() - 1)) + match s[s.len() - 1] {
            SpecFStringSegment::Expr(x, _) => expr_size(x),
            _ => 0,
        }
    }
}

pub open spec fn opt_expr_size(e: Option<SpecExpr>) -> nat {
    match e {
        Some(x) => expr_size(x),
        None => 0,
    }
}

/// Number of statement and expression nodes that execution may visit.
pub open spec fn stmt_size(s: SpecStmt) -> nat
    decreases s,
{
    match s {
        SpecStmt::LetStmt(l) => 1 + expr_size(l.value),
        SpecStmt::AssignStmt(a) => 1 + expr_size(a.value),
        SpecStmt::IfStmt(i) => 1 + if_size(i),
        SpecStmt::WhileStmt(w) => 1 + expr_size(w.condition) + block_size(w.body),
        SpecStmt::ForStmt(f) => 1 + expr_size(f.iterable) + block_size(f.body),
        SpecStmt::ReturnStmt(r) => 1 + opt_expr_size(r.value),
        SpecStmt::EffectStmt(e) => 1 + expr_size(e.expr),
        SpecStmt::ExprStmt(e) => 1 + expr_size(e.expr),
        _ => 1,
    }
}

pub open spec fn stmts_size(s: Seq<SpecStmt>) -> nat
    decreases s,
{
    if s.len() == 0 {
        0
    } else {
        stmts_size(s.subrange(0, s.len() - 1)) + stmt_size(s[s.len() - 1])
    }
}

pub open spec fn block_size(b: SpecBlock) -> nat
    decreases b,
{
    1 + stmts_size(b.stmts)
}

pub open spec fn if_size(i: SpecIfStmt) -> nat
    decreases i,
{
    1 + expr_size(i.condition) + block_size(i.then_branch) + match i.else_branch {
        None => 0,
        Some(b) => match *b {
            SpecElseBranch::Block(bl) => block_size(bl),
            SpecElseBranch::If(inner) => if_size(inner),
        },
    }
}

pub proof fn lemma_exprs_size(s: Seq<SpecExpr>, k: int)
    requires
        0 <= k < s.len(),
    ensures
        expr_size(s[k]) <= exprs_size(s),
    decreases s.len(),
{
    if k < s.len() - 1 {
        lemma_exprs_size(s.subrange(0, s.len() - 1), k);
    }
}

pub proof fn lemma_segs_size(s: Seq<SpecFStringSegment>, k: int)
    requires
        0 <= k < s.len(),
    ensures
        s[k] matches SpecFStringSegment::Expr(x, _) ==> expr_size(x) <= segs_size(s),
    decreases s.len(),
{
    if k < s.len() - 1 {
        lemma_segs_size(s.subrange(0, s.len() - 1), k);
    }
}

pub proof fn lemma_stmts_size(s: Seq<SpecStmt>, k: int)
    requires
        0 <= k < s.len(),
    ensures
        stmt_size(s[k]) <= stmts_size(s),
    decreases s.len(),
{
    if k < s.len() - 1 {
        lemma_stmts_size(s.subrange(0, s.len() - 1), k);
    }
}

// ─── EVALUATION ──────────────────────────────────────────────────

pub type EvalResult = (SpecMachine, Result<SpecValue, SpecHalt>);

pub type ExecResult = (SpecMachine, Result<Option<SpecValue>, SpecHalt>);

pub open spec fn with_env(m: SpecMachine, env: Seq<SpecScope>) -> SpecMachine {
    SpecMachine { env, out: m.out }
}

/// Evaluates `e` in machine `m`.
pub open spec fn eval(fm: FloatModel, src: Seq<char>, m: SpecMachine, e: SpecExpr, fuel: nat) -> EvalResult
    decreases fuel, expr_size(e), 0nat,
{
    match e {
        SpecExpr::Literal(l, _) => (m, Ok(literal_value(fm, l))),
        SpecExpr::Identifier(name, span) => match env_get(m.env, name) {
            Some(v) => (m, Ok(v)),
            None => (
                m,
                Err(
                    err_at(
                        src,
                        span.start as int,
                        SpecRuntimeError::VariableNotFound { name, line: 0, column: 0 },
                    ),
                ),
            ),
        },
        SpecExpr::BinOp { op, left, right, span } => {
            let (m1, r1) = eval(fm, src, m, *left, fuel);
            match r1 {
                Err(h) => (m1, Err(h)),
                Ok(lv) => {
                    let (m2, r2) = eval(fm, src, m1, *right, fuel);
                    match r2 {
                        Err(h) => (m2, Err(h)),
                        Ok(rv) => {
                            let (l, c) = source_line_col(src, span.start as int);
                            match binop_result(fm, lv, rv, op, l as usize, c as usize) {
                                Ok(v) => (m2, Ok(v)),
                                Err(x) => (m2, Err(SpecHalt::Error(x))),
                            }
                        },
                    }
                },
            }
        },
        SpecExpr::UnaryOp { op, operand, span } => {
            let (m1, r1) = eval(fm, src, m, *operand, fuel);
            match r1 {
                Err(h) => (m1, Err(h)),
                Ok(v) => {
                    let (l, c) = source_line_col(src, span.start as int);
                    match unary_result(fm, v, op, l as usize, c as usize) {
                        Ok(w) => (m1, Ok(w)),
                        Err(x) => (m1, Err(SpecHalt::Error(x))),
                    }
                },
            }
        },
        SpecExpr::Call { callee, args, span } => {
            let native = match *callee {
                SpecExpr::Identifier(name, _) => native_of(name),
                _ => None,
            };
            match native {
                Some(k) => eval_native(fm, src, m, k, args, span.start as int, fuel),
                None => {
                    let (m1, r1) = eval(fm, src, m, *callee, fuel);
                    match r1 {
                        Err(h) => (m1, Err(h)),
                        Ok(SpecValue::Function(fd)) => {
                            let (m2, ra) = eval_list(fm, src, m1, args, 0, Seq::empty(), fuel);
                            match ra {
                                Err(h) => (m2, Err(h)),
                                Ok(vals) => if fuel == 0 {
                                    (m2, Err(SpecHalt::StepLimit))
                                } else {
                                    let (l, c) = source_line_col(src, span.start as int);
                                    call_function(fm, src, m2, fd, vals, l as usize, c as usize, (fuel - 1) as nat)
                                },
                            }
                        },
                        Ok(other) => (
                            m1,
                            Err(
                                err_at(
                                    src,
                                    span.start as int,
                                    type_error("cannot call "@ + type_name_of(other), 0, 0),
                                ),
                            ),
                        ),
                    }
                },
            }
        },
        SpecExpr::FieldAccess { object, field, span } => {
            let (m1, r1) = eval(fm, src, m, *object, fuel);
            match r1 {
                Err(h) => (m1, Err(h)),
                Ok(v) => (
                    m1,
                    Err(
                        err_at(
                            src,
                            span.start as int,
                            type_error(
                                    "field access `"@ + field + "` not supported on "@ + type_name_of(v), 0, 0),
                        ),
                    ),
                ),
            }
        },
        SpecExpr::Index { object, index, span } => {
            let (m1, r1) = eval(fm, src, m, *object, fuel);
            match r1 {
                Err(h) => (m1, Err(h)),
                Ok(o) => {
                    let (m2, r2) = eval(fm, src, m1, *index, fuel);
                    match r2 {
                        Err(h) => (m2, Err(h)),
                        Ok(iv) => (m2, index_result(src, o, iv, span.start as int)),
                    }
                },
            }
        },
        SpecExpr::List(items, _) => {
            let (m1, r) = eval_list(fm, src, m, items, 0, Seq::empty(), fuel);
            match r {
                Err(h) => (m1, Err(h)),
                Ok(vals) => (m1, Ok(SpecValue::List(vals))),
            }
        },
        SpecExpr::Dict(_, span) => (
            m,
            Err(
                err_at(
                    src,
                    span.start as int,
                    type_error("Map literals not supported in Phase 1"@, 0, 0),
                ),
            ),
        ),
        SpecExpr::FString(segs, _) => eval_fstring(fm, src, m, segs, 0, Seq::empty(), fuel),
    }
}

/// Indexing a list by an integer.
pub open spec fn index_result(src: Seq<char>, o: SpecValue, iv: SpecValue, pos: int) -> Result<SpecValue, SpecHalt> {
    match (o, iv) {
        (SpecValue::List(items), SpecValue::Int(i)) => if i < 0 || i >= items.len() {
            Err(
                err_at(
                    src,
                    pos,
                    type_error(
                            "index "@ + int_decimal(i as int) + " out of bounds (len "@ + int_decimal(
                                items.len() as int,
                            ) + ")"@,
                            0,
                            0,
                        ),
                ),
            )
        } else {
            Ok(items[i as int])
        },
        _ => Err(
            err_at(
                src,
                pos,
                type_error("cannot index "@ + type_name_of(o) + " with "@ + type_name_of(iv), 0, 0),
            ),
        ),
    }
}

/// Evaluates `items[k..]` in order, appending their values to `acc`.
pub open spec fn eval_list(
    fm: FloatModel,
    src: Seq<char>,
    m: SpecMachine,
    items: Seq<SpecExpr>,
    k: int,
    acc: Seq<SpecValue>,
    fuel: nat,
) -> (SpecMachine, Result<Seq<SpecValue>, SpecHalt>)
    decreases fuel, exprs_size(items), items.len() - k,
{
    if k < 0 || k >= items.len() {
        (m, Ok(acc))
    } else {
        proof {
            lemma_exprs_size(items, k);
        }
        let (m1, r) = eval(fm, src, m, items[k], fuel);
        match r {
            Err(h) => (m1, Err(h)),
            Ok(v) => eval_list(fm, src, m1, items, k + 1, acc.push(v), fuel),
        }
    }
}

/// Evaluates the segments `segs[k..]` of an f-string, appending their text to `acc`.
pub open spec fn eval_fstring(
    fm: FloatModel,
    src: Seq<char>,
    m: SpecMachine,
    segs: Seq<SpecFStringSegment>,
    k: int,
    acc: Seq<char>,
    fuel: nat,
) -> EvalResult
    decreases fuel, segs_size(segs), segs.len() - k,
{
    if k < 0 || k >= segs.len() {
        (m, Ok(SpecValue::Str(acc)))
    } else {
        proof {
            lemma_segs_size(segs, k);
        }
        match segs[k] {
            SpecFStringSegment::Lit(t) => eval_fstring(fm, src, m, segs, k + 1, acc + t, fuel),
            SpecFStringSegment::Expr(x, f) => {
                let (m1, r) = eval(fm, src, m, x, fuel);
                match r {
                    Err(h) => (m1, Err(h)),
                    Ok(v) => eval_fstring(fm, src, m1, segs, k + 1, acc + format_text(fm, v, f), fuel),
                }
            },
        }
    }
}

/// Calls one of the native functions; `at` is where the call stands, for
/// errors in the number of arguments.
pub open spec fn eval_native(
    fm: FloatModel,
    src: Seq<char>,
    m: SpecMachine,
    k: Native,
    args: Seq<SpecExpr>,
    at: int,
    fuel: nat,
) -> EvalResult
    decreases fuel, exprs_size(args), args.len() + 1,
{
    match k {
        Native::Print => {
            let (m1, r) = eval_list(fm, src, m, args, 0, Seq::empty(), fuel);
            match r {
                Err(h) => (m1, Err(h)),
                Ok(vals) => (SpecMachine { env: m1.env, out: m1.out.push(print_line(fm, vals)) }, Ok(SpecValue::Null)),
            }
        },
        _ => if args.len() != 1 {
            (
                m,
                Err(
                    err_at(
                        src,
                        at,
                        SpecRuntimeError::NativeError {
                                message: match k {
                                    Native::Len => "len"@,
                                    Native::TypeOf => "type_of"@,
                                    _ => "to_str"@,
                                } + " expects 1 argument"@,
                                line: 0,
                                column: 0,
                            },
                    ),
                ),
            )
        } else {
            proof {
                lemma_exprs_size(args, 0);
            }
            let (m1, r) = eval(fm, src, m, args[0], fuel);
            match r {
                Err(h) => (m1, Err(h)),
                Ok(v) => match k {
                    Native::Len => match v {
                        SpecValue::Str(s) => (m1, Ok(SpecValue::Int((utf8_len(s) as usize) as i64))),
                        SpecValue::List(xs) => (m1, Ok(SpecValue::Int(xs.len() as i64))),
                        _ => (
                            m1,
                            Err(
                                err_at(
                                    src,
                                    args[0].span().start as int,
                                    type_error("len expects String or List, got "@ + type_name_of(v), 0, 0),
                                ),
                            ),
                        ),
                    },
                    Native::TypeOf => (m1, Ok(SpecValue::Str(type_name_of(v)))),
                    _ => (m1, Ok(SpecValue::Str(text_of_value(fm, v)))),
                },
            }
        },
    }
}

/// Binds parameters `params[k..]` to `args[k..]` in the innermost scope.
pub open spec fn bind_params(env: Seq<SpecScope>, params: Seq<SpecParam>, args: Seq<SpecValue>, k: int) -> Seq<SpecScope>
    decreases params.len() - k,
{
    if k < 0 || k >= params.len() || k >= args.len() {
        env
    } else {
        bind_params(env_define(env, params[k].name, args[k]), params, args, k + 1)
    }
}

/// Calls a user function with argument values.
pub open spec fn call_function(
    fm: FloatModel,
    src: Seq<char>,
    m: SpecMachine,
    fd: SpecFnDecl,
    args: Seq<SpecValue>,
    line: usize,
    column: usize,
    fuel: nat,
) -> EvalResult
    decreases fuel, block_size(fd.body) + 1, 0nat,
{
    if args.len() != fd.params.len() {
        (
            m,
            Err(
                SpecHalt::Error(
                    type_error(
                        "function `"@ + fd.name + "` expects "@ + int_decimal(fd.params.len() as int)
                            + " arguments, got "@ + int_decimal(args.len() as int),
                        line,
                        column,
                    ),
                ),
            ),
        )
    } else {
        let m1 = with_env(m, bind_params(env_push(m.env), fd.params, args, 0));
        let (m2, r) = exec_block(fm, src, m1, fd.body, fuel);
        let m3 = with_env(m2, env_pop(m2.env));
        match r {
            Ok(Some(v)) => (m3, Ok(v)),
            Ok(None) => (m3, Ok(SpecValue::Null)),
            Err(SpecHalt::Error(SpecRuntimeError::Return(v))) => (m3, Ok(v)),
            Err(h) => (m3, Err(h)),
        }
    }
}

/// Runs a block in a fresh scope, which is dropped however the block ends.
pub open spec fn exec_block(fm: FloatModel, src: Seq<char>, m: SpecMachine, b: SpecBlock, fuel: nat) -> ExecResult
    decreases fuel, block_size(b), 0nat,
{
    let (m1, r) = exec_stmts(fm, src, with_env(m, env_push(m.env)), b.stmts, 0, fuel);
    (with_env(m1, env_pop(m1.env)), r)
}

/// Runs `ss[k..]` until one yields a value or stops.
pub open spec fn exec_stmts(fm: FloatModel, src: Seq<char>, m: SpecMachine, ss: Seq<SpecStmt>, k: int, fuel: nat) -> ExecResult
    decreases fuel, stmts_size(ss), ss.len() - k,
{
    if k < 0 || k >= ss.len() {
        (m, Ok(None))
    } else {
        proof {
            lemma_stmts_size(ss, k);
        }
        let (m1, r) = exec_stmt(fm, src, m, ss[k], fuel);
        match r {
            Err(h) => (m1, Err(h)),
            Ok(Some(v)) => (m1, Ok(Some(v))),
            Ok(None) => exec_stmts(fm, src, m1, ss, k + 1, fuel),
        }
    }
}

/// Runs one statement.
pub open spec fn exec_stmt(fm: FloatModel, src: Seq<char>, m: SpecMachine, s: SpecStmt, fuel: nat) -> ExecResult
    decreases fuel, stmt_size(s), 0nat,
{
    match s {
        SpecStmt::LetStmt(l) => {
            let (m1, r) = eval(fm, src, m, l.value, fuel);
            match r {
                Err(h) => (m1, Err(h)),
                Ok(v) => (with_env(m1, env_define(m1.env, l.name, v)), Ok(None)),
            }
        },
        SpecStmt::AssignStmt(a) => {
            let (m1, r) = eval(fm, src, m, a.value, fuel);
            match r {
                Err(h) => (m1, Err(h)),
                Ok(v) => match env_assign(m1.env, a.name, v) {
                    Some(e) => (with_env(m1, e), Ok(None)),
                    None => (
                        m1,
                        Err(
                            err_at(
                                src,
                                a.span.start as int,
                                SpecRuntimeError::VariableNotFound { name: a.name, line: 0, column: 0 },
                            ),
                        ),
                    ),
                },
            }
        },
        SpecStmt::IfStmt(i) => exec_if(fm, src, m, i, fuel),
        SpecStmt::WhileStmt(w) => exec_while(fm, src, m, w, fuel),
        SpecStmt::ForStmt(f) => {
            let (m1, r) = eval(fm, src, m, f.iterable, fuel);
            match r {
                Err(h) => (m1, Err(h)),
                Ok(SpecValue::List(items)) => exec_for(fm, src, m1, f, items, 0, fuel),
                Ok(other) => (
                    m1,
                    Err(
                        err_at(
                            src,
                            f.span.start as int,
                            type_error("expected List, got "@ + type_name_of(other), 0, 0),
                        ),
                    ),
                ),
            }
        },
        SpecStmt::ReturnStmt(r) => match r.value {
            Some(x) => {
                let (m1, rv) = eval(fm, src, m, x, fuel);
                match rv {
                    Err(h) => (m1, Err(h)),
                    Ok(v) => (m1, Err(SpecHalt::Error(SpecRuntimeError::Return(v)))),
                }
            },
            None => (m, Err(SpecHalt::Error(SpecRuntimeError::Return(SpecValue::Null)))),
        },
        SpecStmt::EffectStmt(e) => {
            let (m1, r) = eval(fm, src, m, e.expr, fuel);
            match r {
                Err(h) => (m1, Err(h)),
                Ok(_) => (m1, Ok(None)),
            }
        },
        SpecStmt::ExprStmt(e) => {
            let (m1, r) = eval(fm, src, m, e.expr, fuel);
            match r {
                Err(h) => (m1, Err(h)),
                Ok(_) => (m1, Ok(None)),
            }
        },
        _ => (m, Ok(None)),
    }
}

/// Runs an `if` statement (with its `else if` chain).
pub open spec fn exec_if(fm: FloatModel, src: Seq<char>, m: SpecMachine, i: SpecIfStmt, fuel: nat) -> ExecResult
    decreases fuel, if_size(i), 0nat,
{
    let (m1, r) = eval(fm, src, m, i.condition, fuel);
    match r {
        Err(h) => (m1, Err(h)),
        Ok(c) => if truthy(c) {
            exec_block(fm, src, m1, i.then_branch, fuel)
        } else {
            match i.else_branch {
                None => (m1, Ok(None)),
                Some(b) => match *b {
                    SpecElseBranch::Block(bl) => exec_block(fm, src, m1, bl, fuel),
                    SpecElseBranch::If(inner) => exec_if(fm, src, m1, inner, fuel),
                },
            }
        },
    }
}

/// Runs a `while` loop; each iteration spends one unit of fuel.
pub open spec fn exec_while(fm: FloatModel, src: Seq<char>, m: SpecMachine, w: SpecWhileStmt, fuel: nat) -> ExecResult
    decreases fuel, expr_size(w.condition) + block_size(w.body), 0nat,
{
    if fuel == 0 {
        (m, Err(SpecHalt::StepLimit))
    } else {
        let (m1, r) = eval(fm, src, m, w.condition, fuel);
        match r {
            Err(h) => (m1, Err(h)),
            Ok(c) => if !truthy(c) {
                (m1, Ok(None))
            } else {
                let (m2, rb) = exec_block(fm, src, m1, w.body, fuel);
                match rb {
                    Err(h) => (m2, Err(h)),
                    Ok(Some(v)) => (m2, Ok(Some(v))),
                    Ok(None) => exec_while(fm, src, m2, w, (fuel - 1) as nat),
                }
            },
        }
    }
}

/// Runs the body of a `for` loop for `items[k..]`, each in a fresh scope
/// binding the loop variable, dropped however the body ends.
pub open spec fn exec_for(
    fm: FloatModel,
    src: Seq<char>,
    m: SpecMachine,
    f: SpecForStmt,
    items: Seq<SpecValue>,
    k: int,
    fuel: nat,
) -> ExecResult
    decreases fuel, block_size(f.body), items.len() - k,
{
    if k < 0 || k >= items.len() {
        (m, Ok(None))
    } else {
        let m1 = with_env(m, env_define(env_push(m.env), f.var, items[k]));
        let (m2, r) = exec_stmts(fm, src, m1, f.body.stmts, 0, fuel);
        match r {
            Err(h) => (with_env(m2, env_pop(m2.env)), Err(h)),
            Ok(Some(v)) => (with_env(m2, env_pop(m2.env)), Ok(Some(v))),
            Ok(None) => exec_for(fm, src, with_env(m2, env_pop(m2.env)), f, items, k + 1, fuel),
        }
    }
}

// ─── PROGRAMS ────────────────────────────────────────────────────

/// Binds each function of an agent by name, in order.
pub open spec fn define_functions(env: Seq<SpecScope>, fns: Seq<SpecFnDecl>, k: int) -> Seq<SpecScope>
    decreases fns.len() - k,
{
    if k < 0 || k >= fns.len() {
        env
    } else {
        define_functions(env_define(env, fns[k].name, SpecValue::Function(fns[k])), fns, k + 1)
    }
}

/// Index of the first `on start` handler at or after `k`.
pub open spec fn first_start(hs: Seq<SpecHandlerDecl>, k: int) -> Option<int>
    decreases hs.len() - k,
{
    if k < 0 || k >= hs.len() {
        None
    } else if hs[k].event is Start {
        Some(k)
    } else {
        first_start(hs, k + 1)
    }
}

/// Runs one agent: fresh variables holding its functions, then its first
/// `on start` handler, if it has one.  Output accumulates on `out`.
#[verifier::opaque]
pub open spec fn run_agent(
    fm: FloatModel,
    src: Seq<char>,
    a: SpecAgentDecl,
    out: Seq<Seq<char>>,
    fuel: nat,
) -> (Seq<Seq<char>>, Result<(), SpecHalt>) {
    let env = define_functions(seq![Seq::empty()], a.functions, 0);
    match first_start(a.handlers, 0) {
        None => (out, Ok(())),
        Some(h) => {
            let (m1, r) = exec_block(fm, src, SpecMachine { env, out }, a.handlers[h].body, fuel);
            match r {
                Err(x) => (m1.out, Err(x)),
                Ok(_) => (m1.out, Ok(())),
            }
        },
    }
}

/// Runs a top-level statement: an agent runs; anything else is skipped.
pub open spec fn run_top_level(
    fm: FloatModel,
    src: Seq<char>,
    s: SpecStmt,
    out: Seq<Seq<char>>,
    fuel: nat,
) -> (Seq<Seq<char>>, Result<(), SpecHalt>) {
    match s {
        SpecStmt::AgentDecl(a) => run_agent(fm, src, a, out, fuel),
        _ => (out, Ok(())),
    }
}

/// Runs the agents of `stmts[k..]` in order: each gets fresh variables
/// holding its functions, then runs its first `on start` handler.  Output
/// accumulates; the first error stops the run.
pub open spec fn run_from(
    fm: FloatModel,
    src: Seq<char>,
    stmts: Seq<SpecStmt>,
    k: int,
    out: Seq<Seq<char>>,
    fuel: nat,
) -> (Seq<Seq<char>>, Result<(), SpecHalt>)
    decreases stmts.len() - k,
{
    if k < 0 || k >= stmts.len() {
        (out, Ok(()))
    } else {
        let (o, r) = run_top_level(fm, src, stmts[k], out, fuel);
        match r {
            Err(x) => (o, Err(x)),
            Ok(_) => run_from(fm, src, stmts, k + 1, o, fuel),
        }
    }
}

/// What running a program prints, and how it ends.
pub open spec fn run_program(fm: FloatModel, src: Seq<char>, p: SpecProgram, fuel: nat) -> (Seq<Seq<char>>, Result<(), SpecHalt>) {
    run_from(fm, src, p.stmts, 0, Seq::empty(), fuel)
}

} // verus!
