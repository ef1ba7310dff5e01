//! The interpreter: runs the `on start` handler of each agent of a program.
//!
//! Each function here is proved to compute what `semantics` says, for the
//! floating-point implementation handed in (`floats`).
use vstd::prelude::*;
use crate::ast::{
    Expr, FStringSegment, Stmt, Span, BinOp, UnaryOp, SpecExpr, Block, IfStmt, ElseBranch, WhileStmt, ForStmt, FnDecl, HandlerDecl,
    AgentDecl, Program, EventPattern, Param, params_view, handlers_view, SpecWhileStmt, SpecForStmt, exprs_view, segs_view, stmts_view,
    opt_str_view,
};
use crate::text::{push_str, push_i64, push_usize, push_radix, string_of, chars_of, int_decimal, join_strings};
use crate::value::{
    Value, SpecValue, FloatRequest, FloatAnswer, float_fn_ok, float_model, ask, type_name_of,
    text_of_value, is_truthy, value_text, copy_value, values_view, lemma_list_view,
};
use crate::ops::{RuntimeError, SpecRuntimeError, type_error, eval_binop, eval_unary, literal_to_value};
use crate::env::Environment;
use crate::semantics::{
    SpecHalt, SpecMachine, Native, located, char_width, source_line_col, source_line_col_from, err_at, is_digit,
    digits_value, parse_usize, all_digit_chars, lemma_digits_value_mono, format_text, native_of, expr_size, exprs_size, segs_size, stmt_size,
    stmts_size, block_size, if_size, lemma_exprs_size, lemma_segs_size, lemma_stmts_size, eval,
    index_result, eval_list, eval_fstring, eval_native, bind_params, call_function, exec_block,
    exec_stmts, exec_stmt, exec_if, exec_while, exec_for, define_functions, first_start, run_from,
    run_program, run_agent, run_top_level,
};

verus! {

/// Why evaluation stopped early.
#[derive(Debug)]
pub enum Halt<'a> {
    Error(RuntimeError<'a>),
    StepLimit,
}

impl<'a> View for Halt<'a> {
    type V = SpecHalt;

    open spec fn view(&self) -> SpecHalt {
        match self {
            Halt::Error(e) => SpecHalt::Error(e@),
            Halt::StepLimit => SpecHalt::StepLimit,
        }
    }
}

pub open spec fn value_result_view(r: Result<Value, Halt>) -> Result<SpecValue, SpecHalt> {
    match r {
        Ok(v) => Ok(v@),
        Err(h) => Err(h@),
    }
}

pub open spec fn values_result_view(r: Result<Vec<Value>, Halt>) -> Result<Seq<SpecValue>, SpecHalt> {
    match r {
        Ok(v) => Ok(values_view(v@)),
        Err(h) => Err(h@),
    }
}

pub open spec fn exec_result_view(r: Result<Option<Value>, Halt>) -> Result<Option<SpecValue>, SpecHalt> {
    match r {
        Ok(Some(v)) => Ok(Some(v@)),
        Ok(None) => Ok(None),
        Err(h) => Err(h@),
    }
}

// ─── SOURCE POSITIONS ────────────────────────────────────────────

fn width_of(c: char) -> (w: u128)
    ensures
        w == char_width(c),
{
    let u = c as u32;
    if u < 0x80 {
        1
    } else if u < 0x800 {
        2
    } else if u < 0x10000 {
        3
    } else {
        4
    }
}

/// Line and column of byte offset `pos` in the characters `src`.
fn position_in(src: &Vec<char>, pos: usize) -> (r: (usize, usize))
    requires
        src@.len() < usize::MAX,
    ensures
        r.0 as int == source_line_col(src@, pos as int).0,
        r.1 as int == source_line_col(src@, pos as int).1,
{
    let mut i: usize = 0;
    let mut byte: u128 = 0;
    let mut line: usize = 1;
    let mut col: usize = 1;
    while i < src.len() && byte < pos as u128
        invariant
            0 <= i <= src@.len(),
            src@.len() < usize::MAX,
            1 <= line <= i + 1,
            1 <= col <= i + 1,
            byte <= 4 * i,
            source_line_col(src@, pos as int) == source_line_col_from(src@, pos as int, i as int, byte as int, line as int, col as int),
        decreases src@.len() - i,
    {
        let w = width_of(src[i]);
        if src[i] == '\n' {
            line = line + 1;
            col = 1;
        } else {
            col = col + 1;
        }
        byte = byte + w;
        i = i + 1;
    }
    (line, col)
}

proof fn lemma_line_col_positive(src: Seq<char>, pos: int, i: int, byte: int, line: int, col: int)
    requires
        line >= 1,
        col >= 1,
    ensures
        source_line_col_from(src, pos, i, byte, line, col).0 >= 1,
        source_line_col_from(src, pos, i, byte, line, col).1 >= 1,
    decreases src.len() - i,
{
    if !(i >= src.len() || i < 0 || byte >= pos) {
        if src[i] == '\n' {
            lemma_line_col_positive(src, pos, i + 1, byte + char_width(src[i]), line + 1, 1);
        } else {
            lemma_line_col_positive(src, pos, i + 1, byte + char_width(src[i]), line, col + 1);
        }
    }
}

/// Line and column (both counted from 1) of the byte offset `pos` in
/// `source`: one more than the newlines before it, and one more than the
/// characters since the last of them.  An offset past the end gives the
/// position just after the last character.
pub fn line_col(source: &str, pos: usize) -> (r: (usize, usize))
    requires
        source@.len() < usize::MAX,
    ensures
        r.0 as int == source_line_col(source@, pos as int).0,
        r.1 as int == source_line_col(source@, pos as int).1,
        r.0 >= 1,
        r.1 >= 1,
{
    proof {
        lemma_line_col_positive(source@, pos as int, 0, 0, 1, 1);
    }
    let cs = chars_of(source);
    position_in(&cs, pos)
}

// ─── FORMAT SPECS ────────────────────────────────────────────────

fn all_digits(d: &Vec<char>, start: usize, end: usize) -> (r: bool)
    requires
        start <= end <= d@.len(),
    ensures
        r == all_digit_chars(d@.subrange(start as int, end as int)),
{
    let mut i = start;
    while i < end
        invariant
            start <= i <= end <= d@.len(),
            forall|j: int| start <= j < i ==> is_digit(d@[j]),
        decreases end - i,
    {
        if !('0' <= d[i] && d[i] <= '9') {
            assert(!is_digit(d@.subrange(start as int, end as int)[i - start]));
            return false;
        }
        i = i + 1;
    }
    assert forall|k: int| 0 <= k < end - start implies is_digit(#[trigger] d@.subrange(start as int, end as int)[k]) by {
        assert(d@.subrange(start as int, end as int)[k] == d@[start + k]);
    }
    true
}

/// `usize::from_str` on `d[start..end]`.
fn parse_usize_at(d: &Vec<char>, start: usize, end: usize) -> (r: Option<usize>)
    requires
        start <= end <= d@.len(),
    ensures
        match (r, parse_usize(d@.subrange(start as int, end as int))) {
            (Some(x), Some(y)) => x == y,
            (None, None) => true,
            _ => false,
        },
{
    let ghost s = d@.subrange(start as int, end as int);
    let ghost dd: Seq<char> = if s.len() > 0 && s[0] == '+' {
        s.drop_first()
    } else {
        s
    };
    let mut a = start;
    if start < end && d[start] == '+' {
        a = start + 1;
        assert(s[0] == d@[start as int]);
        assert(dd =~= d@.subrange(a as int, end as int));
    } else {
        assert(s.len() > 0 ==> s[0] == d@[start as int]);
        assert(dd =~= d@.subrange(a as int, end as int));
    }
    let ghost ds = d@.subrange(a as int, end as int);
    assert(dd == ds);
    if a == end {
        assert(ds.len() == 0);
        return None;
    }
    if !all_digits(d, a, end) {
        proof {
            assert(!all_digit_chars(dd));
        }
        return None;
    }
    let mut v: u128 = 0;
    let mut i = a;
    assert(ds.take(0) =~= Seq::<char>::empty());
    while i < end
        invariant
            a <= i <= end <= d@.len(),
            a < end,
            ds == d@.subrange(a as int, end as int),
            dd == ds,
            s == d@.subrange(start as int, end as int),
            dd == (if s.len() > 0 && s[0] == '+' {
                s.drop_first()
            } else {
                s
            }),
            forall|j: int| 0 <= j < ds.len() ==> is_digit(#[trigger] ds[j]),
            v as nat == digits_value(ds.take(i - a)),
            v <= usize::MAX,
        decreases end - i,
    {
        assert(ds[i - a] == d@[i as int]);
        assert(is_digit(ds[i - a]));
        assert(ds.take(i - a + 1).drop_last() =~= ds.take(i - a));
        assert(ds.take(i - a + 1).last() == d@[i as int]);
        let dv = (d[i] as u32 - '0' as u32) as u128;
        v = v * 10 + dv;
        if v > usize::MAX as u128 {
            proof {
                lemma_digits_value_mono(ds, i - a + 1);
            }
            assert(digits_value(ds) > usize::MAX);
            return None;
        }
        i = i + 1;
    }
    assert(ds.take(end - a) =~= ds);
    Some(v as usize)
}

/// The text of `v` in an f-string under the format spec `fmt`.
pub fn format_value<F: Fn(FloatRequest) -> FloatAnswer>(v: &Value, fmt: &Option<String>, floats: &F) -> (r: String)
    requires
        float_fn_ok(*floats),
    ensures
        r@ == format_text(float_model(*floats), v@, opt_str_view(*fmt)),
{
    match (v, fmt) {
        (Value::Float(b), Some(f)) => {
            let cs = chars_of(f.as_str());
            let n = cs.len();
            if n >= 2 && cs[0] == '.' && cs[n - 1] == 'f' {
                match parse_usize_at(&cs, 1, n - 1) {
                    Some(p) => {
                        let a = ask(floats, FloatRequest::Fixed(*b, p));
                        return match a {
                            FloatAnswer::Text(t) => t,
                            _ => String::new(),
                        };
                    },
                    None => {},
                }
            }
            let a = ask(floats, FloatRequest::Display(*b));
            match a {
                FloatAnswer::Text(t) => t,
                _ => String::new(),
            }
        },
        (Value::Int(i), Some(f)) => {
            let cs = chars_of(f.as_str());
            let n = cs.len();
            if n >= 2 && cs[0] == '.' && cs[n - 1] == 'f' {
                match parse_usize_at(&cs, 1, n - 1) {
                    Some(p) => {
                        let x = ask(floats, FloatRequest::FromInt(*i));
                        let xb = match x {
                            FloatAnswer::Bits(b) => b,
                            _ => 0,
                        };
                        let a = ask(floats, FloatRequest::Fixed(xb, p));
                        return match a {
                            FloatAnswer::Text(t) => t,
                            _ => String::new(),
                        };
                    },
                    None => {},
                }
            }
            if cs.len() == 1 {
                let c = cs[0];
                assert(f@ == seq![c]);
                let mut s = String::new();
                if c == 'd' {
                    push_i64(&mut s, *i);
                } else if c == 'x' || c == 'X' || c == 'b' || c == 'o' {
                    let base: u64 = if c == 'b' {
                        2
                    } else if c == 'o' {
                        8
                    } else {
                        16
                    };
                    let size: u64 = if *i < 0 {
                        push_str(&mut s, "-");
                        (-(*i as i128)) as u64
                    } else {
                        *i as u64
                    };
                    push_radix(&mut s, size, base, c == 'X');
                    proof {
                        reveal_strlit("-");
                    }
                } else {
                    return value_text(v, floats);
                }
                assert(s@ =~= format_text(float_model(*floats), v@, opt_str_view(*fmt)));
                return s;
            }
            proof {
                assert(f@ != seq!['d'] && f@ != seq!['x'] && f@ != seq!['X'] && f@ != seq!['b'] && f@ != seq!['o']);
            }
            value_text(v, floats)
        },
        _ => value_text(v, floats),
    }
}

// ─── AGENTS ──────────────────────────────────────────────────────

/// What the interpreter keeps of an agent declaration.
pub struct AgentDefinition<'a> {
    pub name: String,
    pub handlers: &'a Vec<HandlerDecl>,
    pub functions: &'a Vec<FnDecl>,
}

impl<'a> AgentDefinition<'a> {
    pub fn from_decl(decl: &'a AgentDecl) -> (d: Self)
        ensures
            d.name@ == decl.name@,
            d.handlers == &decl.handlers,
            d.functions == &decl.functions,
    {
        AgentDefinition { name: decl.name.clone(), handlers: &decl.handlers, functions: &decl.functions }
    }
}

/// A running agent: its definition, variables, source text and printed lines.
pub struct AgentInstance<'a> {
    pub definition: AgentDefinition<'a>,
    pub env: Environment<'a>,
    pub source: Vec<char>,
    pub output: Vec<String>,
}

impl<'a> AgentInstance<'a> {
    /// The state of the agent as the semantics sees it.
    pub open spec fn machine(&self) -> SpecMachine {
        SpecMachine { env: self.env@, out: lines_view(self.output@) }
    }

    /// What a step of evaluation leaves unchanged.
    pub open spec fn keeps(&self, other: &Self) -> bool {
        &&& self.source@ == other.source@
        &&& self.source@.len() < usize::MAX
    }

    fn print_line(&mut self, line: String)
        ensures
            final(self).keeps(old(self)) <==> old(self).source@.len() < usize::MAX,
            final(self).source == old(self).source,
            final(self).machine() == (SpecMachine {
                env: old(self).env@,
                out: old(self).machine().out.push(line@),
            }),
    {
        self.output.push(line);
        assert(lines_view(self.output@) =~= lines_view(old(self).output@).push(line@));
    }

    fn error_at(&self, pos: usize, e: Ghost<SpecRuntimeError>) -> (lc: (usize, usize))
        requires
            self.source@.len() < usize::MAX,
        ensures
            err_at(self.source@, pos as int, e@) == SpecHalt::Error(located(e@, lc.0, lc.1)),
    {
        position_in(&self.source, pos)
    }

    /// Evaluates an expression.
    pub fn eval_expr<F: Fn(FloatRequest) -> FloatAnswer>(&mut self, e: &'a Expr, floats: &F, fuel: u64) -> (r: Result<Value<'a>, Halt<'a>>)
        requires
            float_fn_ok(*floats),
            old(self).source@.len() < usize::MAX,
        ensures
            final(self).keeps(old(self)),
            (final(self).machine(), value_result_view(r)) == eval(
                float_model(*floats),
                old(self).source@,
                old(self).machine(),
                e@,
                fuel as nat,
            ),
        decreases fuel, expr_size(e@), 1nat,
    {
        match e {
            Expr::Literal(l, _) => Ok(literal_to_value(l, floats)),
            Expr::Identifier(name, span) => match self.env.get(name) {
                Some(v) => Ok(v),
                None => {
                    let ghost nm = name@;
                    let (l, c) = self.error_at(
                        span.start,
                        Ghost(SpecRuntimeError::VariableNotFound { name: nm, line: 0, column: 0 }),
                    );
                    Err(Halt::Error(RuntimeError::VariableNotFound { name: name.clone(), line: l, column: c }))
                },
            },
            Expr::BinOp { op, left, right, span } => self.eval_binop_expr(*op, &**left, &**right, *span, floats, fuel),
            Expr::UnaryOp { op, operand, span } => self.eval_unary_expr(*op, &**operand, *span, floats, fuel),
            Expr::Call { callee, args, span } => {
                proof {
                    assert(exprs_view(args@) =~= e@->args);
                }
                self.eval_call_expr(&**callee, args, *span, floats, fuel)
            },
            Expr::FieldAccess { object, field, span } => self.eval_field_expr(&**object, field, *span, floats, fuel),
            Expr::Index { object, index, span } => self.eval_index_expr(&**object, &**index, *span, floats, fuel),
            Expr::List(items, _) => {
                proof {
                    assert(exprs_view(items@) =~= e@->List_0);
                }
                match self.eval_list(items, floats, fuel) {
                    Ok(vals) => {
                        proof {
                            lemma_list_view(vals);
                        }
                        Ok(Value::List(vals))
                    },
                    Err(h) => Err(h),
                }
            },
            Expr::Dict(_, span) => {
                let (l, c) = self.error_at(
                    span.start,
                    Ghost(type_error("Map literals not supported in Phase 1"@, 0, 0)),
                );
                Err(Halt::Error(RuntimeError::TypeError { message: string_of("Map literals not supported in Phase 1"), line: l, column: c }))
            },
            Expr::FString(segs, _) => {
                proof {
                    assert(segs_view(segs@) =~= e@->FString_0);
                }
                self.eval_fstring(segs, floats, fuel)
            },
        }
    }

    fn eval_binop_expr<F: Fn(FloatRequest) -> FloatAnswer>(
        &mut self,
        op: BinOp,
        left: &'a Expr,
        right: &'a Expr,
        span: Span,
        floats: &F,
        fuel: u64,
    ) -> (r: Result<Value<'a>, Halt<'a>>)
        requires
            float_fn_ok(*floats),
            old(self).source@.len() < usize::MAX,
        ensures
            final(self).keeps(old(self)),
            (final(self).machine(), value_result_view(r)) == eval(
                float_model(*floats),
                old(self).source@,
                old(self).machine(),
                (SpecExpr::BinOp { op, left: Box::new(left@), right: Box::new(right@), span }),
                fuel as nat,
            ),
        decreases fuel, 1 + expr_size(left@) + expr_size(right@), 0nat,
    {
        let lv = match self.eval_expr(left, floats, fuel) {
            Ok(v) => v,
            Err(h) => return Err(h),
        };
        let rv = match self.eval_expr(right, floats, fuel) {
            Ok(v) => v,
            Err(h) => return Err(h),
        };
        let (l, c) = position_in(&self.source, span.start);
        match eval_binop(&lv, &rv, op, l, c, floats) {
            Ok(v) => Ok(v),
            Err(x) => Err(Halt::Error(x)),
        }
    }

    fn eval_unary_expr<F: Fn(FloatRequest) -> FloatAnswer>(
        &mut self,
        op: UnaryOp,
        operand: &'a Expr,
        span: Span,
        floats: &F,
        fuel: u64,
    ) -> (r: Result<Value<'a>, Halt<'a>>)
        requires
            float_fn_ok(*floats),
            old(self).source@.len() < usize::MAX,
        ensures
            final(self).keeps(old(self)),
            (final(self).machine(), value_result_view(r)) == eval(
                float_model(*floats),
                old(self).source@,
                old(self).machine(),
                (SpecExpr::UnaryOp { op, operand: Box::new(operand@), span }),
                fuel as nat,
            ),
        decreases fuel, 1 + expr_size(operand@), 0nat,
    {
        let v = match self.eval_expr(operand, floats, fuel) {
            Ok(v) => v,
            Err(h) => return Err(h),
        };
        let (l, c) = position_in(&self.source, span.start);
        match eval_unary(&v, op, l, c, floats) {
            Ok(w) => Ok(w),
            Err(x) => Err(Halt::Error(x)),
        }
    }

    fn eval_call_expr<F: Fn(FloatRequest) -> FloatAnswer>(
        &mut self,
        callee: &'a Expr,
        args: &'a Vec<Expr>,
        span: Span,
        floats: &F,
        fuel: u64,
    ) -> (r: Result<Value<'a>, Halt<'a>>)
        requires
            float_fn_ok(*floats),
            old(self).source@.len() < usize::MAX,
        ensures
            final(self).keeps(old(self)),
            (final(self).machine(), value_result_view(r)) == eval(
                float_model(*floats),
                old(self).source@,
                old(self).machine(),
                (SpecExpr::Call { callee: Box::new(callee@), args: exprs_view(args@), span }),
                fuel as nat,
            ),
        decreases fuel, 1 + expr_size(callee@) + exprs_size(exprs_view(args@)), 0nat,
    {
        let native = match callee {
            Expr::Identifier(name, _) => native_kind(name),
            _ => None,
        };
        match native {
            Some(k) => self.eval_native(k, args, span.start, floats, fuel),
            None => {
                let cv = match self.eval_expr(callee, floats, fuel) {
                    Ok(v) => v,
                    Err(h) => return Err(h),
                };
                match cv {
                    Value::Function(fd) => {
                        let vals = match self.eval_list(args, floats, fuel) {
                            Ok(v) => v,
                            Err(h) => return Err(h),
                        };
                        if fuel == 0 {
                            return Err(Halt::StepLimit);
                        }
                        let (l, c) = position_in(&self.source, span.start);
                        self.call_user_fn(fd, vals, l, c, floats, fuel - 1)
                    },
                    other => {
                        let ghost ov = other@;
                        let (l, c) = self.error_at(
                            span.start,
                            Ghost(type_error("cannot call "@ + type_name_of(ov), 0, 0)),
                        );
                        let mut m = string_of("cannot call ");
                        let t = other.type_label();
                        push_str(&mut m, t.as_str());
                        Err(Halt::Error(RuntimeError::TypeError { message: m, line: l, column: c }))
                    },
                }
            },
        }
    }

    fn eval_field_expr<F: Fn(FloatRequest) -> FloatAnswer>(
        &mut self,
        object: &'a Expr,
        field: &String,
        span: Span,
        floats: &F,
        fuel: u64,
    ) -> (r: Result<Value<'a>, Halt<'a>>)
        requires
            float_fn_ok(*floats),
            old(self).source@.len() < usize::MAX,
        ensures
            final(self).keeps(old(self)),
            (final(self).machine(), value_result_view(r)) == eval(
                float_model(*floats),
                old(self).source@,
                old(self).machine(),
                (SpecExpr::FieldAccess { object: Box::new(object@), field: field@, span }),
                fuel as nat,
            ),
        decreases fuel, 1 + expr_size(object@), 0nat,
    {
        let v = match self.eval_expr(object, floats, fuel) {
            Ok(v) => v,
            Err(h) => return Err(h),
        };
        let ghost vv = v@;
        let ghost fv = field@;
        let (l, c) = self.error_at(
            span.start,
            Ghost(type_error("field access `"@ + fv + "` not supported on "@ + type_name_of(vv), 0, 0)),
        );
        let mut m = string_of("field access `");
        push_str(&mut m, field.as_str());
        push_str(&mut m, "` not supported on ");
        let t = v.type_label();
        push_str(&mut m, t.as_str());
        Err(Halt::Error(RuntimeError::TypeError { message: m, line: l, column: c }))
    }

    fn eval_index_expr<F: Fn(FloatRequest) -> FloatAnswer>(
        &mut self,
        object: &'a Expr,
        index: &'a Expr,
        span: Span,
        floats: &F,
        fuel: u64,
    ) -> (r: Result<Value<'a>, Halt<'a>>)
        requires
            float_fn_ok(*floats),
            old(self).source@.len() < usize::MAX,
        ensures
            final(self).keeps(old(self)),
            (final(self).machine(), value_result_view(r)) == eval(
                float_model(*floats),
                old(self).source@,
                old(self).machine(),
                (SpecExpr::Index { object: Box::new(object@), index: Box::new(index@), span }),
                fuel as nat,
            ),
        decreases fuel, 1 + expr_size(object@) + expr_size(index@), 0nat,
    {
        let o = match self.eval_expr(object, floats, fuel) {
            Ok(v) => v,
            Err(h) => return Err(h),
        };
        let iv = match self.eval_expr(index, floats, fuel) {
            Ok(v) => v,
            Err(h) => return Err(h),
        };
        self.index_value(o, iv, span.start)
    }

    fn index_value(&self, o: Value<'a>, iv: Value<'a>, pos: usize) -> (r: Result<Value<'a>, Halt<'a>>)
        requires
            self.source@.len() < usize::MAX,
        ensures
            value_result_view(r) == index_result(self.source@, o@, iv@, pos as int),
    {
        match (&o, &iv) {
            (Value::List(items), Value::Int(i)) => {
                proof {
                    lemma_list_view(*items);
                }
                if *i < 0 || *i as u64 >= items.len() as u64 {
                    let ghost ii = *i;
                    let ghost n = items@.len();
                    let (l, c) = self.error_at(
                        pos,
                        Ghost(
                            type_error(
                                "index "@ + int_decimal(ii as int) + " out of bounds (len "@ + int_decimal(n as int) + ")"@,
                                0,
                                0,
                            )),
                    );
                    let mut m = string_of("index ");
                    push_i64(&mut m, *i);
                    push_str(&mut m, " out of bounds (len ");
                    push_usize(&mut m, items.len());
                    push_str(&mut m, ")");
                    assert(m@ =~= "index "@ + int_decimal(ii as int) + " out of bounds (len "@ + int_decimal(n as int) + ")"@);
                    return Err(Halt::Error(RuntimeError::TypeError { message: m, line: l, column: c }));
                }
                Ok(copy_value(&items[*i as usize]))
            },
            _ => {
                let ghost ov = o@;
                let ghost ivv = iv@;
                let (l, c) = self.error_at(
                    pos,
                    Ghost(type_error("cannot index "@ + type_name_of(ov) + " with "@ + type_name_of(ivv), 0, 0)),
                );
                let mut m = string_of("cannot index ");
                let t1 = o.type_label();
                push_str(&mut m, t1.as_str());
                push_str(&mut m, " with ");
                let t2 = iv.type_label();
                push_str(&mut m, t2.as_str());
                assert(m@ =~= "cannot index "@ + type_name_of(ov) + " with "@ + type_name_of(ivv));
                Err(Halt::Error(RuntimeError::TypeError { message: m, line: l, column: c }))
            },
        }
    }

    /// Evaluates a list of expressions in order.
    fn eval_list<F: Fn(FloatRequest) -> FloatAnswer>(&mut self, items: &'a Vec<Expr>, floats: &F, fuel: u64) -> (r: Result<Vec<Value<'a>>, Halt<'a>>)
        requires
            float_fn_ok(*floats),
            old(self).source@.len() < usize::MAX,
        ensures
            final(self).keeps(old(self)),
            (final(self).machine(), values_result_view(r)) == eval_list(
                float_model(*floats),
                old(self).source@,
                old(self).machine(),
                exprs_view(items@),
                0,
                Seq::empty(),
                fuel as nat,
            ),
        decreases fuel, exprs_size(exprs_view(items@)), 2nat,
    {
        let ghost fm = float_model(*floats);
        let ghost src = self.source@;
        let ghost xs = exprs_view(items@);
        let ghost goal = eval_list(fm, src, self.machine(), xs, 0, Seq::empty(), fuel as nat);
        let mut vals: Vec<Value<'a>> = Vec::new();
        let mut k: usize = 0;
        assert(values_view(vals@) =~= Seq::<SpecValue>::empty());
        while k < items.len()
            invariant
                float_fn_ok(*floats),
                fm == float_model(*floats),
                src == self.source@,
                src == old(self).source@,
                goal == eval_list(fm, src, old(self).machine(), xs, 0, Seq::empty(), fuel as nat),
                self.source@.len() < usize::MAX,
                xs == exprs_view(items@),
                0 <= k <= items@.len(),
                goal == eval_list(fm, src, self.machine(), xs, k as int, values_view(vals@), fuel as nat),
            decreases items@.len() - k,
        {
            proof {
                lemma_exprs_size(xs, k as int);
            }
            let ghost before = vals@;
            match self.eval_expr(&items[k], floats, fuel) {
                Ok(v) => {
                    let ghost vv = v@;
                    vals.push(v);
                    assert(values_view(vals@) =~= values_view(before).push(vv));
                },
                Err(h) => {
                    return Err(h);
                },
            }
            k = k + 1;
        }
        Ok(vals)
    }

    /// Evaluates the segments of an f-string and joins their text.
    fn eval_fstring<F: Fn(FloatRequest) -> FloatAnswer>(&mut self, segs: &'a Vec<FStringSegment>, floats: &F, fuel: u64) -> (r: Result<Value<'a>, Halt<'a>>)
        requires
            float_fn_ok(*floats),
            old(self).source@.len() < usize::MAX,
        ensures
            final(self).keeps(old(self)),
            (final(self).machine(), value_result_view(r)) == eval_fstring(
                float_model(*floats),
                old(self).source@,
                old(self).machine(),
                segs_view(segs@),
                0,
                Seq::empty(),
                fuel as nat,
            ),
        decreases fuel, segs_size(segs_view(segs@)), 2nat,
    {
        let ghost fm = float_model(*floats);
        let ghost src = self.source@;
        let ghost xs = segs_view(segs@);
        let ghost goal = eval_fstring(fm, src, self.machine(), xs, 0, Seq::empty(), fuel as nat);
        let mut acc = String::new();
        let mut k: usize = 0;
        while k < segs.len()
            invariant
                float_fn_ok(*floats),
                fm == float_model(*floats),
                src == self.source@,
                src == old(self).source@,
                goal == eval_fstring(fm, src, old(self).machine(), xs, 0, Seq::empty(), fuel as nat),
                self.source@.len() < usize::MAX,
                xs == segs_view(segs@),
                0 <= k <= segs@.len(),
                goal == eval_fstring(fm, src, self.machine(), xs, k as int, acc@, fuel as nat),
            decreases segs@.len() - k,
        {
            proof {
                lemma_segs_size(xs, k as int);
            }
            match &segs[k] {
                FStringSegment::Lit(t) => {
                    push_str(&mut acc, t.as_str());
                },
                FStringSegment::Expr(x, f) => {
                    match self.eval_expr(x, floats, fuel) {
                        Ok(v) => {
                            let t = format_value(&v, f, floats);
                            push_str(&mut acc, t.as_str());
                        },
                        Err(h) => {
                            return Err(h);
                        },
                    }
                },
            }
            k = k + 1;
        }
        Ok(Value::String(acc))
    }

    /// Calls one of the native functions `print`, `len`, `type_of`, `to_str`.
    fn eval_native<F: Fn(FloatRequest) -> FloatAnswer>(
        &mut self,
        k: Native,
        args: &'a Vec<Expr>,
        at: usize,
        floats: &F,
        fuel: u64,
    ) -> (r: Result<Value<'a>, Halt<'a>>)
        requires
            float_fn_ok(*floats),
            old(self).source@.len() < usize::MAX,
        ensures
            final(self).keeps(old(self)),
            (final(self).machine(), value_result_view(r)) == eval_native(
                float_model(*floats),
                old(self).source@,
                old(self).machine(),
                k,
                exprs_view(args@),
                at as int,
                fuel as nat,
            ),
        decreases fuel, exprs_size(exprs_view(args@)), 3nat,
    {
        let ghost fm = float_model(*floats);
        let ghost xs = exprs_view(args@);
        match k {
            Native::Print => {
                let vals = match self.eval_list(args, floats, fuel) {
                    Ok(v) => v,
                    Err(h) => return Err(h),
                };
                let ghost vs = values_view(vals@);
                let mut texts: Vec<String> = Vec::new();
                let mut i: usize = 0;
                while i < vals.len()
                    invariant
                        float_fn_ok(*floats),
                        fm == float_model(*floats),
                        vs == values_view(vals@),
                        0 <= i <= vals@.len(),
                        texts@.len() == i,
                        forall|j: int| 0 <= j < i ==> #[trigger] texts@[j]@ == text_of_value(fm, vs[j]),
                    decreases vals@.len() - i,
                {
                    let t = value_text(&vals[i], floats);
                    texts.push(t);
                    i = i + 1;
                }
                let line = join_strings(&texts, " ");
                assert(texts@.map_values(|p: String| p@) =~= Seq::new(vs.len(), |j: int| text_of_value(fm, vs[j])));
                self.print_line(line);
                Ok(Value::Null)
            },
            _ => {
                if args.len() != 1 {
                    let ghost name: Seq<char> = match k {
                        Native::Len => "len"@,
                        Native::TypeOf => "type_of"@,
                        _ => "to_str"@,
                    };
                    let (l, c) = self.error_at(
                        at,
                        Ghost(SpecRuntimeError::NativeError { message: name + " expects 1 argument"@, line: 0, column: 0 }),
                    );
                    let m = match k {
                        Native::Len => string_of("len expects 1 argument"),
                        Native::TypeOf => string_of("type_of expects 1 argument"),
                        _ => string_of("to_str expects 1 argument"),
                    };
                    proof {
                        reveal_strlit("len");
                        reveal_strlit("type_of");
                        reveal_strlit("to_str");
                        reveal_strlit(" expects 1 argument");
                        reveal_strlit("len expects 1 argument");
                        reveal_strlit("type_of expects 1 argument");
                        reveal_strlit("to_str expects 1 argument");
                        assert(m@ =~= name + " expects 1 argument"@);
                    }
                    return Err(Halt::Error(RuntimeError::NativeError { message: m, line: l, column: c }));
                }
                proof {
                    lemma_exprs_size(xs, 0);
                }
                let v = match self.eval_expr(&args[0], floats, fuel) {
                    Ok(v) => v,
                    Err(h) => return Err(h),
                };
                match k {
                    Native::Len => match &v {
                        Value::String(s) => Ok(Value::Int(s.as_str().len() as i64)),
                        Value::List(items) => {
                            proof {
                                lemma_list_view(*items);
                            }
                            Ok(Value::Int(items.len() as i64))
                        },
                        _ => {
                            let ghost vv = v@;
                            let (l, c) = self.error_at(
                                args[0].span().start,
                                Ghost(type_error("len expects String or List, got "@ + type_name_of(vv), 0, 0)),
                            );
                            let mut m = string_of("len expects String or List, got ");
                            let t = v.type_label();
                            push_str(&mut m, t.as_str());
                            Err(Halt::Error(RuntimeError::TypeError { message: m, line: l, column: c }))
                        },
                    },
                    Native::TypeOf => Ok(Value::String(v.type_label())),
                    _ => Ok(Value::String(value_text(&v, floats))),
                }
            },
        }
    }

    /// Calls a user function: binds its parameters in a fresh scope and runs
    /// its body; a `return` inside gives the result.
    fn call_user_fn<F: Fn(FloatRequest) -> FloatAnswer>(
        &mut self,
        fd: &'a FnDecl,
        args: Vec<Value<'a>>,
        line: usize,
        col: usize,
        floats: &F,
        fuel: u64,
    ) -> (r: Result<Value<'a>, Halt<'a>>)
        requires
            float_fn_ok(*floats),
            old(self).source@.len() < usize::MAX,
        ensures
            final(self).keeps(old(self)),
            (final(self).machine(), value_result_view(r)) == call_function(
                float_model(*floats),
                old(self).source@,
                old(self).machine(),
                fd@,
                values_view(args@),
                line,
                col,
                fuel as nat,
            ),
        decreases fuel, block_size(fd@.body) + 1, 0nat,
    {
        let ghost fm = float_model(*floats);
        let ghost av = values_view(args@);
        let ghost pv = fd@.params;
        if args.len() != fd.params.len() {
            let mut m = string_of("function `");
            push_str(&mut m, fd.name.as_str());
            push_str(&mut m, "` expects ");
            push_usize(&mut m, fd.params.len());
            push_str(&mut m, " arguments, got ");
            push_usize(&mut m, args.len());
            assert(m@ =~= "function `"@ + fd@.name + "` expects "@ + int_decimal(fd@.params.len() as int)
                + " arguments, got "@ + int_decimal(av.len() as int));
            return Err(Halt::Error(RuntimeError::TypeError { message: m, line, column: col }));
        }
        self.env.push_scope();
        bind_args(&mut self.env, &fd.params, &args);
        let r = self.exec_block(&fd.body, floats, fuel);
        self.env.pop_scope();
        match r {
            Ok(Some(v)) => Ok(v),
            Ok(None) => Ok(Value::Null),
            Err(Halt::Error(RuntimeError::Return(v))) => Ok(*v),
            Err(h) => Err(h),
        }
    }

    /// Runs a block in a fresh scope, which is dropped however the block ends.
    fn exec_block<F: Fn(FloatRequest) -> FloatAnswer>(&mut self, b: &'a Block, floats: &F, fuel: u64) -> (r: Result<Option<Value<'a>>, Halt<'a>>)
        requires
            float_fn_ok(*floats),
            old(self).source@.len() < usize::MAX,
        ensures
            final(self).keeps(old(self)),
            (final(self).machine(), exec_result_view(r)) == exec_block(
                float_model(*floats),
                old(self).source@,
                old(self).machine(),
                b@,
                fuel as nat,
            ),
        decreases fuel, block_size(b@), 0nat,
    {
        self.env.push_scope();
        proof {
            assert(stmts_view(b.stmts@) == b@.stmts);
        }
        let r = self.exec_stmts(&b.stmts, floats, fuel);
        self.env.pop_scope();
        r
    }

    /// Runs statements in order until one yields a value or stops.
    fn exec_stmts<F: Fn(FloatRequest) -> FloatAnswer>(&mut self, ss: &'a Vec<Stmt>, floats: &F, fuel: u64) -> (r: Result<Option<Value<'a>>, Halt<'a>>)
        requires
            float_fn_ok(*floats),
            old(self).source@.len() < usize::MAX,
        ensures
            final(self).keeps(old(self)),
            (final(self).machine(), exec_result_view(r)) == exec_stmts(
                float_model(*floats),
                old(self).source@,
                old(self).machine(),
                stmts_view(ss@),
                0,
                fuel as nat,
            ),
        decreases fuel, stmts_size(stmts_view(ss@)), 1nat,
    {
        let ghost fm = float_model(*floats);
        let ghost src = self.source@;
        let ghost xs = stmts_view(ss@);
        let ghost goal = exec_stmts(fm, src, self.machine(), xs, 0, fuel as nat);
        let mut k: usize = 0;
        while k < ss.len()
            invariant
                float_fn_ok(*floats),
                fm == float_model(*floats),
                src == self.source@,
                src == old(self).source@,
                goal == exec_stmts(fm, src, old(self).machine(), xs, 0, fuel as nat),
                self.source@.len() < usize::MAX,
                xs == stmts_view(ss@),
                0 <= k <= ss@.len(),
                goal == exec_stmts(fm, src, self.machine(), xs, k as int, fuel as nat),
            decreases ss@.len() - k,
        {
            proof {
                lemma_stmts_size(xs, k as int);
            }
            match self.exec_stmt(&ss[k], floats, fuel) {
                Ok(Some(v)) => {
                    return Ok(Some(v));
                },
                Ok(None) => {},
                Err(h) => {
                    return Err(h);
                },
            }
            k = k + 1;
        }
        Ok(None)
    }

    /// Runs one statement.
    fn exec_stmt<F: Fn(FloatRequest) -> FloatAnswer>(&mut self, s: &'a Stmt, floats: &F, fuel: u64) -> (r: Result<Option<Value<'a>>, Halt<'a>>)
        requires
            float_fn_ok(*floats),
            old(self).source@.len() < usize::MAX,
        ensures
            final(self).keeps(old(self)),
            (final(self).machine(), exec_result_view(r)) == exec_stmt(
                float_model(*floats),
                old(self).source@,
                old(self).machine(),
                s@,
                fuel as nat,
            ),
        decreases fuel, stmt_size(s@), 0nat,
    {
        match s {
            Stmt::LetStmt(l) => {
                let v = match self.eval_expr(&l.value, floats, fuel) {
                    Ok(v) => v,
                    Err(h) => return Err(h),
                };
                self.env.define(l.name.clone(), v);
                Ok(None)
            },
            Stmt::AssignStmt(a) => {
                let v = match self.eval_expr(&a.value, floats, fuel) {
                    Ok(v) => v,
                    Err(h) => return Err(h),
                };
                let found = self.env.assign(&a.name, v);
                if !found {
                    let ghost nm = a.name@;
                    let (l, c) = self.error_at(
                        a.span.start,
                        Ghost(SpecRuntimeError::VariableNotFound { name: nm, line: 0, column: 0 }),
                    );
                    return Err(Halt::Error(RuntimeError::VariableNotFound { name: a.name.clone(), line: l, column: c }));
                }
                Ok(None)
            },
            Stmt::IfStmt(i) => self.exec_if(i, floats, fuel),
            Stmt::WhileStmt(w) => self.exec_while(w, floats, fuel),
            Stmt::ForStmt(f) => {
                let it = match self.eval_expr(&f.iterable, floats, fuel) {
                    Ok(v) => v,
                    Err(h) => return Err(h),
                };
                match it {
                    Value::List(items) => {
                        proof {
                            lemma_list_view(items);
                        }
                        self.exec_for(f, items, floats, fuel)
                    },
                    other => {
                        let ghost ov = other@;
                        let (l, c) = self.error_at(
                            f.span.start,
                            Ghost(type_error("expected List, got "@ + type_name_of(ov), 0, 0)),
                        );
                        let mut m = string_of("expected List, got ");
                        let t = other.type_label();
                        push_str(&mut m, t.as_str());
                        Err(Halt::Error(RuntimeError::TypeError { message: m, line: l, column: c }))
                    },
                }
            },
            Stmt::ReturnStmt(r) => match &r.value {
                Some(x) => {
                    let v = match self.eval_expr(x, floats, fuel) {
                        Ok(v) => v,
                        Err(h) => return Err(h),
                    };
                    Err(Halt::Error(RuntimeError::Return(Box::new(v))))
                },
                None => Err(Halt::Error(RuntimeError::Return(Box::new(Value::Null)))),
            },
            Stmt::EffectStmt(e) => {
                match self.eval_expr(&e.expr, floats, fuel) {
                    Ok(_) => Ok(None),
                    Err(h) => Err(h),
                }
            },
            Stmt::ExprStmt(e) => {
                match self.eval_expr(&e.expr, floats, fuel) {
                    Ok(_) => Ok(None),
                    Err(h) => Err(h),
                }
            },
            _ => Ok(None),
        }
    }

    /// Runs an `if` statement with its `else if` chain.
    fn exec_if<F: Fn(FloatRequest) -> FloatAnswer>(&mut self, i: &'a IfStmt, floats: &F, fuel: u64) -> (r: Result<Option<Value<'a>>, Halt<'a>>)
        requires
            float_fn_ok(*floats),
            old(self).source@.len() < usize::MAX,
        ensures
            final(self).keeps(old(self)),
            (final(self).machine(), exec_result_view(r)) == exec_if(
                float_model(*floats),
                old(self).source@,
                old(self).machine(),
                i@,
                fuel as nat,
            ),
        decreases fuel, if_size(i@), 0nat,
    {
        let c = match self.eval_expr(&i.condition, floats, fuel) {
            Ok(v) => v,
            Err(h) => return Err(h),
        };
        if is_truthy(&c) {
            return self.exec_block(&i.then_branch, floats, fuel);
        }
        match &i.else_branch {
            None => Ok(None),
            Some(b) => match &**b {
                ElseBranch::Block(bl) => self.exec_block(bl, floats, fuel),
                ElseBranch::If(inner) => self.exec_if(inner, floats, fuel),
            },
        }
    }

    /// Runs a `while` loop; each iteration spends one unit of fuel.
    fn exec_while<F: Fn(FloatRequest) -> FloatAnswer>(&mut self, w: &'a WhileStmt, floats: &F, fuel: u64) -> (r: Result<Option<Value<'a>>, Halt<'a>>)
        requires
            float_fn_ok(*floats),
            old(self).source@.len() < usize::MAX,
        ensures
            final(self).keeps(old(self)),
            (final(self).machine(), exec_result_view(r)) == exec_while(
                float_model(*floats),
                old(self).source@,
                old(self).machine(),
                while_model(*w),
                fuel as nat,
            ),
        decreases fuel, expr_size(w.condition@) + block_size(w.body@), 1nat,
    {
        let ghost fm = float_model(*floats);
        let ghost src = self.source@;
        let ghost wv = while_model(*w);
        let ghost goal = exec_while(fm, src, self.machine(), wv, fuel as nat);
        let mut f = fuel;
        loop
            invariant
                float_fn_ok(*floats),
                fm == float_model(*floats),
                src == self.source@,
                src == old(self).source@,
                goal == exec_while(fm, src, old(self).machine(), wv, fuel as nat),
                self.source@.len() < usize::MAX,
                wv == while_model(*w),
                f <= fuel,
                goal == exec_while(fm, src, self.machine(), wv, f as nat),
            decreases f,
        {
            if f == 0 {
                return Err(Halt::StepLimit);
            }
            let c = match self.eval_expr(&w.condition, floats, f) {
                Ok(v) => v,
                Err(h) => return Err(h),
            };
            if !is_truthy(&c) {
                return Ok(None);
            }
            match self.exec_block(&w.body, floats, f) {
                Err(h) => {
                    return Err(h);
                },
                Ok(Some(v)) => {
                    return Ok(Some(v));
                },
                Ok(None) => {},
            }
            f = f - 1;
        }
    }

    /// Runs the body of a `for` loop once per item, each time in a fresh
    /// scope binding the loop variable.
    fn exec_for<F: Fn(FloatRequest) -> FloatAnswer>(&mut self, f: &'a ForStmt, items: Vec<Value<'a>>, floats: &F, fuel: u64) -> (r: Result<Option<Value<'a>>, Halt<'a>>)
        requires
            float_fn_ok(*floats),
            old(self).source@.len() < usize::MAX,
        ensures
            final(self).keeps(old(self)),
            (final(self).machine(), exec_result_view(r)) == exec_for(
                float_model(*floats),
                old(self).source@,
                old(self).machine(),
                for_model(*f),
                values_view(items@),
                0,
                fuel as nat,
            ),
        decreases fuel, block_size(f.body@), 1nat,
    {
        let ghost fm = float_model(*floats);
        let ghost src = self.source@;
        let ghost fv = for_model(*f);
        let ghost iv = values_view(items@);
        let ghost goal = exec_for(fm, src, self.machine(), fv, iv, 0, fuel as nat);
        proof {
            assert(stmts_view(f.body.stmts@) == f.body@.stmts);
        }
        let mut k: usize = 0;
        while k < items.len()
            invariant
                float_fn_ok(*floats),
                fm == float_model(*floats),
                src == self.source@,
                src == old(self).source@,
                goal == exec_for(fm, src, old(self).machine(), fv, iv, 0, fuel as nat),
                self.source@.len() < usize::MAX,
                fv == for_model(*f),
                iv == values_view(items@),
                stmts_view(f.body.stmts@) == fv.body.stmts,
                0 <= k <= items@.len(),
                goal == exec_for(fm, src, self.machine(), fv, iv, k as int, fuel as nat),
            decreases items@.len() - k,
        {
            self.env.push_scope();
            let v = copy_value(&items[k]);
            self.env.define(f.var.clone(), v);
            match self.exec_stmts(&f.body.stmts, floats, fuel) {
                Err(h) => {
                    self.env.pop_scope();
                    return Err(h);
                },
                Ok(Some(v)) => {
                    self.env.pop_scope();
                    return Ok(Some(v));
                },
                Ok(None) => {
                    self.env.pop_scope();
                },
            }
            k = k + 1;
        }
        Ok(None)
    }
}

/// Binds each parameter to the argument at its position, in order, in the
/// innermost scope.
fn bind_args<'a>(env: &mut Environment<'a>, params: &Vec<Param>, args: &Vec<Value<'a>>)
    requires
        params@.len() == args@.len(),
    ensures
        final(env)@ == bind_params(old(env)@, params_view(params@), values_view(args@), 0),
{
    let ghost pv = params_view(params@);
    let ghost av = values_view(args@);
    let ghost goal = bind_params(env@, pv, av, 0);
    let mut i: usize = 0;
    while i < params.len()
        invariant
            0 <= i <= params@.len(),
            params@.len() == args@.len(),
            pv == params_view(params@),
            av == values_view(args@),
            goal == bind_params(old(env)@, pv, av, 0),
            goal == bind_params(env@, pv, av, i as int),
        decreases params@.len() - i,
    {
        let v = copy_value(&args[i]);
        env.define(params[i].name.clone(), v);
        i = i + 1;
    }
}

/// The model of a `while` statement.
pub open spec fn while_model(w: WhileStmt) -> SpecWhileStmt {
    SpecWhileStmt { condition: w.condition@, body: w.body@, span: w.span }
}

/// The model of a `for` statement.
pub open spec fn for_model(f: ForStmt) -> SpecForStmt {
    SpecForStmt { var: f.var@, iterable: f.iterable@, body: f.body@, span: f.span }
}

fn native_kind(name: &String) -> (k: Option<Native>)
    ensures
        k == native_of(name@),
{
    if *name == string_of("print") {
        Some(Native::Print)
    } else if *name == string_of("len") {
        Some(Native::Len)
    } else if *name == string_of("type_of") {
        Some(Native::TypeOf)
    } else if *name == string_of("to_str") {
        Some(Native::ToStr)
    } else {
        None
    }
}

// ─── PROGRAMS ────────────────────────────────────────────────────

/// Runs one agent: fresh variables holding its functions, then its first
/// `on start` handler, if it has one.  Lines printed are added to `output`.
fn run_agent_decl<'a, F: Fn(FloatRequest) -> FloatAnswer>(
    decl: &'a AgentDecl,
    chars: Vec<char>,
    output: Vec<String>,
    fuel: u64,
    floats: &F,
) -> (r: (Vec<char>, Vec<String>, Result<(), Halt<'a>>))
    requires
        float_fn_ok(*floats),
        chars@.len() < usize::MAX,
    ensures
        r.0@ == chars@,
        (lines_view(r.1@), unit_result_view(r.2)) == run_agent(
            float_model(*floats),
            chars@,
            decl@,
            lines_view(output@),
            fuel as nat,
        ),
{
    reveal(run_agent);
    let definition = AgentDefinition::from_decl(decl);
    let ghost av = decl@;
    assert(handlers_view(decl.handlers@) =~= av.handlers);
    let mut env = Environment::new_global();
    let mut i: usize = 0;
    while i < decl.functions.len()
        invariant
            av == decl@,
            0 <= i <= decl.functions@.len(),
            define_functions(seq![Seq::<(Seq<char>, SpecValue)>::empty()], av.functions, 0)
                == define_functions(env@, av.functions, i as int),
        decreases decl.functions@.len() - i,
    {
        let fd: &'a FnDecl = &decl.functions[i];
        env.define(fd.name.clone(), Value::Function(fd));
        i = i + 1;
    }
    match first_start_handler(&decl.handlers) {
        Some(h) => {
            let mut instance = AgentInstance { definition, env, source: chars, output };
            let r = instance.exec_block(&decl.handlers[h].body, floats, fuel);
            match r {
                Err(x) => (instance.source, instance.output, Err(x)),
                Ok(_) => (instance.source, instance.output, Ok(())),
            }
        },
        None => (chars, output, Ok(())),
    }
}

/// Position of the first `on start` handler.
fn first_start_handler(handlers: &Vec<HandlerDecl>) -> (r: Option<usize>)
    ensures
        match r {
            Some(h) => h < handlers@.len() && first_start(handlers_view(handlers@), 0) == Some(h as int),
            None => first_start(handlers_view(handlers@), 0) == None::<int>,
        },
{
    let ghost hv = handlers_view(handlers@);
    let mut h: usize = 0;
    while h < handlers.len()
        invariant
            hv == handlers_view(handlers@),
            0 <= h <= handlers@.len(),
            first_start(hv, 0) == first_start(hv, h as int),
        decreases handlers@.len() - h,
    {
        match handlers[h].event {
            EventPattern::Start => {
                return Some(h);
            },
            _ => {},
        }
        h = h + 1;
    }
    None
}


/// Runs one top-level statement of a program: an agent declaration runs,
/// anything else is skipped.
fn run_stmt<'a, F: Fn(FloatRequest) -> FloatAnswer>(
    s: &'a Stmt,
    chars: Vec<char>,
    output: Vec<String>,
    fuel: u64,
    floats: &F,
) -> (r: (Vec<char>, Vec<String>, Result<(), Halt<'a>>))
    requires
        float_fn_ok(*floats),
        chars@.len() < usize::MAX,
    ensures
        r.0@ == chars@,
        (lines_view(r.1@), unit_result_view(r.2)) == run_top_level(
            float_model(*floats),
            chars@,
            s@,
            lines_view(output@),
            fuel as nat,
        ),
{
    match s {
        Stmt::AgentDecl(decl) => run_agent_decl(decl, chars, output, fuel, floats),
        _ => (chars, output, Ok(())),
    }
}

/// Runs a program with `fuel` as the bound on nested loop iterations and
/// calls: each agent, in order, gets fresh variables holding its functions
/// and runs its first `on start` handler.  Returns the lines printed and
/// how the run ended; the first error ends it.
pub fn run_with_fuel<'a, F: Fn(FloatRequest) -> FloatAnswer>(
    program: &'a Program,
    source: &str,
    fuel: u64,
    floats: &F,
) -> (r: (Vec<String>, Result<(), Halt<'a>>))
    requires
        float_fn_ok(*floats),
        source@.len() < usize::MAX,
    ensures
        (lines_view(r.0@), unit_result_view(r.1)) == run_program(
            float_model(*floats),
            source@,
            program@,
            fuel as nat,
        ),
{
    let ghost fm = float_model(*floats);
    let ghost src = source@;
    let ghost ps = program@.stmts;
    let mut chars = chars_of(source);
    let mut output: Vec<String> = Vec::new();
    let mut k: usize = 0;
    let ghost goal = run_program(fm, src, program@, fuel as nat);
    assert(lines_view(output@) =~= Seq::<Seq<char>>::empty());
    while k < program.stmts.len()
        invariant
            float_fn_ok(*floats),
            fm == float_model(*floats),
            src == source@,
            chars@ == src,
            src.len() < usize::MAX,
            ps == program@.stmts,
            0 <= k <= program.stmts@.len(),
            goal == run_program(fm, src, program@, fuel as nat),
            goal == run_from(fm, src, ps, k as int, lines_view(output@), fuel as nat),
        decreases program.stmts@.len() - k,
    {
        proof {
            assert(ps[k as int] == program.stmts@[k as int]@);
        }
        let (c2, o2, r) = run_stmt(&program.stmts[k], chars, output, fuel, floats);
        chars = c2;
        output = o2;
        match r {
            Err(x) => {
                return (output, Err(x));
            },
            Ok(_) => {},
        }
        k = k + 1;
    }
    (output, Ok(()))
}

/// The texts of a vector of lines.
pub open spec fn lines_view(v: Seq<String>) -> Seq<Seq<char>> {
    Seq::new(v.len(), |i: int| v[i]@)
}

/// The model of the outcome of a run.
pub open spec fn unit_result_view(r: Result<(), Halt>) -> Result<(), SpecHalt> {
    match r {
        Ok(_) => Ok(()),
        Err(h) => Err(h@),
    }
}

/// Runs a program: each agent, in order, runs its first `on start` handler.
/// Returns the lines printed and how the run ended.  Loops and calls nest
/// at most `u64::MAX` deep.
pub fn run<'a, F: Fn(FloatRequest) -> FloatAnswer>(program: &'a Program, source: &str, floats: &F) -> (r: (
    Vec<String>,
    Result<(), Halt<'a>>,
))
    requires
        float_fn_ok(*floats),
        source@.len() < usize::MAX,
    ensures
        (lines_view(r.0@), unit_result_view(r.1)) == run_program(
            float_model(*floats),
            source@,
            program@,
            u64::MAX as nat,
        ),
{
    run_with_fuel(program, source, u64::MAX, floats)
}

} // verus!
