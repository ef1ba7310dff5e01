//! Runtime errors, and the operators and formatting of the language on
//! values.
use vstd::prelude::*;
use vstd::wrapping::i64_specs;
use crate::ast::{BinOp, UnaryOp, Literal, SpecLiteral};
use crate::text::{push_str, push_usize, string_of, chars_of, int_decimal};
use crate::value::{
    Value, SpecValue, FloatRequest, FloatAnswer, FloatOp, Order, FloatModel, SpecFloatRequest,
    float_fn_ok, float_model, ask, answer_bits, answer_order, float_is_zero,
    type_name_of, values_equal, truthy, values_eq, is_truthy, value_debug, value_debug_text,
};

verus! {

// ─── RUNTIME ERRORS ──────────────────────────────────────────────

#[derive(Debug)]
pub enum RuntimeError<'a> {
    VariableNotFound { name: String, line: usize, column: usize },
    TypeError { message: String, line: usize, column: usize },
    DivisionByZero { line: usize, column: usize },
    /// A `return` that reached the end of a handler.
    Return(Box<Value<'a>>),
    NativeError { message: String, line: usize, column: usize },
}

pub enum SpecRuntimeError {
    VariableNotFound { name: Seq<char>, line: usize, column: usize },
    TypeError { message: Seq<char>, line: usize, column: usize },
    DivisionByZero { line: usize, column: usize },
    Return(SpecValue),
    NativeError { message: Seq<char>, line: usize, column: usize },
}

impl<'a> View for RuntimeError<'a> {
    type V = SpecRuntimeError;

    open spec fn view(&self) -> SpecRuntimeError {
        match self {
            RuntimeError::VariableNotFound { name, line, column } => SpecRuntimeError::VariableNotFound {
                name: name@,
                line: *line,
                column: *column,
            },
            RuntimeError::TypeError { message, line, column } => SpecRuntimeError::TypeError {
                message: message@,
                line: *line,
                column: *column,
            },
            RuntimeError::DivisionByZero { line, column } => SpecRuntimeError::DivisionByZero {
                line: *line,
                column: *column,
            },
            RuntimeError::Return(v) => SpecRuntimeError::Return((**v)@),
            RuntimeError::NativeError { message, line, column } => SpecRuntimeError::NativeError {
                message: message@,
                line: *line,
                column: *column,
            },
        }
    }
}

/// A type error located at (`line`, `column`).
pub open spec fn type_error(message: Seq<char>, line: usize, column: usize) -> SpecRuntimeError {
    SpecRuntimeError::TypeError { message, line, column }
}

/// The text of a runtime error, as it is reported to the user.
pub open spec fn runtime_error_text(fm: FloatModel, e: SpecRuntimeError) -> Seq<char> {
    match e {
        SpecRuntimeError::VariableNotFound { name, line, column } => "Variable not found: `"@ + name
            + "`"@ + location_text(line, column),
        SpecRuntimeError::TypeError { message, line, column } => "Type error: "@ + message
            + location_text(line, column),
        SpecRuntimeError::DivisionByZero { line, column } => "Division by zero"@ + location_text(
            line,
            column,
        ),
        SpecRuntimeError::Return(v) => "Return value: "@ + value_debug_text(fm, v),
        SpecRuntimeError::NativeError { message, line, column } => "Native function error: "@
            + message + location_text(line, column),
    }
}

/// The location suffix of an error report.
pub open spec fn location_text(line: usize, column: usize) -> Seq<char> {
    " at line "@ + int_decimal(line as int) + ", column "@ + int_decimal(column as int)
}

fn push_location(s: &mut String, line: usize, column: usize)
    ensures
        final(s)@ == old(s)@ + location_text(line, column),
{
    push_str(s, " at line ");
    push_usize(s, line);
    push_str(s, ", column ");
    push_usize(s, column);
    assert(final(s)@ =~= old(s)@ + location_text(line, column));
}

impl<'a> RuntimeError<'a> {
    /// The report of this error.
    pub fn message<F: Fn(FloatRequest) -> FloatAnswer>(&self, floats: &F) -> (r: String)
        requires
            float_fn_ok(*floats),
        ensures
            r@ == runtime_error_text(float_model(*floats), self@),
    {
        match self {
            RuntimeError::VariableNotFound { name, line, column } => {
                let mut s = string_of("Variable not found: `");
                push_str(&mut s, name.as_str());
                push_str(&mut s, "`");
                push_location(&mut s, *line, *column);
                assert(s@ =~= runtime_error_text(float_model(*floats), self@));
                s
            },
            RuntimeError::TypeError { message, line, column } => {
                let mut s = string_of("Type error: ");
                push_str(&mut s, message.as_str());
                push_location(&mut s, *line, *column);
                s
            },
            RuntimeError::DivisionByZero { line, column } => {
                let mut s = string_of("Division by zero");
                push_location(&mut s, *line, *column);
                assert(s@ =~= runtime_error_text(float_model(*floats), self@));
                s
            },
            RuntimeError::Return(v) => {
                let mut s = string_of("Return value: ");
                let x = value_debug(v, floats);
                push_str(&mut s, x.as_str());
                assert(s@ =~= runtime_error_text(float_model(*floats), self@));
                s
            },
            RuntimeError::NativeError { message, line, column } => {
                let mut s = string_of("Native function error: ");
                push_str(&mut s, message.as_str());
                push_location(&mut s, *line, *column);
                s
            },
        }
    }
}

// ─── OPERATORS ───────────────────────────────────────────────────

/// The name of an operator, as error messages show it.
pub open spec fn binop_name(op: BinOp) -> Seq<char> {
    match op {
        BinOp::Add => "Add"@,
        BinOp::Sub => "Sub"@,
        BinOp::Mul => "Mul"@,
        BinOp::Div => "Div"@,
        BinOp::Rem => "Rem"@,
        BinOp::Eq => "Eq"@,
        BinOp::NotEq => "NotEq"@,
        BinOp::Lt => "Lt"@,
        BinOp::Gt => "Gt"@,
        BinOp::LtEq => "LtEq"@,
        BinOp::GtEq => "GtEq"@,
        BinOp::And => "And"@,
        BinOp::Or => "Or"@,
    }
}

fn binop_label(op: BinOp) -> (r: String)
    ensures
        r@ == binop_name(op),
{
    match op {
        BinOp::Add => string_of("Add"),
        BinOp::Sub => string_of("Sub"),
        BinOp::Mul => string_of("Mul"),
        BinOp::Div => string_of("Div"),
        BinOp::Rem => string_of("Rem"),
        BinOp::Eq => string_of("Eq"),
        BinOp::NotEq => string_of("NotEq"),
        BinOp::Lt => string_of("Lt"),
        BinOp::Gt => string_of("Gt"),
        BinOp::LtEq => string_of("LtEq"),
        BinOp::GtEq => string_of("GtEq"),
        BinOp::And => string_of("And"),
        BinOp::Or => string_of("Or"),
    }
}

/// Lexicographic order of texts by code point, from position `i` on.
pub open spec fn lex_order_from(a: Seq<char>, b: Seq<char>, i: int) -> Order
    decreases a.len() - i,
{
    if i >= a.len() {
        if i >= b.len() {
            Order::Equal
        } else {
            Order::Less
        }
    } else if i >= b.len() {
        Order::Greater
    } else if (a[i] as u32) < (b[i] as u32) {
        Order::Less
    } else if (a[i] as u32) > (b[i] as u32) {
        Order::Greater
    } else {
        lex_order_from(a, b, i + 1)
    }
}

/// Lexicographic order of texts (that of `String`'s `Ord`).
pub open spec fn lex_order(a: Seq<char>, b: Seq<char>) -> Order {
    lex_order_from(a, b, 0)
}

fn text_order(a: &String, b: &String) -> (o: Order)
    ensures
        o == lex_order(a@, b@),
{
    let x = chars_of(a.as_str());
    let y = chars_of(b.as_str());
    let mut i: usize = 0;
    while i < x.len() && i < y.len() && (x[i] as u32) == (y[i] as u32)
        invariant
            x@ == a@,
            y@ == b@,
            0 <= i <= x@.len(),
            i <= y@.len(),
            lex_order_from(a@, b@, 0) == lex_order_from(a@, b@, i as int),
        decreases x@.len() - i,
    {
        i = i + 1;
    }
    if i >= x.len() {
        if i >= y.len() {
            Order::Equal
        } else {
            Order::Less
        }
    } else if i >= y.len() {
        Order::Greater
    } else if (x[i] as u32) < (y[i] as u32) {
        Order::Less
    } else {
        Order::Greater
    }
}

/// The order of two values for `<`, `>`, `<=`, `>=`, when they are comparable.
pub open spec fn compare_values(fm: FloatModel, l: SpecValue, r: SpecValue) -> Option<Order> {
    match (l, r) {
        (SpecValue::Int(a), SpecValue::Int(b)) => Some(
            if a < b {
                Order::Less
            } else if a == b {
                Order::Equal
            } else {
                Order::Greater
            },
        ),
        (SpecValue::Float(a), SpecValue::Float(b)) => Some(answer_order(fm(SpecFloatRequest::Compare(a, b)))),
        (SpecValue::Str(a), SpecValue::Str(b)) => Some(lex_order(a, b)),
        _ => None,
    }
}

/// Whether `o` satisfies the comparison operator `op`.
pub open spec fn order_satisfies(o: Order, op: BinOp) -> bool {
    match op {
        BinOp::Lt => o == Order::Less,
        BinOp::Gt => o == Order::Greater,
        BinOp::LtEq => o != Order::Greater,
        _ => o != Order::Less,
    }
}

/// Rust's truncating integer division, then wrapped to 64 bits.
pub open spec fn int_div(a: i64, b: i64) -> i64 {
    let q = (if a < 0 { -a } else { a as int }) / (if b < 0 { -b } else { b as int });
    i64_specs::signed_crop(if (a < 0) == (b < 0) { q } else { -q })
}

/// Rust's truncating integer remainder (sign of the dividend).
pub open spec fn int_rem(a: i64, b: i64) -> i64 {
    let r = (if a < 0 { -a } else { a as int }) % (if b < 0 { -b } else { b as int });
    i64_specs::signed_crop(if a < 0 { -r } else { r })
}

pub open spec fn float_arith(op: BinOp) -> FloatOp {
    match op {
        BinOp::Add => FloatOp::Add,
        BinOp::Sub => FloatOp::Sub,
        BinOp::Mul => FloatOp::Mul,
        _ => FloatOp::Div,
    }
}

/// Arithmetic on two floats (bit patterns); `None` when `op` is not one of
/// `+ - * /`; division by zero is an error.
pub open spec fn float_binop(
    fm: FloatModel,
    a: u64,
    b: u64,
    op: BinOp,
    line: usize,
    column: usize,
) -> Option<Result<SpecValue, SpecRuntimeError>> {
    match op {
        BinOp::Add | BinOp::Sub | BinOp::Mul => Some(
            Ok(SpecValue::Float(answer_bits(fm(SpecFloatRequest::Arith(float_arith(op), a, b))))),
        ),
        BinOp::Div => Some(
            if float_is_zero(b) {
                Err(SpecRuntimeError::DivisionByZero { line, column })
            } else {
                Ok(SpecValue::Float(answer_bits(fm(SpecFloatRequest::Arith(FloatOp::Div, a, b)))))
            },
        ),
        _ => None,
    }
}

/// The result of a binary operator on two values.
pub open spec fn binop_result(
    fm: FloatModel,
    l: SpecValue,
    r: SpecValue,
    op: BinOp,
    line: usize,
    column: usize,
) -> Result<SpecValue, SpecRuntimeError> {
    match op {
        BinOp::Eq => Ok(
            SpecValue::Bool(
                if type_name_of(l) != type_name_of(r) {
                    false
                } else {
                    values_equal(l, r)
                },
            ),
        ),
        BinOp::NotEq => Ok(
            SpecValue::Bool(
                if type_name_of(l) != type_name_of(r) {
                    true
                } else {
                    !values_equal(l, r)
                },
            ),
        ),
        BinOp::Lt | BinOp::Gt | BinOp::LtEq | BinOp::GtEq => match compare_values(fm, l, r) {
            Some(o) => Ok(SpecValue::Bool(order_satisfies(o, op))),
            None => Err(
                type_error(
                    "cannot compare "@ + type_name_of(l) + " with "@ + type_name_of(r),
                    line,
                    column,
                ),
            ),
        },
        _ => match (l, r) {
            (SpecValue::Int(a), SpecValue::Int(b)) => match op {
                BinOp::Add => Ok(SpecValue::Int(i64_specs::wrapping_add(a, b))),
                BinOp::Sub => Ok(SpecValue::Int(i64_specs::wrapping_sub(a, b))),
                BinOp::Mul => Ok(SpecValue::Int(i64_specs::wrapping_mul(a, b))),
                BinOp::Div => if b == 0 {
                    Err(SpecRuntimeError::DivisionByZero { line, column })
                } else {
                    Ok(SpecValue::Int(int_div(a, b)))
                },
                BinOp::Rem => if b == 0 {
                    Err(SpecRuntimeError::DivisionByZero { line, column })
                } else {
                    Ok(SpecValue::Int(int_rem(a, b)))
                },
                BinOp::And => Ok(SpecValue::Int(if a != 0 { b } else { a })),
                _ => Ok(SpecValue::Int(if a != 0 { a } else { b })),
            },
            (SpecValue::Float(a), SpecValue::Float(b)) => match float_binop(fm, a, b, op, line, column) {
                Some(res) => res,
                None => Err(
                    type_error("operator "@ + binop_name(op) + " not supported for Float"@, line, column),
                ),
            },
            (SpecValue::Int(a), SpecValue::Float(b)) => match float_binop(
                fm,
                answer_bits(fm(SpecFloatRequest::FromInt(a))),
                b,
                op,
                line,
                column,
            ) {
                Some(res) => res,
                None => Err(type_error("type mismatch"@, line, column)),
            },
            (SpecValue::Float(a), SpecValue::Int(b)) => match float_binop(
                fm,
                a,
                answer_bits(fm(SpecFloatRequest::FromInt(b))),
                op,
                line,
                column,
            ) {
                Some(res) => res,
                None => Err(type_error("type mismatch"@, line, column)),
            },
            (SpecValue::Str(a), SpecValue::Str(b)) => match op {
                BinOp::Add => Ok(SpecValue::Str(a + b)),
                _ => Err(
                    type_error("operator "@ + binop_name(op) + " not supported for String"@, line, column),
                ),
            },
            (SpecValue::Bool(a), SpecValue::Bool(b)) => match op {
                BinOp::And => Ok(SpecValue::Bool(a && b)),
                BinOp::Or => Ok(SpecValue::Bool(a || b)),
                _ => Err(
                    type_error("operator "@ + binop_name(op) + " not supported for Bool"@, line, column),
                ),
            },
            _ => Err(
                type_error(
                    "cannot apply "@ + binop_name(op) + " to "@ + type_name_of(l) + " and "@
                        + type_name_of(r),
                    line,
                    column,
                ),
            ),
        },
    }
}

/// The result of a unary operator on a value.
pub open spec fn unary_result(
    fm: FloatModel,
    v: SpecValue,
    op: UnaryOp,
    line: usize,
    column: usize,
) -> Result<SpecValue, SpecRuntimeError> {
    match op {
        UnaryOp::Neg => match v {
            SpecValue::Int(i) => Ok(SpecValue::Int(i64_specs::wrapping_sub(0, i))),
            SpecValue::Float(f) => Ok(SpecValue::Float(answer_bits(fm(SpecFloatRequest::Negate(f))))),
            _ => Err(type_error("cannot negate "@ + type_name_of(v), line, column)),
        },
        UnaryOp::Not => Ok(SpecValue::Bool(!truthy(v))),
    }
}

/// The value of a literal.
pub open spec fn literal_value(fm: FloatModel, lit: SpecLiteral) -> SpecValue {
    match lit {
        SpecLiteral::Int(i) => SpecValue::Int(i),
        SpecLiteral::Float(t) => SpecValue::Float(answer_bits(fm(SpecFloatRequest::Parse(t)))),
        SpecLiteral::Scientific(t) => SpecValue::Float(answer_bits(fm(SpecFloatRequest::Parse(t)))),
        SpecLiteral::String(s) => SpecValue::Str(s),
        SpecLiteral::Bool(b) => SpecValue::Bool(b),
        SpecLiteral::Null => SpecValue::Null,
        SpecLiteral::List(_) => SpecValue::List(Seq::empty()),
        SpecLiteral::Dict(_) => SpecValue::Null,
    }
}

fn bits_answer(a: FloatAnswer) -> (b: u64)
    ensures
        b == answer_bits(a@),
{
    match a {
        FloatAnswer::Bits(b) => b,
        _ => 0,
    }
}

fn order_answer(a: FloatAnswer) -> (o: Order)
    ensures
        o == answer_order(a@),
{
    match a {
        FloatAnswer::Order(o) => o,
        _ => Order::Equal,
    }
}

fn is_zero_bits(b: u64) -> (r: bool)
    ensures
        r == float_is_zero(b),
{
    b % 0x8000_0000_0000_0000u64 == 0
}

fn int_quotient(a: i64, b: i64) -> (q: i64)
    requires
        b != 0,
    ensures
        q == int_div(a, b),
{
    let ua: u64 = if a < 0 { (-(a as i128)) as u64 } else { a as u64 };
    let ub: u64 = if b < 0 { (-(b as i128)) as u64 } else { b as u64 };
    let m: u64 = ua / ub;
    let q: i128 = if (a < 0) == (b < 0) { m as i128 } else { -(m as i128) };
    proof {
        assert(m <= ua) by (nonlinear_arith)
            requires
                m == ua / ub,
                ub >= 1,
        ;
    }
    if q > 0x7fff_ffff_ffff_ffffi128 {
        assert(q == 0x8000_0000_0000_0000i128);
        assert(i64_specs::signed_crop(q as int) == i64::MIN);
        i64::MIN
    } else {
        assert(i64_specs::signed_crop(q as int) == q);
        q as i64
    }
}

fn int_remainder(a: i64, b: i64) -> (r: i64)
    requires
        b != 0,
    ensures
        r == int_rem(a, b),
{
    let ua: u64 = if a < 0 { (-(a as i128)) as u64 } else { a as u64 };
    let ub: u64 = if b < 0 { (-(b as i128)) as u64 } else { b as u64 };
    let m: u64 = ua % ub;
    proof {
        assert(m < ub) by (nonlinear_arith)
            requires
                m == ua % ub,
                ub >= 1,
        ;
    }
    let r: i128 = if a < 0 { -(m as i128) } else { m as i128 };
    assert(i64_specs::signed_crop(r as int) == r);
    r as i64
}

fn float_bits_op<'b, F: Fn(FloatRequest) -> FloatAnswer>(
    a: u64,
    b: u64,
    op: BinOp,
    line: usize,
    column: usize,
    floats: &F,
) -> (r: Option<Result<Value<'b>, RuntimeError<'b>>>)
    requires
        float_fn_ok(*floats),
    ensures
        match (r, float_binop(float_model(*floats), a, b, op, line, column)) {
            (None, None) => true,
            (Some(Ok(v)), Some(Ok(w))) => v@ == w,
            (Some(Err(e)), Some(Err(w))) => e@ == w,
            _ => false,
        },
{
    match op {
        BinOp::Add => Some(Ok(Value::Float(bits_answer(ask(floats, FloatRequest::Arith(FloatOp::Add, a, b)))))),
        BinOp::Sub => Some(Ok(Value::Float(bits_answer(ask(floats, FloatRequest::Arith(FloatOp::Sub, a, b)))))),
        BinOp::Mul => Some(Ok(Value::Float(bits_answer(ask(floats, FloatRequest::Arith(FloatOp::Mul, a, b)))))),
        BinOp::Div => if is_zero_bits(b) {
            Some(Err(RuntimeError::DivisionByZero { line, column }))
        } else {
            Some(Ok(Value::Float(bits_answer(ask(floats, FloatRequest::Arith(FloatOp::Div, a, b))))))
        },
        _ => None,
    }
}

fn op_error<'a>(prefix: &str, op: BinOp, suffix: &str, line: usize, column: usize) -> (e: RuntimeError<'a>)
    ensures
        e@ == type_error(prefix@ + binop_name(op) + suffix@, line, column),
{
    let mut m = string_of(prefix);
    let n = binop_label(op);
    push_str(&mut m, n.as_str());
    push_str(&mut m, suffix);
    RuntimeError::TypeError { message: m, line, column }
}

/// Applies a binary operator to two values; the location is that of the
/// operator, for errors.
pub fn eval_binop<'a, 'b, F: Fn(FloatRequest) -> FloatAnswer>(
    l: &Value<'a>,
    r: &Value<'a>,
    op: BinOp,
    line: usize,
    column: usize,
    floats: &F,
) -> (res: Result<Value<'b>, RuntimeError<'b>>)
    requires
        float_fn_ok(*floats),
    ensures
        match (res, binop_result(float_model(*floats), l@, r@, op, line, column)) {
            (Ok(v), Ok(w)) => v@ == w,
            (Err(e), Err(w)) => e@ == w,
            _ => false,
        },
{
    let ghost fm = float_model(*floats);
    match op {
        BinOp::Eq => {
            let tl = l.type_label();
            let tr = r.type_label();
            if tl != tr {
                return Ok(Value::Bool(false));
            }
            Ok(Value::Bool(values_eq(l, r)))
        },
        BinOp::NotEq => {
            let tl = l.type_label();
            let tr = r.type_label();
            if tl != tr {
                return Ok(Value::Bool(true));
            }
            Ok(Value::Bool(!values_eq(l, r)))
        },
        BinOp::Lt | BinOp::Gt | BinOp::LtEq | BinOp::GtEq => {
            let ord: Option<Order> = match (l, r) {
                (Value::Int(a), Value::Int(b)) => Some(
                    if *a < *b {
                        Order::Less
                    } else if *a == *b {
                        Order::Equal
                    } else {
                        Order::Greater
                    },
                ),
                (Value::Float(a), Value::Float(b)) => Some(order_answer(ask(floats, FloatRequest::Compare(*a, *b)))),
                (Value::String(a), Value::String(b)) => Some(text_order(a, b)),
                _ => None,
            };
            match ord {
                Some(o) => {
                    let sat = match op {
                        BinOp::Lt => o == Order::Less,
                        BinOp::Gt => o == Order::Greater,
                        BinOp::LtEq => o != Order::Greater,
                        _ => o != Order::Less,
                    };
                    Ok(Value::Bool(sat))
                },
                None => {
                    let mut m = string_of("cannot compare ");
                    let tl = l.type_label();
                    let tr = r.type_label();
                    push_str(&mut m, tl.as_str());
                    push_str(&mut m, " with ");
                    push_str(&mut m, tr.as_str());
                    Err(RuntimeError::TypeError { message: m, line, column })
                },
            }
        },
        _ => match (l, r) {
            (Value::Int(a), Value::Int(b)) => {
                let a = *a;
                let b = *b;
                match op {
                    BinOp::Add => Ok(Value::Int(a.wrapping_add(b))),
                    BinOp::Sub => Ok(Value::Int(a.wrapping_sub(b))),
                    BinOp::Mul => Ok(Value::Int(a.wrapping_mul(b))),
                    BinOp::Div => if b == 0 {
                        Err(RuntimeError::DivisionByZero { line, column })
                    } else {
                        Ok(Value::Int(int_quotient(a, b)))
                    },
                    BinOp::Rem => if b == 0 {
                        Err(RuntimeError::DivisionByZero { line, column })
                    } else {
                        Ok(Value::Int(int_remainder(a, b)))
                    },
                    BinOp::And => Ok(Value::Int(if a != 0 { b } else { a })),
                    _ => Ok(Value::Int(if a != 0 { a } else { b })),
                }
            },
            (Value::Float(a), Value::Float(b)) => match float_bits_op(*a, *b, op, line, column, floats) {
                Some(res) => res,
                None => Err(op_error("operator ", op, " not supported for Float", line, column)),
            },
            (Value::Int(a), Value::Float(b)) => {
                let af = bits_answer(ask(floats, FloatRequest::FromInt(*a)));
                match float_bits_op(af, *b, op, line, column, floats) {
                    Some(res) => res,
                    None => Err(RuntimeError::TypeError { message: string_of("type mismatch"), line, column }),
                }
            },
            (Value::Float(a), Value::Int(b)) => {
                let bf = bits_answer(ask(floats, FloatRequest::FromInt(*b)));
                match float_bits_op(*a, bf, op, line, column, floats) {
                    Some(res) => res,
                    None => Err(RuntimeError::TypeError { message: string_of("type mismatch"), line, column }),
                }
            },
            (Value::String(a), Value::String(b)) => match op {
                BinOp::Add => {
                    let mut s = a.clone();
                    push_str(&mut s, b.as_str());
                    Ok(Value::String(s))
                },
                _ => Err(op_error("operator ", op, " not supported for String", line, column)),
            },
            (Value::Bool(a), Value::Bool(b)) => match op {
                BinOp::And => Ok(Value::Bool(*a && *b)),
                BinOp::Or => Ok(Value::Bool(*a || *b)),
                _ => Err(op_error("operator ", op, " not supported for Bool", line, column)),
            },
            _ => {
                let mut m = string_of("cannot apply ");
                let n = binop_label(op);
                push_str(&mut m, n.as_str());
                push_str(&mut m, " to ");
                let tl = l.type_label();
                let tr = r.type_label();
                push_str(&mut m, tl.as_str());
                push_str(&mut m, " and ");
                push_str(&mut m, tr.as_str());
                Err(RuntimeError::TypeError { message: m, line, column })
            },
        },
    }
}

/// Applies a unary operator to a value.
pub fn eval_unary<'a, 'b, F: Fn(FloatRequest) -> FloatAnswer>(
    v: &Value<'a>,
    op: UnaryOp,
    line: usize,
    column: usize,
    floats: &F,
) -> (res: Result<Value<'b>, RuntimeError<'b>>)
    requires
        float_fn_ok(*floats),
    ensures
        match (res, unary_result(float_model(*floats), v@, op, line, column)) {
            (Ok(x), Ok(w)) => x@ == w,
            (Err(e), Err(w)) => e@ == w,
            _ => false,
        },
{
    match op {
        UnaryOp::Neg => match v {
            Value::Int(i) => Ok(Value::Int(0i64.wrapping_sub(*i))),
            Value::Float(f) => Ok(Value::Float(bits_answer(ask(floats, FloatRequest::Negate(*f))))),
            _ => {
                let mut m = string_of("cannot negate ");
                let t = v.type_label();
                push_str(&mut m, t.as_str());
                Err(RuntimeError::TypeError { message: m, line, column })
            },
        },
        UnaryOp::Not => Ok(Value::Bool(!is_truthy(v))),
    }
}

/// The value of a literal.
pub fn literal_to_value<'b, F: Fn(FloatRequest) -> FloatAnswer>(lit: &Literal, floats: &F) -> (v: Value<'b>)
    requires
        float_fn_ok(*floats),
    ensures
        v@ == literal_value(float_model(*floats), lit@),
{
    match lit {
        Literal::Int(i) => Value::Int(*i),
        Literal::Float(t) => Value::Float(bits_answer(ask(floats, FloatRequest::Parse(t.clone())))),
        Literal::Scientific(t) => Value::Float(bits_answer(ask(floats, FloatRequest::Parse(t.clone())))),
        Literal::String(s) => Value::String(s.clone()),
        Literal::Bool(b) => Value::Bool(*b),
        Literal::Null => Value::Null,
        Literal::List(_) => {
            let v: Vec<Value<'b>> = Vec::new();
            proof {
                crate::value::lemma_list_view(v);
                assert(crate::value::values_view(v@) =~= Seq::empty());
            }
            Value::List(v)
        },
        Literal::Dict(_) => Value::Null,
    }
}

} // verus!
