//! Runtime values of the interpreter, their model, and the operations on
//! them that do not touch the environment.
//!
//! Floating-point values are carried as their IEEE-754 bit patterns.  Every
//! operation that needs floating-point arithmetic is phrased as a
//! `FloatRequest` handed to a caller-supplied function; the contracts state
//! the results in terms of the model of that function (`float_model`).
use vstd::prelude::*;
use crate::ast::{FnDecl, SpecFnDecl, fn_view};
use crate::text::{push_i64, push_str, string_of, int_decimal, seq_join, join_strings};
use crate::token::{debug_quoted, debug_str};

verus! {

// ─── FLOATING-POINT REQUESTS ─────────────────────────────────────

#[derive(Debug, Clone, Copy, PartialEq, Eq, Structural)]
pub enum FloatOp {
    Add,
    Sub,
    Mul,
    Div,
}

/// A three-way comparison outcome.
#[derive(Debug, Clone, Copy, PartialEq, Eq, Structural)]
pub enum Order {
    Less,
    Equal,
    Greater,
}

/// A floating-point computation the interpreter needs done.
/// Bit patterns are those of `f64::to_bits`.
#[derive(Debug)]
pub enum FloatRequest {
    /// The value of a float literal's source text (`str::parse::<f64>`).
    Parse(String),
    /// `i as f64`.
    FromInt(i64),
    /// `a op b`.
    Arith(FloatOp, u64, u64),
    /// `-a`.
    Negate(u64),
    /// `a.partial_cmp(b)`, with unordered operands reported as `Equal`.
    Compare(u64, u64),
    /// `a.to_string()`.
    Display(u64),
    /// `format!("{:.prec$}", a)`.
    Fixed(u64, usize),
    /// `format!("{:?}", a)`.
    Debug(u64),
}

/// The answer to a `FloatRequest`.
#[derive(Debug)]
pub enum FloatAnswer {
    Bits(u64),
    Order(Order),
    Text(String),
}

pub enum SpecFloatRequest {
    Parse(Seq<char>),
    FromInt(i64),
    Arith(FloatOp, u64, u64),
    Negate(u64),
    Compare(u64, u64),
    Display(u64),
    Fixed(u64, usize),
    Debug(u64),
}

pub enum SpecFloatAnswer {
    Bits(u64),
    Order(Order),
    Text(Seq<char>),
}

impl View for FloatRequest {
    type V = SpecFloatRequest;

    open spec fn view(&self) -> SpecFloatRequest {
        match self {
            FloatRequest::Parse(t) => SpecFloatRequest::Parse(t@),
            FloatRequest::FromInt(i) => SpecFloatRequest::FromInt(*i),
            FloatRequest::Arith(op, a, b) => SpecFloatRequest::Arith(*op, *a, *b),
            FloatRequest::Negate(a) => SpecFloatRequest::Negate(*a),
            FloatRequest::Compare(a, b) => SpecFloatRequest::Compare(*a, *b),
            FloatRequest::Display(a) => SpecFloatRequest::Display(*a),
            FloatRequest::Fixed(a, p) => SpecFloatRequest::Fixed(*a, *p),
            FloatRequest::Debug(a) => SpecFloatRequest::Debug(*a),
        }
    }
}

impl View for FloatAnswer {
    type V = SpecFloatAnswer;

    open spec fn view(&self) -> SpecFloatAnswer {
        match self {
            FloatAnswer::Bits(b) => SpecFloatAnswer::Bits(*b),
            FloatAnswer::Order(o) => SpecFloatAnswer::Order(*o),
            FloatAnswer::Text(t) => SpecFloatAnswer::Text(t@),
        }
    }
}

/// The function from requests to answers that a floating-point implementation computes.
pub type FloatModel = spec_fn(SpecFloatRequest) -> SpecFloatAnswer;

/// A floating-point implementation the interpreter can use: it accepts
/// every request, and its answer depends on the request's value alone.
pub open spec fn float_fn_ok<F: Fn(FloatRequest) -> FloatAnswer>(f: F) -> bool {
    &&& forall|r: FloatRequest| call_requires(f, (r,))
    &&& forall|r1: FloatRequest, r2: FloatRequest, a1: FloatAnswer, a2: FloatAnswer|
        r1@ == r2@ && call_ensures(f, (r1,), a1) && call_ensures(f, (r2,), a2) ==> a1@ == a2@
}

/// The model of a floating-point implementation: for each request, the
/// answer it gives.
pub open spec fn float_model<F: Fn(FloatRequest) -> FloatAnswer>(f: F) -> FloatModel {
    |q: SpecFloatRequest| (choose|a: FloatAnswer| gives_answer(f, q, a))@
}

/// `f` answers some request of value `q` with `a`.
pub open spec fn gives_answer<F: Fn(FloatRequest) -> FloatAnswer>(f: F, q: SpecFloatRequest, a: FloatAnswer) -> bool {
    exists|r: FloatRequest| #[trigger] call_ensures(f, (r,), a) && r@ == q
}

/// An answer obtained from `f` is the one its model gives.
pub proof fn lemma_float_call<F: Fn(FloatRequest) -> FloatAnswer>(f: F, r: FloatRequest, a: FloatAnswer)
    requires
        float_fn_ok(f),
        call_ensures(f, (r,), a),
    ensures
        float_model(f)(r@) == a@,
{
    let q = r@;
    assert(gives_answer(f, q, a));
    let a1 = choose|a1: FloatAnswer| gives_answer(f, q, a1);
    let r1 = choose|r1: FloatRequest| #[trigger] call_ensures(f, (r1,), a1) && r1@ == q;
    assert(a1@ == a@);
}

pub open spec fn answer_bits(a: SpecFloatAnswer) -> u64 {
    match a {
        SpecFloatAnswer::Bits(b) => b,
        _ => 0,
    }
}

pub open spec fn answer_order(a: SpecFloatAnswer) -> Order {
    match a {
        SpecFloatAnswer::Order(o) => o,
        _ => Order::Equal,
    }
}

pub open spec fn answer_text(a: SpecFloatAnswer) -> Seq<char> {
    match a {
        SpecFloatAnswer::Text(t) => t,
        _ => Seq::empty(),
    }
}

/// Asks `f` for the answer to `r`.
pub fn ask<F: Fn(FloatRequest) -> FloatAnswer>(f: &F, r: FloatRequest) -> (a: FloatAnswer)
    requires
        float_fn_ok(*f),
    ensures
        a@ == float_model(*f)(r@),
{
    let ghost rv = r@;
    let a = f(r);
    proof {
        lemma_float_call(*f, r, a);
    }
    a
}

fn text_of(a: FloatAnswer) -> (t: String)
    ensures
        t@ == answer_text(a@),
{
    match a {
        FloatAnswer::Text(t) => t,
        _ => String::new(),
    }
}

/// Whether the bit pattern is that of `+0.0` or `-0.0`.
pub open spec fn float_is_zero(bits: u64) -> bool {
    bits % 0x8000_0000_0000_0000 == 0
}

// ─── VALUES ──────────────────────────────────────────────────────

#[derive(Debug)]
pub enum Value<'a> {
    Int(i64),
    /// The bit pattern of an `f64`.
    Float(u64),
    Bool(bool),
    String(String),
    Null,
    List(Vec<Value<'a>>),
    Function(&'a FnDecl),
}

pub enum SpecValue {
    Int(i64),
    Float(u64),
    Bool(bool),
    Str(Seq<char>),
    Null,
    List(Seq<SpecValue>),
    Function(SpecFnDecl),
}

pub open spec fn value_view(v: Value) -> SpecValue
    decreases v,
{
    match v {
        Value::Int(i) => SpecValue::Int(i),
        Value::Float(b) => SpecValue::Float(b),
        Value::Bool(b) => SpecValue::Bool(b),
        Value::String(s) => SpecValue::Str(s@),
        Value::Null => SpecValue::Null,
        Value::List(items) => SpecValue::List(
            Seq::new(
                items@.len(),
                |i: int|
                    if 0 <= i < items@.len() {
                        value_view(items@[i])
                    } else {
                        SpecValue::Null
                    },
            ),
        ),
        Value::Function(f) => SpecValue::Function(fn_view(*f)),
    }
}

impl<'a> View for Value<'a> {
    type V = SpecValue;

    open spec fn view(&self) -> SpecValue {
        value_view(*self)
    }
}

/// The model of a vector of values, element by element.
pub open spec fn values_view(v: Seq<Value>) -> Seq<SpecValue> {
    Seq::new(v.len(), |i: int| value_view(v[i]))
}

pub open spec fn type_name_of(v: SpecValue) -> Seq<char> {
    match v {
        SpecValue::Int(_) => "Int"@,
        SpecValue::Float(_) => "Float"@,
        SpecValue::Bool(_) => "Bool"@,
        SpecValue::Str(_) => "String"@,
        SpecValue::Null => "Null"@,
        SpecValue::List(_) => "List"@,
        SpecValue::Function(_) => "Function"@,
    }
}

/// The text of a value, as `print` and `to_str` show it.
pub open spec fn text_of_value(fm: FloatModel, v: SpecValue) -> Seq<char>
    decreases v,
{
    match v {
        SpecValue::Int(i) => int_decimal(i as int),
        SpecValue::Float(b) => answer_text(fm(SpecFloatRequest::Display(b))),
        SpecValue::Bool(b) => if b {
            "true"@
        } else {
            "false"@
        },
        SpecValue::Str(s) => s,
        SpecValue::Null => "null"@,
        SpecValue::List(items) => "["@ + seq_join(texts_of_values(fm, items), ", "@) + "]"@,
        SpecValue::Function(f) => "<fn "@ + f.name + ">"@,
    }
}

/// The texts of a list's items.
pub open spec fn texts_of_values(fm: FloatModel, items: Seq<SpecValue>) -> Seq<Seq<char>>
    decreases items,
{
    Seq::new(
        items.len(),
        |i: int|
            if 0 <= i < items.len() {
                text_of_value(fm, items[i])
            } else {
                Seq::empty()
            },
    )
}

/// Equality of values: functions are never equal, floats compare by bit pattern.
pub open spec fn values_equal(a: SpecValue, b: SpecValue) -> bool
    decreases a,
{
    match (a, b) {
        (SpecValue::Int(x), SpecValue::Int(y)) => x == y,
        (SpecValue::Float(x), SpecValue::Float(y)) => x == y,
        (SpecValue::Bool(x), SpecValue::Bool(y)) => x == y,
        (SpecValue::Str(x), SpecValue::Str(y)) => x == y,
        (SpecValue::Null, SpecValue::Null) => true,
        (SpecValue::List(xs), SpecValue::List(ys)) => lists_equal(xs, ys),
        _ => false,
    }
}

/// Equality of lists of values: same length, equal items.
pub open spec fn lists_equal(xs: Seq<SpecValue>, ys: Seq<SpecValue>) -> bool
    decreases xs,
{
    if xs.len() != ys.len() {
        false
    } else if xs.len() == 0 {
        true
    } else {
        lists_equal(xs.subrange(0, xs.len() - 1), ys.subrange(0, ys.len() - 1)) && values_equal(
            xs[xs.len() - 1],
            ys[ys.len() - 1],
        )
    }
}

pub open spec fn truthy(v: SpecValue) -> bool {
    match v {
        SpecValue::Bool(b) => b,
        SpecValue::Null => false,
        SpecValue::Int(i) => i != 0,
        _ => true,
    }
}

impl<'a> Value<'a> {
    /// The name of the value's type.
    pub fn type_label(&self) -> (r: String)
        ensures
            r@ == type_name_of(self@),
    {
        match self {
            Value::Int(_) => string_of("Int"),
            Value::Float(_) => string_of("Float"),
            Value::Bool(_) => string_of("Bool"),
            Value::String(_) => string_of("String"),
            Value::Null => string_of("Null"),
            Value::List(_) => string_of("List"),
            Value::Function(_) => string_of("Function"),
        }
    }

    /// The text of the value, as `print` shows it; floats are written by `floats`.
    pub fn to_string_value<F: Fn(FloatRequest) -> FloatAnswer>(&self, floats: &F) -> (r: String)
        requires
            float_fn_ok(*floats),
        ensures
            r@ == text_of_value(float_model(*floats), self@),
    {
        value_text(self, floats)
    }
}

/// The text of `v`, as `print` shows it; floats are written by `floats`.
pub fn value_text<F: Fn(FloatRequest) -> FloatAnswer>(v: &Value, floats: &F) -> (r: String)
    requires
        float_fn_ok(*floats),
    ensures
        r@ == text_of_value(float_model(*floats), v@),
    decreases v@,
{
    {
        match v {
            Value::Int(i) => {
                let mut s = String::new();
                push_i64(&mut s, *i);
                assert(s@ =~= int_decimal(*i as int));
                s
            },
            Value::Float(b) => text_of(ask(floats, FloatRequest::Display(*b))),
            Value::Bool(b) => if *b {
                string_of("true")
            } else {
                string_of("false")
            },
            Value::String(s) => s.clone(),
            Value::Null => string_of("null"),
            Value::List(items) => {
                let ghost fm = float_model(*floats);
                let ghost texts = Seq::new(
                    items@.len(),
                    |i: int|
                        if 0 <= i < items@.len() {
                            text_of_value(fm, value_view(items@[i]))
                        } else {
                            Seq::empty()
                        },
                );
                let mut parts: Vec<String> = Vec::new();
                let mut i: usize = 0;
                while i < items.len()
                    invariant
                        0 <= i <= items@.len(),
                        float_fn_ok(*floats),
                        fm == float_model(*floats),
                        *v == Value::List(*items),
                        parts@.len() == i,
                        forall|j: int| 0 <= j < i ==> #[trigger] parts@[j]@ == texts[j],
                        texts.len() == items@.len(),
                        forall|j: int| 0 <= j < items@.len() ==> #[trigger] texts[j] == text_of_value(fm, value_view(items@[j])),
                    decreases items@.len() - i,
                {
                    proof {
                        lemma_list_view(*items);
                        assert(decreases_to!(v@ => v@->List_0[i as int]));
                    }
                    let t = value_text(&items[i], floats);
                    parts.push(t);
                    i = i + 1;
                }
                let mut r = string_of("[");
                let joined = join_strings(&parts, ", ");
                push_str(&mut r, joined.as_str());
                push_str(&mut r, "]");
                proof {
                    assert(parts@.map_values(|p: String| p@) =~= texts);
                    lemma_list_view(*items);
                    assert(texts =~= texts_of_values(fm, values_view(items@)));
                }
                r
            },
            Value::Function(f) => {
                let mut r = string_of("<fn ");
                push_str(&mut r, f.name.as_str());
                push_str(&mut r, ">");
                r
            },
        }
    }
}

/// How a value is written for inspection (the `Debug` form of the value):
/// the variant's name around its contents; a function shows its name only.
pub open spec fn value_debug_text(fm: FloatModel, v: SpecValue) -> Seq<char>
    decreases v,
{
    match v {
        SpecValue::Int(i) => "Int("@ + int_decimal(i as int) + ")"@,
        SpecValue::Float(b) => "Float("@ + answer_text(fm(SpecFloatRequest::Debug(b))) + ")"@,
        SpecValue::Bool(b) => if b {
            "Bool(true)"@
        } else {
            "Bool(false)"@
        },
        SpecValue::Str(s) => "String("@ + debug_str(s) + ")"@,
        SpecValue::Null => "Null"@,
        SpecValue::List(items) => "List(["@ + seq_join(debug_texts_of_values(fm, items), ", "@) + "])"@,
        SpecValue::Function(f) => "Function(<fn "@ + f.name + ">)"@,
    }
}

/// The `Debug` forms of a list's items.
pub open spec fn debug_texts_of_values(fm: FloatModel, items: Seq<SpecValue>) -> Seq<Seq<char>>
    decreases items,
{
    Seq::new(
        items.len(),
        |i: int|
            if 0 <= i < items.len() {
                value_debug_text(fm, items[i])
            } else {
                Seq::empty()
            },
    )
}

/// The `Debug` form of `v`; floats are written by `floats`.
pub fn value_debug<F: Fn(FloatRequest) -> FloatAnswer>(v: &Value, floats: &F) -> (r: String)
    requires
        float_fn_ok(*floats),
    ensures
        r@ == value_debug_text(float_model(*floats), v@),
    decreases v@,
{
    match v {
        Value::Int(i) => {
            let mut s = string_of("Int(");
            push_i64(&mut s, *i);
            push_str(&mut s, ")");
            assert(s@ =~= value_debug_text(float_model(*floats), v@));
            s
        },
        Value::Float(b) => {
            let mut s = string_of("Float(");
            let t = text_of(ask(floats, FloatRequest::Debug(*b)));
            push_str(&mut s, t.as_str());
            push_str(&mut s, ")");
            assert(s@ =~= value_debug_text(float_model(*floats), v@));
            s
        },
        Value::Bool(b) => if *b {
            string_of("Bool(true)")
        } else {
            string_of("Bool(false)")
        },
        Value::String(t) => {
            let mut s = string_of("String(");
            let q = debug_quoted(t.as_str());
            push_str(&mut s, q.as_str());
            push_str(&mut s, ")");
            assert(s@ =~= value_debug_text(float_model(*floats), v@));
            s
        },
        Value::Null => string_of("Null"),
        Value::List(items) => {
            let ghost fm = float_model(*floats);
            let ghost texts = Seq::new(
                items@.len(),
                |i: int|
                    if 0 <= i < items@.len() {
                        value_debug_text(fm, value_view(items@[i]))
                    } else {
                        Seq::empty()
                    },
            );
            let mut parts: Vec<String> = Vec::new();
            let mut i: usize = 0;
            while i < items.len()
                invariant
                    0 <= i <= items@.len(),
                    float_fn_ok(*floats),
                    fm == float_model(*floats),
                    *v == Value::List(*items),
                    parts@.len() == i,
                    forall|j: int| 0 <= j < i ==> #[trigger] parts@[j]@ == texts[j],
                    texts.len() == items@.len(),
                    forall|j: int|
                        0 <= j < items@.len() ==> #[trigger] texts[j] == value_debug_text(fm, value_view(items@[j])),
                decreases items@.len() - i,
            {
                proof {
                    lemma_list_view(*items);
                    assert(decreases_to!(v@ => v@->List_0[i as int]));
                }
                let t = value_debug(&items[i], floats);
                parts.push(t);
                i = i + 1;
            }
            let mut r = string_of("List([");
            let joined = join_strings(&parts, ", ");
            push_str(&mut r, joined.as_str());
            push_str(&mut r, "])");
            proof {
                assert(parts@.map_values(|p: String| p@) =~= texts);
                lemma_list_view(*items);
                assert(texts =~= debug_texts_of_values(fm, values_view(items@)));
            }
            r
        },
        Value::Function(f) => {
            let mut r = string_of("Function(<fn ");
            push_str(&mut r, f.name.as_str());
            push_str(&mut r, ">)");
            r
        },
    }
}

/// The model of a list value is the list of the models of its items.
pub proof fn lemma_list_view<'a>(items: Vec<Value<'a>>)
    ensures
        value_view(Value::List(items)) == SpecValue::List(values_view(items@)),
{
    assert(value_view(Value::List(items))->List_0 =~= values_view(items@));
}

/// Whether two values are equal (`==` of the language).
pub fn values_eq(a: &Value, b: &Value) -> (r: bool)
    ensures
        r == values_equal(a@, b@),
    decreases a@,
{
    match a {
        Value::Int(x) => match b {
            Value::Int(y) => *x == *y,
            _ => false,
        },
        Value::Float(x) => match b {
            Value::Float(y) => *x == *y,
            _ => false,
        },
        Value::Bool(x) => match b {
            Value::Bool(y) => *x == *y,
            _ => false,
        },
        Value::String(x) => match b {
            Value::String(y) => *x == *y,
            _ => false,
        },
        Value::Null => match b {
            Value::Null => true,
            _ => false,
        },
        Value::List(xs) => match b {
            Value::List(ys) => {
                proof {
                    lemma_list_view(*xs);
                    lemma_list_view(*ys);
                }
                if xs.len() != ys.len() {
                    return false;
                }
                let ghost vx = values_view(xs@);
                let ghost vy = values_view(ys@);
                let mut i: usize = 0;
                let mut same = true;
                while i < xs.len()
                    invariant
                        0 <= i <= xs@.len(),
                        xs@.len() == ys@.len(),
                        *a == Value::List(*xs),
                        vx == values_view(xs@),
                        vy == values_view(ys@),
                        same == lists_equal(vx.take(i as int), vy.take(i as int)),
                    decreases xs@.len() - i,
                {
                    proof {
                        assert(decreases_to!(a@ => a@->List_0[i as int]));
                    }
                    let e = values_eq(&xs[i], &ys[i]);
                    proof {
                        assert(vx.take(i + 1).subrange(0, i as int) =~= vx.take(i as int));
                        assert(vy.take(i + 1).subrange(0, i as int) =~= vy.take(i as int));
                    }
                    same = same && e;
                    i = i + 1;
                }
                proof {
                    assert(vx.take(xs@.len() as int) =~= vx);
                    assert(vy.take(xs@.len() as int) =~= vy);
                }
                same
            },
            _ => false,
        },
        Value::Function(_) => false,
    }
}

/// Truthiness of a value (`if`, `while`, `not`, `and`/`or` on integers).
pub fn is_truthy(v: &Value) -> (r: bool)
    ensures
        r == truthy(v@),
{
    match v {
        Value::Bool(b) => *b,
        Value::Null => false,
        Value::Int(i) => *i != 0,
        _ => true,
    }
}

} // verus!

verus! {

/// A copy of `v`.
pub fn copy_value<'a>(v: &Value<'a>) -> (r: Value<'a>)
    ensures
        r@ == v@,
    decreases v@,
{
    match v {
        Value::Int(i) => Value::Int(*i),
        Value::Float(b) => Value::Float(*b),
        Value::Bool(b) => Value::Bool(*b),
        Value::String(s) => Value::String(s.clone()),
        Value::Null => Value::Null,
        Value::List(items) => {
            proof {
                lemma_list_view(*items);
            }
            let mut out: Vec<Value<'a>> = Vec::new();
            let mut i: usize = 0;
            while i < items.len()
                invariant
                    0 <= i <= items@.len(),
                    *v == Value::List(*items),
                    value_view(*v) == SpecValue::List(values_view(items@)),
                    out@.len() == i,
                    forall|j: int| 0 <= j < i ==> #[trigger] value_view(out@[j]) == value_view(items@[j]),
                decreases items@.len() - i,
            {
                proof {
                    assert(decreases_to!(v@ => v@->List_0[i as int]));
                }
                let c = copy_value(&items[i]);
                out.push(c);
                i = i + 1;
            }
            proof {
                lemma_list_view(out);
                assert(values_view(out@) =~= values_view(items@));
            }
            Value::List(out)
        },
        Value::Function(f) => Value::Function(*f),
    }
}

} // verus!
