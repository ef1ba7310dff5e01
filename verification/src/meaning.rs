//! What the operations are for, stated from their inputs: how strings are
//! ordered, when two lists are equal, how a call binds its arguments, which
//! token each keyword gives, and how operators group.
use vstd::prelude::*;
use crate::ast::{BinOp, SpecParam};
use crate::value::{SpecValue, FloatModel, values_equal, lists_equal};
use crate::ops::{binop_result, lex_order_from};
use crate::value::Order;
use crate::env::{SpecScope, env_get, env_define, env_push};
use crate::semantics::bind_params;
use crate::laws::{law_get_after_define, law_define_keeps_others};
use crate::token::{keyword_of, token_text, SpecToken, SpecSpannedToken};
use crate::parser::{
    SpecParseError, level_op, p_expr, p_level, p_level_tail, p_operand, p_unary, p_call_tail, p_suffix, p_primary,
    token_literal, peek, span_at, bin, p_call,
};
use crate::ast::SpecExpr;

verus! {

// ─── STRING ORDER ────────────────────────────────────────────────

proof fn lemma_less_before(a: Seq<char>, b: Seq<char>, i: int, j: int)
    requires
        0 <= j <= i,
        i < a.len(),
        i < b.len(),
        a.take(i) == b.take(i),
        (a[i] as u32) < (b[i] as u32),
    ensures
        lex_order_from(a, b, j) == Order::Less,
    decreases i - j,
{
    if j < i {
        assert(a.take(i)[j] == a[j]);
        assert(b.take(i)[j] == b[j]);
        assert(a.take(i)[j] == b.take(i)[j]);
        assert(a[j] == b[j]);
        assert((a[j] as u32) == (b[j] as u32));
        lemma_less_before(a, b, i, j + 1);
    }
}

proof fn lemma_prefix_before(a: Seq<char>, b: Seq<char>, j: int)
    requires
        0 <= j <= a.len(),
        a.len() < b.len(),
        b.take(a.len() as int) == a,
    ensures
        lex_order_from(a, b, j) == Order::Less,
    decreases a.len() - j,
{
    if j < a.len() {
        assert(b.take(a.len() as int)[j] == b[j]);
        lemma_prefix_before(a, b, j + 1);
    }
}

proof fn lemma_same_order(a: Seq<char>, j: int)
    requires
        0 <= j <= a.len(),
    ensures
        lex_order_from(a, a, j) == Order::Equal,
    decreases a.len() - j,
{
    if j < a.len() {
        lemma_same_order(a, j + 1);
    }
}

/// Strings are ordered by code point at the first place where they
/// differ, whatever their lengths: when `a` and `b` agree before index `i`
/// and `a[i]` comes before `b[i]`, then `a < b` and not `a > b` (so
/// `"apple" < "b"`).
pub proof fn law_strings_ordered_at_first_difference(
    fm: FloatModel,
    a: Seq<char>,
    b: Seq<char>,
    i: int,
    line: usize,
    column: usize,
)
    requires
        0 <= i < a.len(),
        i < b.len(),
        a.take(i) == b.take(i),
        (a[i] as u32) < (b[i] as u32),
    ensures
        binop_result(fm, SpecValue::Str(a), SpecValue::Str(b), BinOp::Lt, line, column) == Ok::<
            SpecValue,
            crate::ops::SpecRuntimeError,
        >(SpecValue::Bool(true)),
        binop_result(fm, SpecValue::Str(a), SpecValue::Str(b), BinOp::Gt, line, column) == Ok::<
            SpecValue,
            crate::ops::SpecRuntimeError,
        >(SpecValue::Bool(false)),
        binop_result(fm, SpecValue::Str(a), SpecValue::Str(b), BinOp::GtEq, line, column) == Ok::<
            SpecValue,
            crate::ops::SpecRuntimeError,
        >(SpecValue::Bool(false)),
{
    lemma_less_before(a, b, i, 0);
}

/// A string comes before every longer string that starts with it.
pub proof fn law_prefix_comes_first(fm: FloatModel, a: Seq<char>, b: Seq<char>, line: usize, column: usize)
    requires
        a.len() < b.len(),
        b.take(a.len() as int) == a,
    ensures
        binop_result(fm, SpecValue::Str(a), SpecValue::Str(b), BinOp::Lt, line, column) == Ok::<
            SpecValue,
            crate::ops::SpecRuntimeError,
        >(SpecValue::Bool(true)),
        binop_result(fm, SpecValue::Str(a), SpecValue::Str(b), BinOp::GtEq, line, column) == Ok::<
            SpecValue,
            crate::ops::SpecRuntimeError,
        >(SpecValue::Bool(false)),
{
    lemma_prefix_before(a, b, 0);
}

/// A string is neither before nor after itself.
pub proof fn law_string_not_before_itself(fm: FloatModel, a: Seq<char>, line: usize, column: usize)
    ensures
        binop_result(fm, SpecValue::Str(a), SpecValue::Str(a), BinOp::Lt, line, column) == Ok::<
            SpecValue,
            crate::ops::SpecRuntimeError,
        >(SpecValue::Bool(false)),
        binop_result(fm, SpecValue::Str(a), SpecValue::Str(a), BinOp::LtEq, line, column) == Ok::<
            SpecValue,
            crate::ops::SpecRuntimeError,
        >(SpecValue::Bool(true)),
        binop_result(fm, SpecValue::Str(a), SpecValue::Str(a), BinOp::GtEq, line, column) == Ok::<
            SpecValue,
            crate::ops::SpecRuntimeError,
        >(SpecValue::Bool(true)),
{
    lemma_same_order(a, 0);
}

// ─── LIST EQUALITY ───────────────────────────────────────────────

/// Two lists are equal exactly when they have the same length and their
/// items are equal place by place.
pub proof fn law_lists_equal_itemwise(xs: Seq<SpecValue>, ys: Seq<SpecValue>)
    ensures
        values_equal(SpecValue::List(xs), SpecValue::List(ys)) <==> (xs.len() == ys.len() && forall|i: int|
            0 <= i < xs.len() ==> values_equal(#[trigger] xs[i], ys[i])),
    decreases xs.len(),
{
    if xs.len() == ys.len() && xs.len() > 0 {
        let n = xs.len() - 1;
        let xp = xs.subrange(0, n as int);
        let yp = ys.subrange(0, n as int);
        law_lists_equal_itemwise(xp, yp);
        if forall|i: int| 0 <= i < xs.len() ==> values_equal(#[trigger] xs[i], ys[i]) {
            assert forall|i: int| 0 <= i < xp.len() implies values_equal(#[trigger] xp[i], yp[i]) by {
                assert(xp[i] == xs[i] && yp[i] == ys[i]);
            }
        }
        if values_equal(SpecValue::List(xs), SpecValue::List(ys)) {
            assert forall|i: int| 0 <= i < xs.len() implies values_equal(#[trigger] xs[i], ys[i]) by {
                if i < n {
                    assert(xp[i] == xs[i] && yp[i] == ys[i]);
                }
            }
        }
    }
}

/// `==` on two lists is true exactly when they have the same length and
/// equal items place by place.
pub proof fn law_list_equality_operator(fm: FloatModel, xs: Seq<SpecValue>, ys: Seq<SpecValue>, line: usize, column: usize)
    ensures
        binop_result(fm, SpecValue::List(xs), SpecValue::List(ys), BinOp::Eq, line, column) == Ok::<
            SpecValue,
            crate::ops::SpecRuntimeError,
        >(SpecValue::Bool(xs.len() == ys.len() && forall|i: int| 0 <= i < xs.len() ==> values_equal(#[trigger] xs[i], ys[i]))),
{
    law_lists_equal_itemwise(xs, ys);
}

// ─── ARGUMENT BINDING ────────────────────────────────────────────

/// The names of `params[k..]` are all different from `name`.
pub open spec fn not_bound_after(params: Seq<SpecParam>, k: int, name: Seq<char>) -> bool {
    forall|j: int| k <= j < params.len() ==> #[trigger] params[j].name != name
}

/// No two parameters share a name.
pub open spec fn distinct_names(params: Seq<SpecParam>) -> bool {
    forall|i: int, j: int| 0 <= i < j < params.len() ==> #[trigger] params[i].name != #[trigger] params[j].name
}

proof fn lemma_bind_keeps(env: Seq<SpecScope>, params: Seq<SpecParam>, args: Seq<SpecValue>, k: int, name: Seq<char>)
    requires
        0 <= k,
        not_bound_after(params, k, name),
    ensures
        env_get(bind_params(env, params, args, k), name) == env_get(env, name),
        bind_params(env, params, args, k).len() == env.len(),
    decreases params.len() - k,
{
    if !(k >= params.len() || k >= args.len()) {
        let e2 = env_define(env, params[k].name, args[k]);
        law_define_keeps_others(env, params[k].name, name, args[k]);
        lemma_bind_keeps(e2, params, args, k + 1, name);
    }
}

proof fn lemma_bind_gives(env: Seq<SpecScope>, params: Seq<SpecParam>, args: Seq<SpecValue>, k: int, i: int)
    requires
        env.len() > 0,
        0 <= k <= i < params.len(),
        params.len() == args.len(),
        distinct_names(params),
    ensures
        env_get(bind_params(env, params, args, k), params[i].name) == Some(args[i]),
    decreases params.len() - k,
{
    let e2 = env_define(env, params[k].name, args[k]);
    if k == i {
        law_get_after_define(env, params[k].name, args[k]);
        assert(not_bound_after(params, k + 1, params[i].name)) by {
            assert forall|j: int| k + 1 <= j < params.len() implies #[trigger] params[j].name != params[i].name by {
                assert(params[i].name != params[j].name);
            }
        }
        lemma_bind_keeps(e2, params, args, k + 1, params[i].name);
    } else {
        assert(e2.len() == env.len());
        lemma_bind_gives(e2, params, args, k + 1, i);
    }
}

/// A call binds each parameter to the argument in the same place: in the
/// call's new scope, reading the `i`-th parameter's name gives the `i`-th
/// argument (parameters with different names).
pub proof fn law_call_binds_arguments_in_order(
    env: Seq<SpecScope>,
    params: Seq<SpecParam>,
    args: Seq<SpecValue>,
    i: int,
)
    requires
        params.len() == args.len(),
        distinct_names(params),
        0 <= i < params.len(),
    ensures
        env_get(bind_params(env_push(env), params, args, 0), params[i].name) == Some(args[i]),
{
    lemma_bind_gives(env_push(env), params, args, 0, i);
}

// ─── KEYWORDS ────────────────────────────────────────────────────

/// `c` in upper case, for the letters `a` to `z`.
pub open spec fn upper_letter(c: char) -> char {
    if 97 <= (c as u32) && (c as u32) <= 122 {
        ((c as u32) - 32) as char
    } else {
        c
    }
}

/// `w` written in upper camel case: underscores dropped, and the letter
/// after each of them (and the first, when `up`) in upper case.
pub open spec fn camel_from(w: Seq<char>, up: bool) -> Seq<char>
    decreases w.len(),
{
    if w.len() == 0 {
        Seq::empty()
    } else if w[0] == '_' {
        camel_from(w.drop_first(), true)
    } else {
        seq![if up { upper_letter(w[0]) } else { w[0] }] + camel_from(w.drop_first(), false)
    }
}

/// The name of the token that the keyword `w` gives: the word in upper
/// camel case, with `Priority` before the four priority levels.
pub open spec fn keyword_name(w: Seq<char>) -> Seq<char> {
    if w == "critical"@ || w == "high"@ || w == "normal"@ || w == "low"@ {
        "Priority"@ + camel_from(w, true)
    } else {
        camel_from(w, true)
    }
}

proof fn lemma_name_agent()
    ensures
        keyword_name("agent"@) == "Agent"@,
{
    reveal_strlit("agent");
    reveal_strlit("Agent");
    reveal_strlit("Priority");
    reveal_strlit("critical");
    reveal_strlit("high");
    reveal_strlit("normal");
    reveal_strlit("low");
    reveal_with_fuel(camel_from, 6);
    assert(keyword_name("agent"@) =~= "Agent"@);
}

proof fn lemma_name_on()
    ensures
        keyword_name("on"@) == "On"@,
{
    reveal_strlit("on");
    reveal_strlit("On");
    reveal_strlit("Priority");
    reveal_strlit("critical");
    reveal_strlit("high");
    reveal_strlit("normal");
    reveal_strlit("low");
    reveal_with_fuel(camel_from, 3);
    assert(keyword_name("on"@) =~= "On"@);
}

proof fn lemma_name_fn()
    ensures
        keyword_name("fn"@) == "Fn"@,
{
    reveal_strlit("fn");
    reveal_strlit("Fn");
    reveal_strlit("Priority");
    reveal_strlit("critical");
    reveal_strlit("high");
    reveal_strlit("normal");
    reveal_strlit("low");
    reveal_with_fuel(camel_from, 3);
    assert(keyword_name("fn"@) =~= "Fn"@);
}

proof fn lemma_name_let()
    ensures
        keyword_name("let"@) == "Let"@,
{
    reveal_strlit("let");
    reveal_strlit("Let");
    reveal_strlit("Priority");
    reveal_strlit("critical");
    reveal_strlit("high");
    reveal_strlit("normal");
    reveal_strlit("low");
    reveal_with_fuel(camel_from, 4);
    assert(keyword_name("let"@) =~= "Let"@);
}

proof fn lemma_name_return()
    ensures
        keyword_name("return"@) == "Return"@,
{
    reveal_strlit("return");
    reveal_strlit("Return");
    reveal_strlit("Priority");
    reveal_strlit("critical");
    reveal_strlit("high");
    reveal_strlit("normal");
    reveal_strlit("low");
    reveal_with_fuel(camel_from, 7);
    assert(keyword_name("return"@) =~= "Return"@);
}

proof fn lemma_name_if()
    ensures
        keyword_name("if"@) == "If"@,
{
    reveal_strlit("if");
    reveal_strlit("If");
    reveal_strlit("Priority");
    reveal_strlit("critical");
    reveal_strlit("high");
    reveal_strlit("normal");
    reveal_strlit("low");
    reveal_with_fuel(camel_from, 3);
    assert(keyword_name("if"@) =~= "If"@);
}

proof fn lemma_name_else()
    ensures
        keyword_name("else"@) == "Else"@,
{
    reveal_strlit("else");
    reveal_strlit("Else");
    reveal_strlit("Priority");
    reveal_strlit("critical");
    reveal_strlit("high");
    reveal_strlit("normal");
    reveal_strlit("low");
    reveal_with_fuel(camel_from, 5);
    assert(keyword_name("else"@) =~= "Else"@);
}

proof fn lemma_name_while()
    ensures
        keyword_name("while"@) == "While"@,
{
    reveal_strlit("while");
    reveal_strlit("While");
    reveal_strlit("Priority");
    reveal_strlit("critical");
    reveal_strlit("high");
    reveal_strlit("normal");
    reveal_strlit("low");
    reveal_with_fuel(camel_from, 6);
    assert(keyword_name("while"@) =~= "While"@);
}

proof fn lemma_name_for()
    ensures
        keyword_name("for"@) == "For"@,
{
    reveal_strlit("for");
    reveal_strlit("For");
    reveal_strlit("Priority");
    reveal_strlit("critical");
    reveal_strlit("high");
    reveal_strlit("normal");
    reveal_strlit("low");
    reveal_with_fuel(camel_from, 4);
    assert(keyword_name("for"@) =~= "For"@);
}

proof fn lemma_name_in()
    ensures
        keyword_name("in"@) == "In"@,
{
    reveal_strlit("in");
    reveal_strlit("In");
    reveal_strlit("Priority");
    reveal_strlit("critical");
    reveal_strlit("high");
    reveal_strlit("normal");
    reveal_strlit("low");
    reveal_with_fuel(camel_from, 3);
    assert(keyword_name("in"@) =~= "In"@);
}

proof fn lemma_name_use()
    ensures
        keyword_name("use"@) == "Use"@,
{
    reveal_strlit("use");
    reveal_strlit("Use");
    reveal_strlit("Priority");
    reveal_strlit("critical");
    reveal_strlit("high");
    reveal_strlit("normal");
    reveal_strlit("low");
    reveal_with_fuel(camel_from, 4);
    assert(keyword_name("use"@) =~= "Use"@);
}

proof fn lemma_name_do()
    ensures
        keyword_name("do"@) == "Do"@,
{
    reveal_strlit("do");
    reveal_strlit("Do");
    reveal_strlit("Priority");
    reveal_strlit("critical");
    reveal_strlit("high");
    reveal_strlit("normal");
    reveal_strlit("low");
    reveal_with_fuel(camel_from, 3);
    assert(keyword_name("do"@) =~= "Do"@);
}

proof fn lemma_name_send()
    ensures
        keyword_name("send"@) == "Send"@,
{
    reveal_strlit("send");
    reveal_strlit("Send");
    reveal_strlit("Priority");
    reveal_strlit("critical");
    reveal_strlit("high");
    reveal_strlit("normal");
    reveal_strlit("low");
    reveal_with_fuel(camel_from, 5);
    assert(keyword_name("send"@) =~= "Send"@);
}

proof fn lemma_name_and()
    ensures
        keyword_name("and"@) == "And"@,
{
    reveal_strlit("and");
    reveal_strlit("And");
    reveal_strlit("Priority");
    reveal_strlit("critical");
    reveal_strlit("high");
    reveal_strlit("normal");
    reveal_strlit("low");
    reveal_with_fuel(camel_from, 4);
    assert(keyword_name("and"@) =~= "And"@);
}

proof fn lemma_name_or()
    ensures
        keyword_name("or"@) == "Or"@,
{
    reveal_strlit("or");
    reveal_strlit("Or");
    reveal_strlit("Priority");
    reveal_strlit("critical");
    reveal_strlit("high");
    reveal_strlit("normal");
    reveal_strlit("low");
    reveal_with_fuel(camel_from, 3);
    assert(keyword_name("or"@) =~= "Or"@);
}

proof fn lemma_name_not()
    ensures
        keyword_name("not"@) == "Not"@,
{
    reveal_strlit("not");
    reveal_strlit("Not");
    reveal_strlit("Priority");
    reveal_strlit("critical");
    reveal_strlit("high");
    reveal_strlit("normal");
    reveal_strlit("low");
    reveal_with_fuel(camel_from, 4);
    assert(keyword_name("not"@) =~= "Not"@);
}

proof fn lemma_name_true()
    ensures
        keyword_name("true"@) == "True"@,
{
    reveal_strlit("true");
    reveal_strlit("True");
    reveal_strlit("Priority");
    reveal_strlit("critical");
    reveal_strlit("high");
    reveal_strlit("normal");
    reveal_strlit("low");
    reveal_with_fuel(camel_from, 5);
    assert(keyword_name("true"@) =~= "True"@);
}

proof fn lemma_name_false()
    ensures
        keyword_name("false"@) == "False"@,
{
    reveal_strlit("false");
    reveal_strlit("False");
    reveal_strlit("Priority");
    reveal_strlit("critical");
    reveal_strlit("high");
    reveal_strlit("normal");
    reveal_strlit("low");
    reveal_with_fuel(camel_from, 6);
    assert(keyword_name("false"@) =~= "False"@);
}

proof fn lemma_name_null()
    ensures
        keyword_name("null"@) == "Null"@,
{
    reveal_strlit("null");
    reveal_strlit("Null");
    reveal_strlit("Priority");
    reveal_strlit("critical");
    reveal_strlit("high");
    reveal_strlit("normal");
    reveal_strlit("low");
    reveal_with_fuel(camel_from, 5);
    assert(keyword_name("null"@) =~= "Null"@);
}

proof fn lemma_name_channel()
    ensures
        keyword_name("channel"@) == "Channel"@,
{
    reveal_strlit("channel");
    reveal_strlit("Channel");
    reveal_strlit("Priority");
    reveal_strlit("critical");
    reveal_strlit("high");
    reveal_strlit("normal");
    reveal_strlit("low");
    reveal_with_fuel(camel_from, 8);
    assert(keyword_name("channel"@) =~= "Channel"@);
}

proof fn lemma_name_priority()
    ensures
        keyword_name("priority"@) == "Priority"@,
{
    reveal_strlit("priority");
    reveal_strlit("Priority");
    reveal_strlit("Priority");
    reveal_strlit("critical");
    reveal_strlit("high");
    reveal_strlit("normal");
    reveal_strlit("low");
    reveal_with_fuel(camel_from, 9);
    assert(keyword_name("priority"@) =~= "Priority"@);
}

proof fn lemma_name_concurrent()
    ensures
        keyword_name("concurrent"@) == "Concurrent"@,
{
    reveal_strlit("concurrent");
    reveal_strlit("Concurrent");
    reveal_strlit("Priority");
    reveal_strlit("critical");
    reveal_strlit("high");
    reveal_strlit("normal");
    reveal_strlit("low");
    reveal_with_fuel(camel_from, 11);
    assert(keyword_name("concurrent"@) =~= "Concurrent"@);
}

proof fn lemma_name_start()
    ensures
        keyword_name("start"@) == "Start"@,
{
    reveal_strlit("start");
    reveal_strlit("Start");
    reveal_strlit("Priority");
    reveal_strlit("critical");
    reveal_strlit("high");
    reveal_strlit("normal");
    reveal_strlit("low");
    reveal_with_fuel(camel_from, 6);
    assert(keyword_name("start"@) =~= "Start"@);
}

proof fn lemma_name_stop()
    ensures
        keyword_name("stop"@) == "Stop"@,
{
    reveal_strlit("stop");
    reveal_strlit("Stop");
    reveal_strlit("Priority");
    reveal_strlit("critical");
    reveal_strlit("high");
    reveal_strlit("normal");
    reveal_strlit("low");
    reveal_with_fuel(camel_from, 5);
    assert(keyword_name("stop"@) =~= "Stop"@);
}

proof fn lemma_name_on_error()
    ensures
        keyword_name("on_error"@) == "OnError"@,
{
    reveal_strlit("on_error");
    reveal_strlit("OnError");
    reveal_strlit("Priority");
    reveal_strlit("critical");
    reveal_strlit("high");
    reveal_strlit("normal");
    reveal_strlit("low");
    reveal_with_fuel(camel_from, 9);
    assert(keyword_name("on_error"@) =~= "OnError"@);
}

proof fn lemma_name_event_policy()
    ensures
        keyword_name("event_policy"@) == "EventPolicy"@,
{
    reveal_strlit("event_policy");
    reveal_strlit("EventPolicy");
    reveal_strlit("Priority");
    reveal_strlit("critical");
    reveal_strlit("high");
    reveal_strlit("normal");
    reveal_strlit("low");
    reveal_with_fuel(camel_from, 13);
    assert(keyword_name("event_policy"@) =~= "EventPolicy"@);
}

proof fn lemma_name_ai_policy()
    ensures
        keyword_name("ai_policy"@) == "AiPolicy"@,
{
    reveal_strlit("ai_policy");
    reveal_strlit("AiPolicy");
    reveal_strlit("Priority");
    reveal_strlit("critical");
    reveal_strlit("high");
    reveal_strlit("normal");
    reveal_strlit("low");
    reveal_with_fuel(camel_from, 10);
    assert(keyword_name("ai_policy"@) =~= "AiPolicy"@);
}

proof fn lemma_name_critical()
    ensures
        keyword_name("critical"@) == "PriorityCritical"@,
{
    reveal_strlit("critical");
    reveal_strlit("PriorityCritical");
    reveal_strlit("Priority");
    reveal_strlit("critical");
    reveal_strlit("high");
    reveal_strlit("normal");
    reveal_strlit("low");
    reveal_with_fuel(camel_from, 9);
    assert(keyword_name("critical"@) =~= "PriorityCritical"@);
}

proof fn lemma_name_high()
    ensures
        keyword_name("high"@) == "PriorityHigh"@,
{
    reveal_strlit("high");
    reveal_strlit("PriorityHigh");
    reveal_strlit("Priority");
    reveal_strlit("critical");
    reveal_strlit("high");
    reveal_strlit("normal");
    reveal_strlit("low");
    reveal_with_fuel(camel_from, 5);
    assert(keyword_name("high"@) =~= "PriorityHigh"@);
}

proof fn lemma_name_normal()
    ensures
        keyword_name("normal"@) == "PriorityNormal"@,
{
    reveal_strlit("normal");
    reveal_strlit("PriorityNormal");
    reveal_strlit("Priority");
    reveal_strlit("critical");
    reveal_strlit("high");
    reveal_strlit("normal");
    reveal_strlit("low");
    reveal_with_fuel(camel_from, 7);
    assert(keyword_name("normal"@) =~= "PriorityNormal"@);
}

proof fn lemma_name_low()
    ensures
        keyword_name("low"@) == "PriorityLow"@,
{
    reveal_strlit("low");
    reveal_strlit("PriorityLow");
    reveal_strlit("Priority");
    reveal_strlit("critical");
    reveal_strlit("high");
    reveal_strlit("normal");
    reveal_strlit("low");
    reveal_with_fuel(camel_from, 4);
    assert(keyword_name("low"@) =~= "PriorityLow"@);
}

/// Each keyword gives the token named after it: `stop` gives `Stop`,
/// `on_error` gives `OnError`, `high` gives `PriorityHigh`.
pub proof fn law_keyword_gives_its_own_token(w: Seq<char>)
    ensures
        keyword_of(w) matches Some(t) ==> token_text(t) == keyword_name(w),
{
    if w == "agent"@ {
        lemma_name_agent();
    } else if w == "on"@ {
        lemma_name_on();
    } else if w == "fn"@ {
        lemma_name_fn();
    } else if w == "let"@ {
        lemma_name_let();
    } else if w == "return"@ {
        lemma_name_return();
    } else if w == "if"@ {
        lemma_name_if();
    } else if w == "else"@ {
        lemma_name_else();
    } else if w == "while"@ {
        lemma_name_while();
    } else if w == "for"@ {
        lemma_name_for();
    } else if w == "in"@ {
        lemma_name_in();
    } else if w == "use"@ {
        lemma_name_use();
    } else if w == "do"@ {
        lemma_name_do();
    } else if w == "send"@ {
        lemma_name_send();
    } else if w == "and"@ {
        lemma_name_and();
    } else if w == "or"@ {
        lemma_name_or();
    } else if w == "not"@ {
        lemma_name_not();
    } else if w == "true"@ {
        lemma_name_true();
    } else if w == "false"@ {
        lemma_name_false();
    } else if w == "null"@ {
        lemma_name_null();
    } else if w == "channel"@ {
        lemma_name_channel();
    } else if w == "priority"@ {
        lemma_name_priority();
    } else if w == "concurrent"@ {
        lemma_name_concurrent();
    } else if w == "start"@ {
        lemma_name_start();
    } else if w == "stop"@ {
        lemma_name_stop();
    } else if w == "on_error"@ {
        lemma_name_on_error();
    } else if w == "event_policy"@ {
        lemma_name_event_policy();
    } else if w == "ai_policy"@ {
        lemma_name_ai_policy();
    } else if w == "critical"@ {
        lemma_name_critical();
    } else if w == "high"@ {
        lemma_name_high();
    } else if w == "normal"@ {
        lemma_name_normal();
    } else if w == "low"@ {
        lemma_name_low();
    }
}

/// Different keywords give different tokens.
pub proof fn law_keywords_give_distinct_tokens(w1: Seq<char>, w2: Seq<char>)
    requires
        keyword_of(w1) is Some,
        keyword_of(w1) == keyword_of(w2),
    ensures
        w1 == w2,
{
}

// ─── OPERATOR PRECEDENCE ─────────────────────────────────────────

/// The binary operator a token stands for.
pub open spec fn token_binop(t: SpecToken) -> Option<BinOp> {
    match t {
        SpecToken::Star => Some(BinOp::Mul),
        SpecToken::Slash => Some(BinOp::Div),
        SpecToken::Percent => Some(BinOp::Rem),
        SpecToken::Plus => Some(BinOp::Add),
        SpecToken::Minus => Some(BinOp::Sub),
        SpecToken::Lt => Some(BinOp::Lt),
        SpecToken::Gt => Some(BinOp::Gt),
        SpecToken::LtEq => Some(BinOp::LtEq),
        SpecToken::GtEq => Some(BinOp::GtEq),
        SpecToken::EqEq => Some(BinOp::Eq),
        SpecToken::NotEq => Some(BinOp::NotEq),
        SpecToken::And => Some(BinOp::And),
        SpecToken::Or => Some(BinOp::Or),
        _ => None,
    }
}

/// How tightly an operator binds, by the language's precedence table
/// (a smaller number binds tighter): `* / %`, then `+ -`, then
/// `< > <= >=`, then `== !=`, then `and`, then `or`.
pub open spec fn binding_rank(op: BinOp) -> int {
    match op {
        BinOp::Mul | BinOp::Div | BinOp::Rem => 2,
        BinOp::Add | BinOp::Sub => 3,
        BinOp::Lt | BinOp::Gt | BinOp::LtEq | BinOp::GtEq => 4,
        BinOp::Eq | BinOp::NotEq => 5,
        BinOp::And => 6,
        BinOp::Or => 7,
    }
}

/// The parser level at which token `t` joins operands: its rank less two,
/// and past every level when it is no operator.
spec fn tier(t: SpecToken) -> int {
    match token_binop(t) {
        Some(op) => binding_rank(op) - 2,
        None => 6,
    }
}

/// A literal or a name: an operand on its own.
pub open spec fn is_atom(t: SpecToken) -> bool {
    token_literal(t) is Some || t is Identifier
}

/// The expression an operand token makes, at position `c`.
pub open spec fn atom_expr(ts: Seq<SpecSpannedToken>, c: int) -> SpecExpr {
    match token_literal(peek(ts, c)) {
        Some(l) => SpecExpr::Literal(l, span_at(ts, c)),
        None => SpecExpr::Identifier(peek(ts, c)->Identifier_0, span_at(ts, c)),
    }
}

/// A token that ends an expression: no operator, call, field access or
/// indexing starts with it.
pub open spec fn ends_expr(t: SpecToken) -> bool {
    token_binop(t) is None && !(t is LParen) && !(t is Dot) && !(t is LBracket)
}

proof fn lemma_level_op_tier(k: nat, t: SpecToken)
    requires
        k <= 5,
    ensures
        level_op(k, t) == (if k == tier(t) { token_binop(t) } else { None::<BinOp> }),
{
}

proof fn lemma_atom(ts: Seq<SpecSpannedToken>, c: int)
    requires
        is_atom(peek(ts, c)),
        !(peek(ts, c + 1) is LParen) && !(peek(ts, c + 1) is Dot) && !(peek(ts, c + 1) is LBracket),
    ensures
        p_unary(ts, c) == (1nat, Ok::<SpecExpr, SpecParseError>(atom_expr(ts, c))),
{
    assert(p_suffix(ts, c + 1, atom_expr(ts, c)) == (0nat, Ok::<Option<SpecExpr>, SpecParseError>(None)));
    assert(p_call_tail(ts, c + 1, atom_expr(ts, c)) == (0nat, Ok::<SpecExpr, SpecParseError>(atom_expr(ts, c))));
    assert(p_primary(ts, c) == (1nat, Ok::<SpecExpr, SpecParseError>(atom_expr(ts, c))));
    assert(p_call(ts, c) == (1nat, Ok::<SpecExpr, SpecParseError>(atom_expr(ts, c))));
    assert(!(peek(ts, c) is Not) && !(peek(ts, c) is Minus));
}

/// An operand followed by a token that binds looser than level `k`.
proof fn lemma_single(ts: Seq<SpecSpannedToken>, c: int, k: nat)
    requires
        k <= 5,
        is_atom(peek(ts, c)),
        !(peek(ts, c + 1) is LParen) && !(peek(ts, c + 1) is Dot) && !(peek(ts, c + 1) is LBracket),
        tier(peek(ts, c + 1)) > k,
    ensures
        p_level(ts, c, k) == (1nat, Ok::<SpecExpr, SpecParseError>(atom_expr(ts, c))),
        p_operand(ts, c, k) == (1nat, Ok::<SpecExpr, SpecParseError>(atom_expr(ts, c))),
    decreases k,
{
    lemma_atom(ts, c);
    if k > 0 {
        lemma_single(ts, c, (k - 1) as nat);
    }
    lemma_level_op_tier(k, peek(ts, c + 1));
    assert(p_level_tail(ts, c + 1, k, atom_expr(ts, c)) == (0nat, Ok::<SpecExpr, SpecParseError>(atom_expr(ts, c))));
}

/// Operands `y t2 z` at `c`, followed by a token that ends the expression.
proof fn lemma_two(ts: Seq<SpecSpannedToken>, c: int, k: nat)
    requires
        k <= 5,
        is_atom(peek(ts, c)),
        token_binop(peek(ts, c + 1)) is Some,
        is_atom(peek(ts, c + 2)),
        ends_expr(peek(ts, c + 3)),
    ensures
        p_level(ts, c, k) == if k < tier(peek(ts, c + 1)) {
            (1nat, Ok::<SpecExpr, SpecParseError>(atom_expr(ts, c)))
        } else {
            (
                3nat,
                Ok::<SpecExpr, SpecParseError>(
                    bin(token_binop(peek(ts, c + 1))->0, atom_expr(ts, c), atom_expr(ts, c + 2), span_at(ts, c + 1)),
                ),
            )
        },
    decreases k,
{
    let r = tier(peek(ts, c + 1));
    let x = atom_expr(ts, c);
    let y = atom_expr(ts, c + 2);
    let o = token_binop(peek(ts, c + 1))->0;
    let e = bin(o, x, y, span_at(ts, c + 1));
    lemma_atom(ts, c);
    lemma_atom(ts, c + 2);
    lemma_level_op_tier(k, peek(ts, c + 1));
    lemma_level_op_tier(k, peek(ts, c + 3));
    if k < r {
        lemma_single(ts, c, k);
    } else {
        lemma_single(ts, c + 2, k);
        if k > 0 {
            lemma_single(ts, c + 2, (k - 1) as nat);
        }
        assert(p_level_tail(ts, c + 3, k, e) == (0nat, Ok::<SpecExpr, SpecParseError>(e)));
        if k == r {
            if k > 0 {
                lemma_single(ts, c, (k - 1) as nat);
            }
            assert(p_operand(ts, c, k) == (1nat, Ok::<SpecExpr, SpecParseError>(x)));
            assert(p_level_tail(ts, c + 1, k, x) == (2nat, Ok::<SpecExpr, SpecParseError>(e)));
        } else {
            lemma_two(ts, c, (k - 1) as nat);
            assert(p_operand(ts, c, k) == (3nat, Ok::<SpecExpr, SpecParseError>(e)));
        }
    }
}

/// The grouping of `x t1 y t2 z` that the precedence table gives: the
/// tighter operator takes its operands first; at equal rank, the left one.
pub open spec fn grouped(ts: Seq<SpecSpannedToken>, c: int) -> SpecExpr {
    let o1 = token_binop(peek(ts, c + 1))->0;
    let o2 = token_binop(peek(ts, c + 3))->0;
    let (x, y, z) = (atom_expr(ts, c), atom_expr(ts, c + 2), atom_expr(ts, c + 4));
    if binding_rank(o2) < binding_rank(o1) {
        bin(o1, x, bin(o2, y, z, span_at(ts, c + 3)), span_at(ts, c + 1))
    } else {
        bin(o2, bin(o1, x, y, span_at(ts, c + 1)), z, span_at(ts, c + 3))
    }
}

proof fn lemma_three(ts: Seq<SpecSpannedToken>, c: int, k: nat)
    requires
        k <= 5,
        is_atom(peek(ts, c)),
        token_binop(peek(ts, c + 1)) is Some,
        is_atom(peek(ts, c + 2)),
        token_binop(peek(ts, c + 3)) is Some,
        is_atom(peek(ts, c + 4)),
        ends_expr(peek(ts, c + 5)),
    ensures
        p_level(ts, c, k) == if k < tier(peek(ts, c + 1)) {
            (1nat, Ok::<SpecExpr, SpecParseError>(atom_expr(ts, c)))
        } else if k < tier(peek(ts, c + 3)) {
            (
                3nat,
                Ok::<SpecExpr, SpecParseError>(
                    bin(
                        token_binop(peek(ts, c + 1))->0,
                        atom_expr(ts, c),
                        atom_expr(ts, c + 2),
                        span_at(ts, c + 1),
                    ),
                ),
            )
        } else {
            (5nat, Ok::<SpecExpr, SpecParseError>(grouped(ts, c)))
        },
    decreases k,
{
    let r1 = tier(peek(ts, c + 1));
    let r2 = tier(peek(ts, c + 3));
    let x = atom_expr(ts, c);
    let y = atom_expr(ts, c + 2);
    let z = atom_expr(ts, c + 4);
    let o1 = token_binop(peek(ts, c + 1))->0;
    let o2 = token_binop(peek(ts, c + 3))->0;
    let e1 = bin(o1, x, y, span_at(ts, c + 1));
    let g = grouped(ts, c);
    lemma_atom(ts, c);
    lemma_atom(ts, c + 2);
    lemma_atom(ts, c + 4);
    lemma_level_op_tier(k, peek(ts, c + 1));
    lemma_level_op_tier(k, peek(ts, c + 3));
    lemma_level_op_tier(k, peek(ts, c + 5));
    lemma_single(ts, c + 4, k);
    if k > 0 {
        lemma_single(ts, c + 4, (k - 1) as nat);
    }
    assert(p_level_tail(ts, c + 5, k, g) == (0nat, Ok::<SpecExpr, SpecParseError>(g)));
    if k < r1 {
        lemma_single(ts, c, k);
    } else if k == r1 {
        if k > 0 {
            lemma_single(ts, c, (k - 1) as nat);
            lemma_two(ts, c + 2, (k - 1) as nat);
        }
        assert(p_operand(ts, c, k) == (1nat, Ok::<SpecExpr, SpecParseError>(x)));
        if r2 >= k {
            assert(p_operand(ts, c + 2, k) == (1nat, Ok::<SpecExpr, SpecParseError>(y)));
            if r2 == k {
                assert(p_level_tail(ts, c + 5, k, bin(o2, e1, z, span_at(ts, c + 3))) == (0nat, Ok::<SpecExpr, SpecParseError>(g)));
                assert(p_level_tail(ts, c + 3, k, e1) == (2nat, Ok::<SpecExpr, SpecParseError>(g)));
            } else {
                assert(p_level_tail(ts, c + 3, k, e1) == (0nat, Ok::<SpecExpr, SpecParseError>(e1)));
            }
        } else {
            assert(p_operand(ts, c + 2, k) == (3nat, Ok::<SpecExpr, SpecParseError>(bin(o2, y, z, span_at(ts, c + 3)))));
        }
    } else {
        lemma_three(ts, c, (k - 1) as nat);
        if k - 1 < r2 {
            assert(p_operand(ts, c, k) == (3nat, Ok::<SpecExpr, SpecParseError>(e1)));
            if r2 == k {
                assert(p_level_tail(ts, c + 5, k, bin(o2, e1, z, span_at(ts, c + 3))) == (0nat, Ok::<SpecExpr, SpecParseError>(g)));
                assert(p_level_tail(ts, c + 3, k, e1) == (2nat, Ok::<SpecExpr, SpecParseError>(g)));
            } else {
                assert(p_level_tail(ts, c + 3, k, e1) == (0nat, Ok::<SpecExpr, SpecParseError>(e1)));
            }
        } else {
            assert(p_operand(ts, c, k) == (5nat, Ok::<SpecExpr, SpecParseError>(g)));
        }
    }
}

/// Operators group by the precedence table: in `x op1 y op2 z` (operands
/// that are names or literals, and nothing after that continues the
/// expression), the operator that binds tighter takes its operands first,
/// and at equal rank the left one does; so `a + b % c` is `a + (b % c)`
/// and `a - b - c` is `(a - b) - c`.
pub proof fn law_operators_group_by_precedence(ts: Seq<SpecSpannedToken>, c: int)
    requires
        is_atom(peek(ts, c)),
        token_binop(peek(ts, c + 1)) is Some,
        is_atom(peek(ts, c + 2)),
        token_binop(peek(ts, c + 3)) is Some,
        is_atom(peek(ts, c + 4)),
        ends_expr(peek(ts, c + 5)),
    ensures
        p_expr(ts, c) == (5nat, Ok::<SpecExpr, SpecParseError>(grouped(ts, c))),
{
    lemma_three(ts, c, 5);
}

} // verus!
