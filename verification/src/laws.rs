//! Properties of the language that hold across its operations.
use vstd::prelude::*;
use crate::ast::BinOp;
use crate::ast::UnaryOp;
use crate::value::{SpecValue, FloatModel, values_equal, lists_equal, truthy, SpecFloatRequest, answer_order};
use crate::ops::{binop_result, unary_result, lex_order_from, compare_values};
use crate::value::Order;
use crate::env::{SpecScope, scope_index, env_get, env_define, env_assign};
use crate::ast::Span;
use crate::token::{SpecToken, SpecSpannedToken, LexError, keyword_of};
use crate::semantics::{char_width, is_digit};
use crate::parser::{SpecParseError, p_program_from, p_top, peek, remaining, fstring_pieces, text_piece};
use crate::ast::{SpecStmt, SpecExpr, SpecFStringSegment, SpecBlock, SpecIfStmt, SpecElseBranch, SpecWhileStmt,
    SpecForStmt, SpecFnDecl, SpecParam, SpecLetStmt, SpecAssignStmt};
use crate::env::{env_push, env_pop};
use crate::semantics::{
    SpecMachine, SpecHalt, Native, eval, eval_list, eval_fstring, eval_native, call_function, bind_params,
    exec_block, exec_stmts, exec_stmt, exec_if, exec_while, exec_for, with_env, native_of, source_line_col,
    lemma_exprs_size, lemma_segs_size, lemma_stmts_size, expr_size, exprs_size, segs_size, stmts_size,
    stmt_size, block_size, if_size,
};
use crate::lexer::{
    Lexeme, ScanState, lexeme_at, lexeme_len, lemma_lexeme_len, scan, lex_text, strip_comments, strip_from,
    bytes_len, blank, blanked, spaces, find_pair, find_char, lemma_find_pair, lemma_find_char, ident_run,
    is_ident_start, token_weight, tokens_weight,
};

verus! {

// ─── EQUALITY AND ORDER ──────────────────────────────────────────

/// `a != b` is always the negation of `a == b`.
pub proof fn law_not_equal_negates_equal(fm: FloatModel, a: SpecValue, b: SpecValue, line: usize, column: usize)
    ensures
        binop_result(fm, a, b, BinOp::Eq, line, column) matches Ok(SpecValue::Bool(x))
            && binop_result(fm, a, b, BinOp::NotEq, line, column) == Ok::<SpecValue, crate::ops::SpecRuntimeError>(
            SpecValue::Bool(!x),
        ),
{
}

proof fn lemma_values_equal_symmetric(a: SpecValue, b: SpecValue)
    ensures
        values_equal(a, b) == values_equal(b, a),
    decreases a,
{
    match (a, b) {
        (SpecValue::List(xs), SpecValue::List(ys)) => {
            lemma_lists_equal_symmetric(xs, ys);
        },
        _ => {},
    }
}

proof fn lemma_lists_equal_symmetric(xs: Seq<SpecValue>, ys: Seq<SpecValue>)
    ensures
        lists_equal(xs, ys) == lists_equal(ys, xs),
    decreases xs,
{
    if xs.len() == ys.len() && xs.len() > 0 {
        lemma_lists_equal_symmetric(xs.subrange(0, xs.len() - 1), ys.subrange(0, ys.len() - 1));
        lemma_values_equal_symmetric(xs[xs.len() - 1], ys[ys.len() - 1]);
    }
}

/// `a == b` and `b == a` always give the same result.
pub proof fn law_equality_symmetric(fm: FloatModel, a: SpecValue, b: SpecValue, line: usize, column: usize)
    ensures
        binop_result(fm, a, b, BinOp::Eq, line, column) == binop_result(fm, b, a, BinOp::Eq, line, column),
{
    lemma_values_equal_symmetric(a, b);
}

/// The value holds no function, at any depth.
pub open spec fn function_free(v: SpecValue) -> bool
    decreases v,
{
    match v {
        SpecValue::Function(_) => false,
        SpecValue::List(xs) => forall|i: int| 0 <= i < xs.len() ==> function_free(#[trigger] xs[i]),
        _ => true,
    }
}

proof fn lemma_values_equal_reflexive(v: SpecValue)
    requires
        function_free(v),
    ensures
        values_equal(v, v),
    decreases v,
{
    match v {
        SpecValue::List(xs) => {
            assert forall|i: int| 0 <= i < xs.len() implies values_equal(#[trigger] xs[i], xs[i]) by {
                assert(function_free(xs[i]));
                lemma_values_equal_reflexive(xs[i]);
            }
            lemma_lists_equal_reflexive(xs, xs.len() as int);
            assert(xs.subrange(0, xs.len() as int) =~= xs);
        },
        _ => {},
    }
}

proof fn lemma_lists_equal_reflexive(xs: Seq<SpecValue>, n: int)
    requires
        0 <= n <= xs.len(),
        forall|i: int| 0 <= i < xs.len() ==> values_equal(#[trigger] xs[i], xs[i]),
    ensures
        lists_equal(xs.subrange(0, n), xs.subrange(0, n)),
    decreases n,
{
    let s = xs.subrange(0, n);
    if n > 0 {
        lemma_lists_equal_reflexive(xs, n - 1);
        assert(s.subrange(0, s.len() - 1) =~= xs.subrange(0, n - 1));
        assert(s[s.len() - 1] == xs[n - 1]);
    }
}

/// Every value without a function inside is equal to itself (a function is
/// equal to nothing, itself included).
pub proof fn law_equality_reflexive(fm: FloatModel, v: SpecValue, line: usize, column: usize)
    requires
        function_free(v),
    ensures
        binop_result(fm, v, v, BinOp::Eq, line, column) == Ok::<SpecValue, crate::ops::SpecRuntimeError>(
            SpecValue::Bool(true),
        ),
{
    lemma_values_equal_reflexive(v);
    if let SpecValue::List(xs) = v {
        assert(xs.subrange(0, xs.len() as int) =~= xs);
    }
}

/// The order with the two sides exchanged.
pub open spec fn flip(o: Order) -> Order {
    match o {
        Order::Less => Order::Greater,
        Order::Equal => Order::Equal,
        Order::Greater => Order::Less,
    }
}

proof fn lemma_lex_order_flip(a: Seq<char>, b: Seq<char>, i: int)
    ensures
        lex_order_from(b, a, i) == flip(lex_order_from(a, b, i)),
    decreases a.len() - i,
{
    if i < a.len() && i < b.len() && (a[i] as u32) == (b[i] as u32) {
        lemma_lex_order_flip(a, b, i + 1);
    }
}

/// The float model answers comparisons the same from either side: `y`
/// against `x` is `x` against `y` turned round.
pub open spec fn float_compare_flips(fm: FloatModel, x: u64, y: u64) -> bool {
    answer_order(fm(SpecFloatRequest::Compare(y, x))) == flip(answer_order(fm(SpecFloatRequest::Compare(x, y))))
}

/// Comparisons read the same from either side: `a < b` is `b > a`, and
/// `a <= b` is `b >= a`.  Two values that cannot be compared give an error
/// both ways round.  For two floats this holds when the float model
/// answers their comparison the same from either side.
pub proof fn law_comparison_flips(fm: FloatModel, a: SpecValue, b: SpecValue, line: usize, column: usize)
    requires
        a is Float && b is Float ==> float_compare_flips(fm, a->Float_0, b->Float_0),
    ensures
        compare_values(fm, a, b) is Some <==> compare_values(fm, b, a) is Some,
        compare_values(fm, a, b) is Some ==> {
            &&& binop_result(fm, a, b, BinOp::Lt, line, column) == binop_result(fm, b, a, BinOp::Gt, line, column)
            &&& binop_result(fm, a, b, BinOp::LtEq, line, column) == binop_result(fm, b, a, BinOp::GtEq, line, column)
        },
        compare_values(fm, a, b) is None ==> {
            &&& binop_result(fm, a, b, BinOp::Lt, line, column) is Err
            &&& binop_result(fm, b, a, BinOp::Gt, line, column) is Err
            &&& binop_result(fm, a, b, BinOp::LtEq, line, column) is Err
            &&& binop_result(fm, b, a, BinOp::GtEq, line, column) is Err
        },
{
    if let (SpecValue::Str(x), SpecValue::Str(y)) = (a, b) {
        lemma_lex_order_flip(x, y, 0);
    }
}

/// `not not v` is the truthiness of `v`.
pub proof fn law_double_negation(fm: FloatModel, v: SpecValue, line: usize, column: usize)
    ensures
        unary_result(fm, v, UnaryOp::Not, line, column) matches Ok(w) && unary_result(
            fm,
            w,
            UnaryOp::Not,
            line,
            column,
        ) == Ok::<SpecValue, crate::ops::SpecRuntimeError>(SpecValue::Bool(truthy(v))),
{
}

// ─── VARIABLES ───────────────────────────────────────────────────

proof fn lemma_scope_index(sc: SpecScope, name: Seq<char>)
    ensures
        -1 <= scope_index(sc, name) < sc.len(),
        scope_index(sc, name) >= 0 ==> sc[scope_index(sc, name)].0 == name,
        forall|j: int| scope_index(sc, name) < j < sc.len() ==> #[trigger] sc[j].0 != name,
    decreases sc.len(),
{
    if sc.len() > 0 && sc[sc.len() - 1].0 != name {
        let p = sc.subrange(0, sc.len() - 1);
        lemma_scope_index(p, name);
        assert forall|j: int| scope_index(sc, name) < j < sc.len() implies #[trigger] sc[j].0 != name by {
            if j < sc.len() - 1 {
                assert(sc[j] == p[j]);
            }
        }
    }
}

proof fn lemma_scope_index_unique(sc: SpecScope, name: Seq<char>, k: int)
    requires
        0 <= k < sc.len(),
        sc[k].0 == name,
        forall|j: int| k < j < sc.len() ==> #[trigger] sc[j].0 != name,
    ensures
        scope_index(sc, name) == k,
    decreases sc.len(),
{
    if k < sc.len() - 1 {
        let p = sc.subrange(0, sc.len() - 1);
        assert forall|j: int| k < j < p.len() implies #[trigger] p[j].0 != name by {
            assert(p[j] == sc[j]);
        }
        lemma_scope_index_unique(p, name, k);
    }
}

/// Reading a variable right after defining it gives the value defined.
pub proof fn law_get_after_define(env: Seq<SpecScope>, name: Seq<char>, v: SpecValue)
    requires
        env.len() > 0,
    ensures
        env_get(env_define(env, name, v), name) == Some(v),
{
    let sc = env[env.len() - 1];
    lemma_scope_index(sc, name);
    let k = scope_index(sc, name);
    let sc2 = if k >= 0 {
        sc.update(k, (name, v))
    } else {
        sc.push((name, v))
    };
    let e2 = env_define(env, name, v);
    assert(e2[e2.len() - 1] == sc2);
    if k >= 0 {
        assert forall|j: int| k < j < sc2.len() implies #[trigger] sc2[j].0 != name by {
            assert(sc2[j] == sc[j]);
        }
        lemma_scope_index_unique(sc2, name, k);
    } else {
        lemma_scope_index_unique(sc2, name, sc.len() as int);
    }
}

/// Defining a variable leaves every other variable as it was.
pub proof fn law_define_keeps_others(env: Seq<SpecScope>, name: Seq<char>, other: Seq<char>, v: SpecValue)
    requires
        name != other,
    ensures
        env_get(env_define(env, name, v), other) == env_get(env, other),
{
    if env.len() > 0 {
        let sc = env[env.len() - 1];
        lemma_scope_index(sc, name);
        lemma_scope_index(sc, other);
        let k = scope_index(sc, name);
        let sc2 = if k >= 0 {
            sc.update(k, (name, v))
        } else {
            sc.push((name, v))
        };
        let e2 = env_define(env, name, v);
        assert(e2.subrange(0, e2.len() - 1) =~= env.subrange(0, env.len() - 1));
        let ko = scope_index(sc, other);
        if ko >= 0 {
            assert forall|j: int| ko < j < sc2.len() implies #[trigger] sc2[j].0 != other by {
                if j < sc.len() {
                    assert(sc2[j].0 == sc[j].0 || sc2[j].0 == name);
                }
            }
            assert(sc2[ko] == sc[ko]);
            lemma_scope_index_unique(sc2, other, ko);
        } else {
            lemma_scope_index(sc2, other);
            if scope_index(sc2, other) >= 0 {
                let j = scope_index(sc2, other);
                if j < sc.len() {
                    assert(sc2[j].0 == sc[j].0 || sc2[j].0 == name);
                    assert(sc[j].0 == other);
                    lemma_scope_index_unique_absent(sc, other, j);
                }
            }
        }
    }
}

proof fn lemma_scope_index_unique_absent(sc: SpecScope, name: Seq<char>, j: int)
    requires
        0 <= j < sc.len(),
        sc[j].0 == name,
    ensures
        scope_index(sc, name) >= j,
    decreases sc.len(),
{
    if sc[sc.len() - 1].0 != name {
        let p = sc.subrange(0, sc.len() - 1);
        assert(p[j] == sc[j]);
        lemma_scope_index_unique_absent(p, name, j);
    }
}

/// Assigning to a variable succeeds exactly when the variable is defined,
/// and reading it afterwards gives the value assigned.
pub proof fn law_get_after_assign(env: Seq<SpecScope>, name: Seq<char>, v: SpecValue)
    ensures
        env_assign(env, name, v) is Some <==> env_get(env, name) is Some,
        env_assign(env, name, v) matches Some(e) ==> env_get(e, name) == Some(v),
    decreases env.len(),
{
    if env.len() > 0 {
        let sc = env[env.len() - 1];
        lemma_scope_index(sc, name);
        let k = scope_index(sc, name);
        if k >= 0 {
            let sc2 = sc.update(k, (name, v));
            let e = env.update(env.len() - 1, sc2);
            assert(e[e.len() - 1] == sc2);
            assert forall|j: int| k < j < sc2.len() implies #[trigger] sc2[j].0 != name by {
                assert(sc2[j] == sc[j]);
            }
            lemma_scope_index_unique(sc2, name, k);
        } else {
            let rest = env.subrange(0, env.len() - 1);
            law_get_after_assign(rest, name, v);
            if let Some(e0) = env_assign(rest, name, v) {
                let e = e0.push(sc);
                assert(e[e.len() - 1] == sc);
                assert(e.subrange(0, e.len() - 1) =~= e0);
            }
        }
    }
}


// ─── LEXING ──────────────────────────────────────────────────────

/// Tokens that the scanner can produce: never end-of-file, and an
/// identifier never spells a keyword.
pub open spec fn scanned_tokens(ts: Seq<SpecSpannedToken>) -> bool {
    forall|i: int|
        0 <= i < ts.len() ==> !(#[trigger] ts[i].token is Eof) && (ts[i].token matches SpecToken::Identifier(w)
            ==> keyword_of(w) is None)
}

proof fn lemma_keyword_not_special(w: Seq<char>)
    ensures
        keyword_of(w) matches Some(k) ==> !(k is Eof) && !(k is Identifier),
{
}

proof fn lemma_lexeme_token(p: Seq<char>, i: int)
    requires
        0 <= i < p.len(),
    ensures
        lexeme_at(p, i) matches Lexeme::Tok(t, _) ==> !(t is Eof) && (t matches SpecToken::Identifier(w)
            ==> keyword_of(w) is None),
{
    let c = p[i];
    if !is_digit(c) && c != '"' && !(c == 'f' && i + 1 < p.len() && p[i + 1] == '"' && find_char(p, '"', i + 2) is Some)
        && is_ident_start(c) {
        let word = p.subrange(i, i + ident_run(p, i));
        lemma_keyword_not_special(word);
    }
}

proof fn lemma_scan_tokens(p: Seq<char>, i: int, byte: int, st: ScanState)
    requires
        scanned_tokens(st.toks),
    ensures
        scanned_tokens(scan(p, i, byte, st).toks),
    decreases p.len() - i,
{
    if 0 <= i < p.len() {
        if p[i] == ' ' || p[i] == '\t' || p[i] == '\r' {
            lemma_scan_tokens(p, i + 1, byte + 1, st);
        } else {
            lemma_lexeme_len(p, i);
            lemma_lexeme_token(p, i);
            let column = byte - st.line_start + 1;
            let n = lexeme_len(lexeme_at(p, i)) as int;
            let w = bytes_len(p.subrange(i, i + n)) as int;
            match lexeme_at(p, i) {
                Lexeme::Tok(t, _) => {
                    let tok = SpecSpannedToken {
                        token: t,
                        span: Span { start: byte as usize, end: (byte + w) as usize },
                        line: st.line as usize,
                        column: column as usize,
                    };
                    let toks2 = st.toks.push(tok);
                    assert(scanned_tokens(toks2)) by {
                        assert forall|k: int| 0 <= k < toks2.len() implies !(#[trigger] toks2[k].token is Eof) && (
                        toks2[k].token matches SpecToken::Identifier(w) ==> keyword_of(w) is None) by {
                            if k < st.toks.len() {
                                assert(toks2[k] == st.toks[k]);
                            }
                        }
                    }
                    if t is Newline {
                        lemma_scan_tokens(
                            p,
                            i + n,
                            byte + w,
                            ScanState { toks: toks2, errs: st.errs, line: st.line + 1, line_start: byte + w },
                        );
                    } else {
                        lemma_scan_tokens(p, i + n, byte + w, ScanState { toks: toks2, ..st });
                    }
                },
                Lexeme::Bad(_) => {
                    let e = LexError::UnexpectedCharacter {
                        character: p[i],
                        line: st.line as usize,
                        column: column as usize,
                    };
                    lemma_scan_tokens(p, i + n, byte + w, ScanState { errs: st.errs.push(e), ..st });
                },
            }
        }
    }
}

/// A successful lexing ends with exactly one end-of-file token, the last
/// one, and no identifier token spells a keyword.
pub proof fn law_lexing_ends_with_eof(src: Seq<char>)
    ensures
        lex_text(src) matches Ok(ts) ==> {
            &&& ts.len() >= 1
            &&& ts.last().token is Eof
            &&& forall|i: int| 0 <= i < ts.len() - 1 ==> !(#[trigger] ts[i].token is Eof)
            &&& forall|i: int|
                0 <= i < ts.len() ==> (#[trigger] ts[i].token matches SpecToken::Identifier(w) ==> keyword_of(w) is None)
        },
{
    let init = ScanState { toks: Seq::empty(), errs: Seq::empty(), line: 1, line_start: 0 };
    lemma_scan_tokens(strip_comments(src), 0, 0, init);
    let end = scan(strip_comments(src), 0, 0, init);
    if let Ok(ts) = lex_text(src) {
        assert forall|i: int| 0 <= i < ts.len() - 1 implies !(#[trigger] ts[i].token is Eof) by {
            assert(ts[i] == end.toks[i]);
        }
        assert forall|i: int|
            0 <= i < ts.len() implies (#[trigger] ts[i].token matches SpecToken::Identifier(w) ==> keyword_of(w) is None) by {
            if i < ts.len() - 1 {
                assert(ts[i] == end.toks[i]);
            }
        }
    }
}

pub proof fn lemma_bytes_concat(a: Seq<char>, b: Seq<char>)
    ensures
        bytes_len(a + b) == bytes_len(a) + bytes_len(b),
    decreases b.len(),
{
    if b.len() > 0 {
        lemma_bytes_concat(a, b.drop_last());
        assert((a + b).drop_last() =~= a + b.drop_last());
    } else {
        assert(a + b =~= a);
    }
}

proof fn lemma_spaces_bytes(n: nat)
    ensures
        bytes_len(spaces(n)) == n,
    decreases n,
{
    if n > 0 {
        lemma_spaces_bytes((n - 1) as nat);
        assert(spaces(n).drop_last() =~= spaces((n - 1) as nat));
    }
}

proof fn lemma_newline_bytes()
    ensures
        bytes_len(seq!['\n']) == 1,
{
    assert(('\n' as u32) == 10);
    assert(seq!['\n'].drop_last() =~= Seq::<char>::empty());
    assert(seq!['\n'].last() == '\n');
    assert(char_width('\n') == 1);
    assert(bytes_len(seq!['\n'].drop_last()) == 0);
    assert(seq!['\n'].len() == 1);
}

proof fn lemma_blank_bytes(t: Seq<char>)
    ensures
        bytes_len(blank(t)) == bytes_len(t),
    decreases t.len(),
{
    if t.len() > 0 {
        lemma_blank_bytes(t.drop_last());
        lemma_bytes_concat(blank(t.drop_last()), blanked(t.last()));
        if t.last() == '\n' {
            lemma_newline_bytes();
        } else {
            lemma_spaces_bytes(char_width(t.last()));
        }
    }
}

proof fn lemma_strip_bytes(s: Seq<char>, i: int)
    requires
        0 <= i,
    ensures
        bytes_len(strip_from(s, i)) == if i < s.len() {
            bytes_len(s.subrange(i, s.len() as int))
        } else {
            0
        },
    decreases s.len() - i,
{
    if i < s.len() {
        lemma_find_pair(s, '/', ':', i);
        match find_pair(s, '/', ':', i) {
            None => {},
            Some(st) => {
                lemma_find_pair(s, ':', '/', st + 2);
                lemma_find_char(s, '\n', st + 2);
                let kept = s.subrange(i, st);
                match find_pair(s, ':', '/', st + 2) {
                    Some(re) => {
                        let com = s.subrange(st, re + 2);
                        lemma_strip_bytes(s, re + 2);
                        lemma_blank_bytes(com);
                        lemma_bytes_concat(kept, blank(com));
                        lemma_bytes_concat(kept + blank(com), strip_from(s, re + 2));
                        lemma_bytes_concat(kept, com);
                        if re + 2 < s.len() {
                            lemma_bytes_concat(kept + com, s.subrange(re + 2, s.len() as int));
                            assert(kept + com + s.subrange(re + 2, s.len() as int) =~= s.subrange(i, s.len() as int));
                        } else {
                            assert(kept + com =~= s.subrange(i, s.len() as int));
                        }
                    },
                    None => match find_char(s, '\n', st + 2) {
                        Some(nl) => {
                            let com = s.subrange(st, nl);
                            let rest = s.subrange(nl, s.len() as int);
                            lemma_strip_bytes(s, nl + 1);
                            lemma_blank_bytes(com);
                            lemma_bytes_concat(kept, blank(com));
                            lemma_bytes_concat(kept + blank(com), seq!['\n']);
                            lemma_bytes_concat(kept + blank(com) + seq!['\n'], strip_from(s, nl + 1));
                            lemma_bytes_concat(kept, com);
                            lemma_bytes_concat(kept + com, rest);
                            assert(kept + com + rest =~= s.subrange(i, s.len() as int));
                            lemma_bytes_concat(seq!['\n'], s.subrange(nl + 1, s.len() as int));
                            assert(seq!['\n'] + s.subrange(nl + 1, s.len() as int) =~= rest);
                            lemma_newline_bytes();
                            if nl + 1 >= s.len() {
                                assert(s.subrange(nl + 1, s.len() as int) =~= Seq::<char>::empty());
                            }
                        },
                        None => {
                            let com = s.subrange(st, s.len() as int);
                            lemma_blank_bytes(com);
                            lemma_bytes_concat(kept, blank(com));
                            lemma_bytes_concat(kept, com);
                            assert(kept + com =~= s.subrange(i, s.len() as int));
                        },
                    },
                }
            },
        }
    }
}

/// Blanking out comments keeps the text's length in bytes, so byte
/// offsets after a comment are those of the source as written.
pub proof fn law_comments_keep_length(src: Seq<char>)
    ensures
        bytes_len(strip_comments(src)) == bytes_len(src),
{
    lemma_strip_bytes(src, 0);
    if src.len() > 0 {
        assert(src.subrange(0, src.len() as int) =~= src);
    } else {
        assert(src =~= Seq::<char>::empty());
    }
}


/// The token lies before byte `byte`, on a line up to `line`.
pub open spec fn token_within(t: SpecSpannedToken, byte: int, line: int) -> bool {
    t.span.start <= t.span.end <= byte && t.line <= line
}

/// Token `a` ends before token `b` starts, on the same line or an earlier one.
pub open spec fn token_before(a: SpecSpannedToken, b: SpecSpannedToken) -> bool {
    a.span.end <= b.span.start && a.line <= b.line
}

/// Tokens listed so far lie before byte `byte` and on lines up to `line`,
/// in the order of the text: each ends before the next starts, and lines
/// never go back.
pub open spec fn tokens_in_order(ts: Seq<SpecSpannedToken>, byte: int, line: int) -> bool {
    &&& forall|i: int| 0 <= i < ts.len() ==> token_within(#[trigger] ts[i], byte, line)
    &&& forall|i: int, j: int| 0 <= i < j < ts.len() ==> token_before(#[trigger] ts[i], #[trigger] ts[j])
}

proof fn lemma_char_bytes(c: char)
    ensures
        bytes_len(seq![c]) == char_width(c),
{
    assert(seq![c].drop_last() =~= Seq::<char>::empty());
    assert(seq![c].last() == c);
    assert(bytes_len(Seq::<char>::empty()) == 0);
    assert(bytes_len(seq![c]) == bytes_len(seq![c].drop_last()) + char_width(seq![c].last()));
}

proof fn lemma_prefix_bytes(p: Seq<char>, i: int, n: int)
    requires
        0 <= i <= i + n <= p.len(),
    ensures
        bytes_len(p.take(i + n)) == bytes_len(p.take(i)) + bytes_len(p.subrange(i, i + n)),
        bytes_len(p.take(i + n)) <= bytes_len(p),
        n <= bytes_len(p.subrange(i, i + n)),
{
    lemma_bytes_concat(p.take(i), p.subrange(i, i + n));
    assert(p.take(i) + p.subrange(i, i + n) =~= p.take(i + n));
    lemma_bytes_concat(p.take(i + n), p.skip(i + n));
    assert(p.take(i + n) + p.skip(i + n) =~= p);
    crate::lexer::lemma_bytes_len_bound(p.subrange(i, i + n));
}

proof fn lemma_in_order_widen(ts: Seq<SpecSpannedToken>, byte: int, byte2: int, line: int)
    requires
        byte <= byte2,
        tokens_in_order(ts, byte, line),
    ensures
        tokens_in_order(ts, byte2, line),
{
    assert forall|i: int| 0 <= i < ts.len() implies token_within(#[trigger] ts[i], byte2, line) by {
        assert(token_within(ts[i], byte, line));
    }
}

proof fn lemma_scan_order(p: Seq<char>, i: int, byte: int, st: ScanState)
    requires
        0 <= i <= p.len(),
        byte == bytes_len(p.take(i)),
        bytes_len(p) < usize::MAX,
        1 <= st.line <= byte + 1,
        tokens_in_order(st.toks, byte, st.line),
    ensures
        tokens_in_order(scan(p, i, byte, st).toks, bytes_len(p) as int, scan(p, i, byte, st).line),
        1 <= scan(p, i, byte, st).line <= bytes_len(p) + 1,
    decreases p.len() - i,
{
    if i == p.len() {
        assert(p.take(i) =~= p);
    } else if p[i] == ' ' || p[i] == '\t' || p[i] == '\r' {
        lemma_prefix_bytes(p, i, 1);
        assert(p.subrange(i, i + 1) =~= seq![p[i]]);
        lemma_char_bytes(p[i]);
        lemma_in_order_widen(st.toks, byte, byte + 1, st.line);
        lemma_scan_order(p, i + 1, byte + 1, st);
    } else {
        lemma_lexeme_len(p, i);
        let column = byte - st.line_start + 1;
        let n = lexeme_len(lexeme_at(p, i)) as int;
        let w = bytes_len(p.subrange(i, i + n)) as int;
        lemma_prefix_bytes(p, i, n);
        match lexeme_at(p, i) {
            Lexeme::Tok(t, _) => {
                let tok = SpecSpannedToken {
                    token: t,
                    span: Span { start: byte as usize, end: (byte + w) as usize },
                    line: st.line as usize,
                    column: column as usize,
                };
                let toks2 = st.toks.push(tok);
                let line2 = if t is Newline {
                    st.line + 1
                } else {
                    st.line
                };
                assert(tokens_in_order(toks2, byte + w, line2)) by {
                    assert forall|a: int| 0 <= a < toks2.len() implies token_within(#[trigger] toks2[a], byte + w, line2) by {
                        if a < st.toks.len() {
                            assert(toks2[a] == st.toks[a]);
                            assert(token_within(st.toks[a], byte, st.line));
                        } else {
                            assert(toks2[a] == tok);
                        }
                    }
                    assert forall|a: int, b: int| 0 <= a < b < toks2.len() implies token_before(
                        #[trigger] toks2[a],
                        #[trigger] toks2[b],
                    ) by {
                        assert(toks2[a] == st.toks[a]);
                        assert(token_within(st.toks[a], byte, st.line));
                        if b < st.toks.len() {
                            assert(toks2[b] == st.toks[b]);
                            assert(token_before(st.toks[a], st.toks[b]));
                        } else {
                            assert(toks2[b] == tok);
                        }
                    }
                }
                if t is Newline {
                    lemma_scan_order(
                        p,
                        i + n,
                        byte + w,
                        ScanState { toks: toks2, errs: st.errs, line: st.line + 1, line_start: byte + w },
                    );
                } else {
                    lemma_scan_order(p, i + n, byte + w, ScanState { toks: toks2, ..st });
                }
            },
            Lexeme::Bad(_) => {
                let e = LexError::UnexpectedCharacter {
                    character: p[i],
                    line: st.line as usize,
                    column: column as usize,
                };
                lemma_scan_order(p, i + n, byte + w, ScanState { errs: st.errs.push(e), ..st });
            },
        }
    }
}

/// The tokens of a successful lexing come in the order of the text: each
/// token's span lies within the text and ends no later than the next one
/// starts, and their line numbers never decrease.  (Offsets are `usize`, so
/// the text must be shorter than `usize::MAX` bytes.)
pub proof fn law_tokens_in_text_order(src: Seq<char>)
    requires
        bytes_len(src) < usize::MAX,
    ensures
        lex_text(src) matches Ok(ts) ==> tokens_in_order(ts, bytes_len(src) as int, ts.last().line as int),
{
    let p = strip_comments(src);
    law_comments_keep_length(src);
    let init = ScanState { toks: Seq::empty(), errs: Seq::empty(), line: 1, line_start: 0 };
    assert(p.take(0) =~= Seq::<char>::empty());
    lemma_scan_order(p, 0, 0, init);
    let end = scan(p, 0, 0, init);
    if let Ok(ts) = lex_text(src) {
        let total = bytes_len(src) as int;
        let k = end.toks.len() as int;
        assert(ts.len() == k + 1);
        assert(ts[k].span.start == total && ts[k].span.end == total);
        assert(ts[k].line == end.line);
        assert(ts.last() == ts[k]);
        assert forall|a: int| 0 <= a < ts.len() implies token_within(#[trigger] ts[a], total, ts.last().line as int) by {
            if a < k {
                assert(ts[a] == end.toks[a]);
                assert(token_within(end.toks[a], total, end.line));
            }
        }
        assert forall|a: int, b: int| 0 <= a < b < ts.len() implies token_before(#[trigger] ts[a], #[trigger] ts[b]) by {
            assert(ts[a] == end.toks[a]);
            assert(token_within(end.toks[a], total, end.line));
            if b < k {
                assert(ts[b] == end.toks[b]);
                assert(token_before(end.toks[a], end.toks[b]));
            }
        }
    }
}

proof fn lemma_keyword_not_fstring(w: Seq<char>)
    ensures
        keyword_of(w) matches Some(k) ==> !(k is FString),
{
}

/// A token found at `i` weighs less than the bytes it covers.
proof fn lemma_lexeme_weight(p: Seq<char>, i: int)
    requires
        0 <= i < p.len(),
    ensures
        lexeme_at(p, i) matches Lexeme::Tok(t, n) ==> 1 + token_weight(t) <= bytes_len(p.subrange(i, i + n)),
{
    lemma_lexeme_len(p, i);
    let c = p[i];
    if let Lexeme::Tok(t, n) = lexeme_at(p, i) {
        crate::lexer::lemma_bytes_len_bound(p.subrange(i, i + n));
        if !crate::semantics::is_digit(c) && c != '"' && c == 'f' && i + 1 < p.len() && p[i + 1] == '"' && find_char(
            p,
            '"',
            i + 2,
        ) is Some {
            let j = find_char(p, '"', i + 2)->0;
            lemma_find_char(p, '"', i + 2);
            let raw = p.subrange(i + 2, j);
            assert(p.subrange(i, i + n) =~= seq!['f', '"'] + raw + seq!['"']);
            lemma_bytes_concat(seq!['f', '"'], raw);
            lemma_bytes_concat(seq!['f', '"'] + raw, seq!['"']);
            lemma_char_bytes('"');
            assert(seq!['f', '"'] =~= seq!['f'] + seq!['"']);
            lemma_bytes_concat(seq!['f'], seq!['"']);
            lemma_char_bytes('f');
            assert(('f' as u32) == 102);
            assert(('"' as u32) == 34);
        } else if is_ident_start(c) && !crate::semantics::is_digit(c) && c != '"' {
            let word = p.subrange(i, i + ident_run(p, i));
            lemma_keyword_not_fstring(word);
        }
    }
}

proof fn lemma_scan_weight(p: Seq<char>, i: int, byte: int, st: ScanState)
    requires
        0 <= i <= p.len(),
        byte == bytes_len(p.take(i)),
        st.toks.len() + tokens_weight(st.toks) <= byte,
    ensures
        scan(p, i, byte, st).toks.len() + tokens_weight(scan(p, i, byte, st).toks) <= bytes_len(p),
    decreases p.len() - i,
{
    if i == p.len() {
        assert(p.take(i) =~= p);
    } else if p[i] == ' ' || p[i] == '\t' || p[i] == '\r' {
        lemma_prefix_bytes(p, i, 1);
        assert(p.subrange(i, i + 1) =~= seq![p[i]]);
        lemma_char_bytes(p[i]);
        lemma_scan_weight(p, i + 1, byte + 1, st);
    } else {
        lemma_lexeme_len(p, i);
        lemma_lexeme_weight(p, i);
        let column = byte - st.line_start + 1;
        let n = lexeme_len(lexeme_at(p, i)) as int;
        let w = bytes_len(p.subrange(i, i + n)) as int;
        lemma_prefix_bytes(p, i, n);
        match lexeme_at(p, i) {
            Lexeme::Tok(t, _) => {
                let tok = SpecSpannedToken {
                    token: t,
                    span: Span { start: byte as usize, end: (byte + w) as usize },
                    line: st.line as usize,
                    column: column as usize,
                };
                let toks2 = st.toks.push(tok);
                assert(toks2.drop_last() =~= st.toks);
                assert(tokens_weight(toks2) == tokens_weight(st.toks) + token_weight(t));
                if t is Newline {
                    lemma_scan_weight(
                        p,
                        i + n,
                        byte + w,
                        ScanState { toks: toks2, errs: st.errs, line: st.line + 1, line_start: byte + w },
                    );
                } else {
                    lemma_scan_weight(p, i + n, byte + w, ScanState { toks: toks2, ..st });
                }
            },
            Lexeme::Bad(_) => {
                let e = LexError::UnexpectedCharacter {
                    character: p[i],
                    line: st.line as usize,
                    column: column as usize,
                };
                lemma_scan_weight(p, i + n, byte + w, ScanState { errs: st.errs.push(e), ..st });
            },
        }
    }
}

/// A text lexes to no more tokens than it has bytes, plus the end-of-file
/// token; an f-string token, counted with its weight (the bytes of its
/// text plus two), stands for no more than the bytes it covers.
pub proof fn lemma_lex_weight(src: Seq<char>)
    ensures
        lex_text(src) matches Ok(ts) ==> ts.len() + tokens_weight(ts) <= bytes_len(src) + 1,
{
    let p = strip_comments(src);
    law_comments_keep_length(src);
    let init = ScanState { toks: Seq::empty(), errs: Seq::empty(), line: 1, line_start: 0 };
    assert(p.take(0) =~= Seq::<char>::empty());
    lemma_scan_weight(p, 0, 0, init);
    let end = scan(p, 0, 0, init);
    if let Ok(ts) = lex_text(src) {
        assert(ts.drop_last() =~= end.toks);
    }
}

proof fn lemma_plain_pieces(raw: Seq<char>, i: int, lit: Seq<char>)
    requires
        0 <= i <= raw.len(),
        forall|k: int| 0 <= k < raw.len() ==> #[trigger] raw[k] != '{' && raw[k] != '}',
    ensures
        fstring_pieces(raw, i, lit) == Some(text_piece(lit + raw.subrange(i, raw.len() as int))),
    decreases raw.len() - i,
{
    if i < raw.len() {
        lemma_plain_pieces(raw, i + 1, lit.push(raw[i]));
        assert(lit.push(raw[i]) + raw.subrange(i + 1, raw.len() as int) =~= lit + raw.subrange(i, raw.len() as int));
    } else {
        assert(lit + raw.subrange(i, raw.len() as int) =~= lit);
    }
}

/// An f-string without braces is all literal text: one text piece holding
/// the whole text (none when it is empty).
pub proof fn law_plain_fstring_is_text(raw: Seq<char>)
    requires
        forall|k: int| 0 <= k < raw.len() ==> #[trigger] raw[k] != '{' && raw[k] != '}',
    ensures
        fstring_pieces(raw, 0, Seq::empty()) == Some(text_piece(raw)),
{
    lemma_plain_pieces(raw, 0, Seq::empty());
    assert(Seq::<char>::empty() + raw.subrange(0, raw.len() as int) =~= raw);
}

// ─── RUNNING ─────────────────────────────────────────────────────

proof fn lemma_assign_depth(env: Seq<SpecScope>, name: Seq<char>, v: SpecValue)
    ensures
        env_assign(env, name, v) matches Some(e) ==> e.len() == env.len(),
    decreases env.len(),
{
    if env.len() > 0 && scope_index(env[env.len() - 1], name) < 0 {
        lemma_assign_depth(env.subrange(0, env.len() - 1), name, v);
    }
}

proof fn lemma_bind_depth(env: Seq<SpecScope>, params: Seq<SpecParam>, args: Seq<SpecValue>, k: int)
    ensures
        bind_params(env, params, args, k).len() == env.len(),
    decreases params.len() - k,
{
    if !(k < 0 || k >= params.len() || k >= args.len()) {
        lemma_bind_depth(env_define(env, params[k].name, args[k]), params, args, k + 1);
    }
}

proof fn lemma_eval_depth(fm: FloatModel, src: Seq<char>, m: SpecMachine, e: SpecExpr, fuel: nat)
    ensures
        eval(fm, src, m, e, fuel).0.env.len() == m.env.len(),
    decreases fuel, expr_size(e), 0nat,
{
    match e {
        SpecExpr::BinOp { left, right, .. } => {
            lemma_eval_depth(fm, src, m, *left, fuel);
            let (m1, r1) = eval(fm, src, m, *left, fuel);
            if r1 is Ok {
                lemma_eval_depth(fm, src, m1, *right, fuel);
            }
        },
        SpecExpr::UnaryOp { operand, .. } => {
            lemma_eval_depth(fm, src, m, *operand, fuel);
        },
        SpecExpr::Call { callee, args, span } => {
            let native = match *callee {
                SpecExpr::Identifier(name, _) => native_of(name),
                _ => None,
            };
            match native {
                Some(k) => lemma_native_depth(fm, src, m, k, args, span.start as int, fuel),
                None => {
                    lemma_eval_depth(fm, src, m, *callee, fuel);
                    let (m1, r1) = eval(fm, src, m, *callee, fuel);
                    if let Ok(SpecValue::Function(fd)) = r1 {
                        lemma_eval_list_depth(fm, src, m1, args, 0, Seq::empty(), fuel);
                        let (m2, ra) = eval_list(fm, src, m1, args, 0, Seq::empty(), fuel);
                        if let Ok(vals) = ra {
                            if fuel > 0 {
                                let (l, c) = source_line_col(src, span.start as int);
                                lemma_call_depth(fm, src, m2, fd, vals, l as usize, c as usize, (fuel - 1) as nat);
                            }
                        }
                    }
                },
            }
        },
        SpecExpr::FieldAccess { object, .. } => {
            lemma_eval_depth(fm, src, m, *object, fuel);
        },
        SpecExpr::Index { object, index, .. } => {
            lemma_eval_depth(fm, src, m, *object, fuel);
            let (m1, r1) = eval(fm, src, m, *object, fuel);
            if r1 is Ok {
                lemma_eval_depth(fm, src, m1, *index, fuel);
            }
        },
        SpecExpr::List(items, _) => {
            lemma_eval_list_depth(fm, src, m, items, 0, Seq::empty(), fuel);
        },
        SpecExpr::FString(segs, _) => {
            lemma_eval_fstring_depth(fm, src, m, segs, 0, Seq::empty(), fuel);
        },
        _ => {},
    }
}

proof fn lemma_eval_list_depth(
    fm: FloatModel,
    src: Seq<char>,
    m: SpecMachine,
    items: Seq<SpecExpr>,
    k: int,
    acc: Seq<SpecValue>,
    fuel: nat,
)
    ensures
        eval_list(fm, src, m, items, k, acc, fuel).0.env.len() == m.env.len(),
    decreases fuel, exprs_size(items), items.len() - k,
{
    if !(k < 0 || k >= items.len()) {
        lemma_exprs_size(items, k);
        lemma_eval_depth(fm, src, m, items[k], fuel);
        let (m1, r) = eval(fm, src, m, items[k], fuel);
        if let Ok(v) = r {
            lemma_eval_list_depth(fm, src, m1, items, k + 1, acc.push(v), fuel);
        }
    }
}

proof fn lemma_eval_fstring_depth(
    fm: FloatModel,
    src: Seq<char>,
    m: SpecMachine,
    segs: Seq<SpecFStringSegment>,
    k: int,
    acc: Seq<char>,
    fuel: nat,
)
    ensures
        eval_fstring(fm, src, m, segs, k, acc, fuel).0.env.len() == m.env.len(),
    decreases fuel, segs_size(segs), segs.len() - k,
{
    if !(k < 0 || k >= segs.len()) {
        lemma_segs_size(segs, k);
        match segs[k] {
            SpecFStringSegment::Lit(t) => {
                lemma_eval_fstring_depth(fm, src, m, segs, k + 1, acc + t, fuel);
            },
            SpecFStringSegment::Expr(x, f) => {
                lemma_eval_depth(fm, src, m, x, fuel);
                let (m1, r) = eval(fm, src, m, x, fuel);
                if let Ok(v) = r {
                    lemma_eval_fstring_depth(
                        fm,
                        src,
                        m1,
                        segs,
                        k + 1,
                        acc + crate::semantics::format_text(fm, v, f),
                        fuel,
                    );
                }
            },
        }
    }
}

proof fn lemma_native_depth(
    fm: FloatModel,
    src: Seq<char>,
    m: SpecMachine,
    k: Native,
    args: Seq<SpecExpr>,
    at: int,
    fuel: nat,
)
    ensures
        eval_native(fm, src, m, k, args, at, fuel).0.env.len() == m.env.len(),
    decreases fuel, exprs_size(args), args.len() + 1,
{
    match k {
        Native::Print => {
            lemma_eval_list_depth(fm, src, m, args, 0, Seq::empty(), fuel);
        },
        _ => if args.len() == 1 {
            lemma_exprs_size(args, 0);
            lemma_eval_depth(fm, src, m, args[0], fuel);
        },
    }
}

proof fn lemma_call_depth(
    fm: FloatModel,
    src: Seq<char>,
    m: SpecMachine,
    fd: SpecFnDecl,
    args: Seq<SpecValue>,
    line: usize,
    column: usize,
    fuel: nat,
)
    ensures
        call_function(fm, src, m, fd, args, line, column, fuel).0.env.len() == m.env.len(),
    decreases fuel, block_size(fd.body) + 1, 0nat,
{
    if args.len() == fd.params.len() {
        lemma_bind_depth(env_push(m.env), fd.params, args, 0);
        let m1 = with_env(m, bind_params(env_push(m.env), fd.params, args, 0));
        lemma_block_depth(fm, src, m1, fd.body, fuel);
    }
}

proof fn lemma_block_depth(fm: FloatModel, src: Seq<char>, m: SpecMachine, b: SpecBlock, fuel: nat)
    ensures
        exec_block(fm, src, m, b, fuel).0.env.len() == m.env.len(),
    decreases fuel, block_size(b), 0nat,
{
    lemma_stmts_depth(fm, src, with_env(m, env_push(m.env)), b.stmts, 0, fuel);
}

proof fn lemma_stmts_depth(fm: FloatModel, src: Seq<char>, m: SpecMachine, ss: Seq<SpecStmt>, k: int, fuel: nat)
    ensures
        exec_stmts(fm, src, m, ss, k, fuel).0.env.len() == m.env.len(),
    decreases fuel, stmts_size(ss), ss.len() - k,
{
    if !(k < 0 || k >= ss.len()) {
        lemma_stmts_size(ss, k);
        lemma_stmt_depth(fm, src, m, ss[k], fuel);
        let (m1, r) = exec_stmt(fm, src, m, ss[k], fuel);
        if r == Ok::<Option<SpecValue>, SpecHalt>(None) {
            lemma_stmts_depth(fm, src, m1, ss, k + 1, fuel);
        }
    }
}

proof fn lemma_stmt_depth(fm: FloatModel, src: Seq<char>, m: SpecMachine, s: SpecStmt, fuel: nat)
    ensures
        exec_stmt(fm, src, m, s, fuel).0.env.len() == m.env.len(),
    decreases fuel, stmt_size(s), 0nat,
{
    match s {
        SpecStmt::LetStmt(l) => {
            lemma_eval_depth(fm, src, m, l.value, fuel);
        },
        SpecStmt::AssignStmt(a) => {
            lemma_eval_depth(fm, src, m, a.value, fuel);
            let (m1, r) = eval(fm, src, m, a.value, fuel);
            if let Ok(v) = r {
                lemma_assign_depth(m1.env, a.name, v);
            }
        },
        SpecStmt::IfStmt(i) => {
            lemma_if_depth(fm, src, m, i, fuel);
        },
        SpecStmt::WhileStmt(w) => {
            lemma_while_depth(fm, src, m, w, fuel);
        },
        SpecStmt::ForStmt(f) => {
            lemma_eval_depth(fm, src, m, f.iterable, fuel);
            let (m1, r) = eval(fm, src, m, f.iterable, fuel);
            if let Ok(SpecValue::List(items)) = r {
                lemma_for_depth(fm, src, m1, f, items, 0, fuel);
            }
        },
        SpecStmt::ReturnStmt(r) => {
            if let Some(x) = r.value {
                lemma_eval_depth(fm, src, m, x, fuel);
            }
        },
        SpecStmt::EffectStmt(e) => {
            lemma_eval_depth(fm, src, m, e.expr, fuel);
        },
        SpecStmt::ExprStmt(e) => {
            lemma_eval_depth(fm, src, m, e.expr, fuel);
        },
        _ => {},
    }
}

proof fn lemma_if_depth(fm: FloatModel, src: Seq<char>, m: SpecMachine, i: SpecIfStmt, fuel: nat)
    ensures
        exec_if(fm, src, m, i, fuel).0.env.len() == m.env.len(),
    decreases fuel, if_size(i), 0nat,
{
    lemma_eval_depth(fm, src, m, i.condition, fuel);
    let (m1, r) = eval(fm, src, m, i.condition, fuel);
    if let Ok(c) = r {
        if truthy(c) {
            lemma_block_depth(fm, src, m1, i.then_branch, fuel);
        } else {
            match i.else_branch {
                None => {},
                Some(b) => match *b {
                    SpecElseBranch::Block(bl) => lemma_block_depth(fm, src, m1, bl, fuel),
                    SpecElseBranch::If(inner) => lemma_if_depth(fm, src, m1, inner, fuel),
                },
            }
        }
    }
}

proof fn lemma_while_depth(fm: FloatModel, src: Seq<char>, m: SpecMachine, w: SpecWhileStmt, fuel: nat)
    ensures
        exec_while(fm, src, m, w, fuel).0.env.len() == m.env.len(),
    decreases fuel, expr_size(w.condition) + block_size(w.body), 0nat,
{
    if fuel > 0 {
        lemma_eval_depth(fm, src, m, w.condition, fuel);
        let (m1, r) = eval(fm, src, m, w.condition, fuel);
        if let Ok(c) = r {
            if truthy(c) {
                lemma_block_depth(fm, src, m1, w.body, fuel);
                let (m2, rb) = exec_block(fm, src, m1, w.body, fuel);
                if rb == Ok::<Option<SpecValue>, SpecHalt>(None) {
                    lemma_while_depth(fm, src, m2, w, (fuel - 1) as nat);
                }
            }
        }
    }
}

proof fn lemma_for_depth(
    fm: FloatModel,
    src: Seq<char>,
    m: SpecMachine,
    f: SpecForStmt,
    items: Seq<SpecValue>,
    k: int,
    fuel: nat,
)
    ensures
        exec_for(fm, src, m, f, items, k, fuel).0.env.len() == m.env.len(),
    decreases fuel, block_size(f.body), items.len() - k,
{
    if !(k < 0 || k >= items.len()) {
        let m1 = with_env(m, env_define(env_push(m.env), f.var, items[k]));
        lemma_stmts_depth(fm, src, m1, f.body.stmts, 0, fuel);
        let (m2, r) = exec_stmts(fm, src, m1, f.body.stmts, 0, fuel);
        if r == Ok::<Option<SpecValue>, SpecHalt>(None) {
            lemma_for_depth(fm, src, with_env(m2, env_pop(m2.env)), f, items, k + 1, fuel);
        }
    }
}

/// Running a statement leaves as many scopes as it found, however it
/// ends: blocks, loops and calls drop every scope they push, after a
/// `return` or an error too.
pub proof fn law_running_keeps_scopes(fm: FloatModel, src: Seq<char>, m: SpecMachine, s: SpecStmt, fuel: nat)
    ensures
        exec_stmt(fm, src, m, s, fuel).0.env.len() == m.env.len(),
{
    lemma_stmt_depth(fm, src, m, s, fuel);
}

/// A block gives back the scopes it was given, however it ends: the names
/// it binds are gone afterwards, while assignments to outer names stay.
pub proof fn law_block_restores_scopes(fm: FloatModel, src: Seq<char>, m: SpecMachine, b: SpecBlock, fuel: nat)
    ensures
        exec_block(fm, src, m, b, fuel).0.env.len() == m.env.len(),
        exec_block(fm, src, m, b, fuel).0.env == env_pop(
            exec_stmts(fm, src, with_env(m, env_push(m.env)), b.stmts, 0, fuel).0.env,
        ),
{
    lemma_block_depth(fm, src, m, b, fuel);
}

/// A call gives the caller back the scopes it had, whether the body
/// returns, falls off its end or fails: parameters and the body's names
/// are not visible afterwards.
pub proof fn law_call_restores_scopes(
    fm: FloatModel,
    src: Seq<char>,
    m: SpecMachine,
    fd: SpecFnDecl,
    args: Seq<SpecValue>,
    line: usize,
    column: usize,
    fuel: nat,
)
    ensures
        call_function(fm, src, m, fd, args, line, column, fuel).0.env.len() == m.env.len(),
{
    lemma_call_depth(fm, src, m, fd, args, line, column, fuel);
}

/// A `let` whose value evaluates to `v` binds its name to `v`: the
/// statement completes, and reading the name right after gives `v`
/// without changing anything.
pub proof fn law_read_after_let(
    fm: FloatModel,
    src: Seq<char>,
    m: SpecMachine,
    l: SpecLetStmt,
    at: Span,
    fuel: nat,
    fuel2: nat,
)
    requires
        m.env.len() > 0,
    ensures
        eval(fm, src, m, l.value, fuel).1 matches Ok(v) ==> {
            let (m2, r) = exec_stmt(fm, src, m, SpecStmt::LetStmt(l), fuel);
            &&& r == Ok::<Option<SpecValue>, SpecHalt>(None)
            &&& eval(fm, src, m2, SpecExpr::Identifier(l.name, at), fuel2) == (m2, Ok::<SpecValue, SpecHalt>(v))
        },
{
    lemma_eval_depth(fm, src, m, l.value, fuel);
    let (m1, r) = eval(fm, src, m, l.value, fuel);
    if let Ok(v) = r {
        law_get_after_define(m1.env, l.name, v);
    }
}

/// An assignment that completes rebinds its name: reading the name right
/// after gives the value assigned.  It completes exactly when its value
/// evaluates and the name is bound.
pub proof fn law_read_after_assign(
    fm: FloatModel,
    src: Seq<char>,
    m: SpecMachine,
    a: SpecAssignStmt,
    at: Span,
    fuel: nat,
    fuel2: nat,
)
    ensures
        eval(fm, src, m, a.value, fuel) matches (m1, Ok(v)) ==> {
            let (m2, r) = exec_stmt(fm, src, m, SpecStmt::AssignStmt(a), fuel);
            &&& (r is Ok <==> env_get(m1.env, a.name) is Some)
            &&& r is Ok ==> eval(fm, src, m2, SpecExpr::Identifier(a.name, at), fuel2) == (m2, Ok::<SpecValue, SpecHalt>(v))
        },
{
    let (m1, r) = eval(fm, src, m, a.value, fuel);
    if let Ok(v) = r {
        law_get_after_assign(m1.env, a.name, v);
    }
}

// ─── PARSING ─────────────────────────────────────────────────────

/// Error recovery loses nothing: parsing the rest of a program keeps, in
/// order, every declaration and every error found before it, and a
/// declaration that fails to parse adds its error to the report.
pub proof fn law_parse_keeps_every_error(
    ts: Seq<SpecSpannedToken>,
    c: int,
    stmts: Seq<SpecStmt>,
    errs: Seq<SpecParseError>,
)
    ensures
        ({
            let (all_stmts, all_errs) = p_program_from(ts, c, stmts, errs);
            &&& all_stmts.len() >= stmts.len()
            &&& all_stmts.take(stmts.len() as int) == stmts
            &&& all_errs.len() >= errs.len()
            &&& all_errs.take(errs.len() as int) == errs
            &&& (!(peek(ts, c) is Eof) && p_top(ts, c).1 is Err) ==> all_errs.len() > errs.len()
        }),
    decreases remaining(ts, c),
{
    if !(peek(ts, c) is Eof) {
        let (n, r) = p_top(ts, c);
        let (c2, s2, e2) = match r {
            Ok(s) => (c + n, stmts.push(s), errs),
            Err(e) => (c + n + crate::parser::skipped(ts, c + n), stmts, errs.push(e)),
        };
        let c3 = c2 + crate::parser::newlines(ts, c2);
        if c3 > c {
            law_parse_keeps_every_error(ts, c3, s2, e2);
            let (all_stmts, all_errs) = p_program_from(ts, c3, s2, e2);
            assert(all_stmts.take(stmts.len() as int) =~= all_stmts.take(s2.len() as int).take(stmts.len() as int));
            assert(all_errs.take(errs.len() as int) =~= all_errs.take(e2.len() as int).take(errs.len() as int));
        }
    }
    let (all_stmts, all_errs) = p_program_from(ts, c, stmts, errs);
    assert(stmts.take(stmts.len() as int) =~= stmts);
    assert(errs.take(errs.len() as int) =~= errs);
}

} // verus!
