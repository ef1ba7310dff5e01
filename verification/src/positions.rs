//! Where tokens stand: the line and column the lexer gives each token are
//! those that `line_col` computes for its offset, for ASCII text.
use vstd::prelude::*;
use crate::ast::Span;
use crate::token::{SpecToken, SpecSpannedToken, LexError, keyword_of};
use crate::semantics::{char_width, is_digit, source_line_col, source_line_col_from};
use crate::lexer::{
    Lexeme, ScanState, lexeme_at, lexeme_len, lemma_lexeme_len, scan, lex_text, strip_comments, strip_from,
    bytes_len, blank, blanked, spaces, find_pair, find_char, lemma_find_pair, lemma_find_char, ident_run,
    digit_run, lemma_ident_run, lemma_digit_run, is_ident_start,
};

verus! {

// ─── TEXT SHAPE ──────────────────────────────────────────────────

/// Every character of `s` is ASCII.
pub open spec fn is_ascii_text(s: Seq<char>) -> bool {
    forall|k: int| 0 <= k < s.len() ==> (#[trigger] s[k] as u32) < 0x80
}

/// Newlines in `s`.
pub open spec fn newlines_in(s: Seq<char>) -> nat
    decreases s.len(),
{
    if s.len() == 0 {
        0
    } else {
        newlines_in(s.drop_last()) + if s.last() == '\n' {
            1nat
        } else {
            0nat
        }
    }
}

/// Where the last line of `s` starts: just after its last newline, or 0.
pub open spec fn line_start_in(s: Seq<char>) -> int
    decreases s.len(),
{
    if s.len() == 0 {
        0
    } else if s.last() == '\n' {
        s.len() as int
    } else {
        line_start_in(s.drop_last())
    }
}

/// What matters of a character for positions: a newline (2), another
/// ASCII character (1), anything else (0).
pub open spec fn char_class(c: char) -> int {
    if c == '\n' {
        2
    } else if (c as u32) < 0x80 {
        1
    } else {
        0
    }
}

pub open spec fn profile(s: Seq<char>) -> Seq<int> {
    Seq::new(s.len(), |k: int| char_class(s[k]))
}

proof fn lemma_profile_concat(a: Seq<char>, b: Seq<char>)
    ensures
        profile(a + b) == profile(a) + profile(b),
{
    assert(profile(a + b) =~= profile(a) + profile(b));
}

proof fn lemma_ascii_sub(s: Seq<char>, i: int, j: int)
    requires
        is_ascii_text(s),
        0 <= i <= j <= s.len(),
    ensures
        is_ascii_text(s.subrange(i, j)),
{
    assert forall|k: int| 0 <= k < j - i implies (#[trigger] s.subrange(i, j)[k] as u32) < 0x80 by {
        assert(s.subrange(i, j)[k] == s[i + k]);
    }
}

proof fn lemma_blank_profile(t: Seq<char>)
    requires
        is_ascii_text(t),
    ensures
        profile(blank(t)) == profile(t),
    decreases t.len(),
{
    if t.len() > 0 {
        let c = t.last();
        lemma_ascii_sub(t, 0, t.len() - 1);
        assert(t.drop_last() =~= t.subrange(0, t.len() - 1));
        lemma_blank_profile(t.drop_last());
        lemma_profile_concat(blank(t.drop_last()), blanked(c));
        assert(t =~= t.drop_last() + seq![c]);
        lemma_profile_concat(t.drop_last(), seq![c]);
        assert((c as u32) < 0x80);
        if c != '\n' {
            assert(char_width(c) == 1);
            assert(spaces(1) =~= seq![' ']);
        }
        assert(profile(blanked(c)) =~= profile(seq![c]));
    }
}

proof fn lemma_strip_profile(s: Seq<char>, i: int)
    requires
        0 <= i,
        is_ascii_text(s),
    ensures
        profile(strip_from(s, i)) == if i < s.len() {
            profile(s.subrange(i, s.len() as int))
        } else {
            Seq::<int>::empty()
        },
    decreases s.len() - i,
{
    if i < s.len() {
        lemma_find_pair(s, '/', ':', i);
        match find_pair(s, '/', ':', i) {
            None => {},
            Some(st) => {
                lemma_find_pair(s, ':', '/', st + 2);
                lemma_find_char(s, '\n', st + 2);
                let kept = s.subrange(i, st);
                match find_pair(s, ':', '/', st + 2) {
                    Some(re) => {
                        let com = s.subrange(st, re + 2);
                        lemma_strip_profile(s, re + 2);
                        lemma_ascii_sub(s, st, re + 2);
                        lemma_blank_profile(com);
                        lemma_profile_concat(kept, blank(com));
                        lemma_profile_concat(kept + blank(com), strip_from(s, re + 2));
                        lemma_profile_concat(kept, com);
                        if re + 2 < s.len() {
                            lemma_profile_concat(kept + com, s.subrange(re + 2, s.len() as int));
                            assert(kept + com + s.subrange(re + 2, s.len() as int) =~= s.subrange(i, s.len() as int));
                        } else {
                            assert(kept + com =~= s.subrange(i, s.len() as int));
                            assert(profile(kept + com) + Seq::<int>::empty() =~= profile(kept + com));
                        }
                    },
                    None => match find_char(s, '\n', st + 2) {
                        Some(nl) => {
                            let com = s.subrange(st, nl);
                            let rest = s.subrange(nl, s.len() as int);
                            lemma_strip_profile(s, nl + 1);
                            lemma_ascii_sub(s, st, nl);
                            lemma_blank_profile(com);
                            lemma_profile_concat(kept, blank(com));
                            lemma_profile_concat(kept + blank(com), seq!['\n']);
                            lemma_profile_concat(kept + blank(com) + seq!['\n'], strip_from(s, nl + 1));
                            lemma_profile_concat(kept, com);
                            lemma_profile_concat(kept + com, rest);
                            assert(kept + com + rest =~= s.subrange(i, s.len() as int));
                            lemma_profile_concat(seq!['\n'], s.subrange(nl + 1, s.len() as int));
                            assert(seq!['\n'] + s.subrange(nl + 1, s.len() as int) =~= rest);
                            if nl + 1 >= s.len() {
                                assert(s.subrange(nl + 1, s.len() as int) =~= Seq::<char>::empty());
                                assert(profile(Seq::<char>::empty()) =~= Seq::<int>::empty());
                            }
                        },
                        None => {
                            let com = s.subrange(st, s.len() as int);
                            lemma_ascii_sub(s, st, s.len() as int);
                            lemma_blank_profile(com);
                            lemma_profile_concat(kept, blank(com));
                            lemma_profile_concat(kept, com);
                            assert(kept + com =~= s.subrange(i, s.len() as int));
                        },
                    },
                }
            },
        }
    }
}

/// Blanking out the comments of an ASCII text keeps its shape: the same
/// length, newlines where they were, and ASCII characters only.
pub proof fn law_comments_keep_shape(src: Seq<char>)
    requires
        is_ascii_text(src),
    ensures
        profile(strip_comments(src)) == profile(src),
{
    lemma_strip_profile(src, 0);
    if src.len() > 0 {
        assert(src.subrange(0, src.len() as int) =~= src);
    } else {
        assert(profile(src) =~= Seq::<int>::empty());
    }
}

proof fn lemma_profile_ascii(p: Seq<char>, s: Seq<char>)
    requires
        is_ascii_text(s),
        profile(p) == profile(s),
    ensures
        is_ascii_text(p),
        p.len() == s.len(),
        forall|k: int| 0 <= k < p.len() ==> (#[trigger] p[k] == '\n') == (s[k] == '\n'),
{
    assert(profile(p).len() == p.len());
    assert forall|k: int| 0 <= k < p.len() implies (#[trigger] p[k] as u32) < 0x80 by {
        assert(profile(p)[k] == char_class(p[k]));
        assert(profile(s)[k] == char_class(s[k]));
        assert((s[k] as u32) < 0x80);
        assert(('\n' as u32) == 10);
    }
    assert forall|k: int| 0 <= k < p.len() implies (#[trigger] p[k] == '\n') == (s[k] == '\n') by {
        assert(profile(p)[k] == char_class(p[k]));
        assert(profile(s)[k] == char_class(s[k]));
    }
}

proof fn lemma_lines_agree(p: Seq<char>, s: Seq<char>, k: int)
    requires
        p.len() == s.len(),
        0 <= k <= p.len(),
        forall|j: int| 0 <= j < p.len() ==> (#[trigger] p[j] == '\n') == (s[j] == '\n'),
    ensures
        newlines_in(p.take(k)) == newlines_in(s.take(k)),
        line_start_in(p.take(k)) == line_start_in(s.take(k)),
    decreases k,
{
    if k > 0 {
        lemma_lines_agree(p, s, k - 1);
        assert(p.take(k).drop_last() =~= p.take(k - 1));
        assert(s.take(k).drop_last() =~= s.take(k - 1));
        assert(p.take(k).last() == p[k - 1]);
        assert(s.take(k).last() == s[k - 1]);
    }
}

proof fn lemma_ascii_bytes(s: Seq<char>)
    requires
        is_ascii_text(s),
    ensures
        bytes_len(s) == s.len(),
    decreases s.len(),
{
    if s.len() > 0 {
        lemma_ascii_sub(s, 0, s.len() - 1);
        assert(s.drop_last() =~= s.subrange(0, s.len() - 1));
        lemma_ascii_bytes(s.drop_last());
        assert((s.last() as u32) < 0x80);
    }
}

// ─── LINE AND COLUMN ─────────────────────────────────────────────

proof fn lemma_line_start_bound(s: Seq<char>)
    ensures
        0 <= line_start_in(s) <= s.len(),
        newlines_in(s) <= s.len(),
    decreases s.len(),
{
    if s.len() > 0 {
        lemma_line_start_bound(s.drop_last());
    }
}

proof fn lemma_line_col_from(src: Seq<char>, pos: int, i: int)
    requires
        is_ascii_text(src),
        0 <= i <= pos <= src.len(),
    ensures
        source_line_col_from(
            src,
            pos,
            i,
            i,
            1 + newlines_in(src.take(i)) as int,
            i - line_start_in(src.take(i)) + 1,
        ) == (1 + newlines_in(src.take(pos)) as int, pos - line_start_in(src.take(pos)) + 1),
    decreases pos - i,
{
    if i < pos {
        assert(src.take(i + 1).drop_last() =~= src.take(i));
        assert(src.take(i + 1).last() == src[i]);
        assert((src[i] as u32) < 0x80);
        assert(char_width(src[i]) == 1);
        lemma_line_col_from(src, pos, i + 1);
    }
}

/// In an ASCII text, `line_col`'s line is one more than the newlines
/// before the offset, and its column one more than the characters since
/// the last of them.
pub proof fn lemma_line_col_closed(src: Seq<char>, pos: int)
    requires
        is_ascii_text(src),
        0 <= pos <= src.len(),
    ensures
        source_line_col(src, pos) == (1 + newlines_in(src.take(pos)) as int, pos - line_start_in(src.take(pos)) + 1),
{
    assert(src.take(0) =~= Seq::<char>::empty());
    lemma_line_col_from(src, pos, 0);
}

// ─── SCANNING ────────────────────────────────────────────────────

/// No string or f-string token holds a newline.
pub open spec fn plain_strings(ts: Seq<SpecSpannedToken>) -> bool {
    forall|k: int|
        0 <= k < ts.len() ==> match #[trigger] ts[k].token {
            SpecToken::StringLit(t) => !t.contains('\n'),
            SpecToken::FString(t) => !t.contains('\n'),
            _ => true,
        }
}

/// The token's line is one more than the newlines of `p` before its start,
/// and its column one more than the characters since the last of them.
pub open spec fn placed_at(p: Seq<char>, t: SpecSpannedToken) -> bool {
    &&& t.span.start <= p.len()
    &&& t.line == 1 + newlines_in(p.take(t.span.start as int))
    &&& t.column == t.span.start - line_start_in(p.take(t.span.start as int)) + 1
}

proof fn lemma_no_newline_run(p: Seq<char>, i: int, n: int)
    requires
        0 <= i <= i + n <= p.len(),
        forall|k: int| i <= k < i + n ==> #[trigger] p[k] != '\n',
    ensures
        newlines_in(p.take(i + n)) == newlines_in(p.take(i)),
        line_start_in(p.take(i + n)) == line_start_in(p.take(i)),
    decreases n,
{
    if n > 0 {
        lemma_no_newline_run(p, i, n - 1);
        assert(p.take(i + n).drop_last() =~= p.take(i + n - 1));
        assert(p.take(i + n).last() == p[i + n - 1]);
    }
}

proof fn lemma_keyword_shape(w: Seq<char>)
    ensures
        keyword_of(w) matches Some(k) ==> !(k is Newline) && !(k is StringLit) && !(k is FString),
{
}

/// The characters of a lexeme hold no newline, unless it is a newline
/// token or a string whose text holds one.
proof fn lemma_lexeme_newlines(p: Seq<char>, i: int)
    requires
        0 <= i < p.len(),
    ensures
        lexeme_at(p, i) matches Lexeme::Tok(t, n) ==> {
            ||| t is Newline && n == 1 && p[i] == '\n'
            ||| t matches SpecToken::StringLit(s) && s.contains('\n')
            ||| t matches SpecToken::FString(s) && s.contains('\n')
            ||| !(t is Newline) && forall|k: int| i <= k < i + n ==> #[trigger] p[k] != '\n'
        },
{
    lemma_lexeme_len(p, i);
    let c = p[i];
    if let Lexeme::Tok(t, n) = lexeme_at(p, i) {
        if is_digit(c) {
            lemma_digit_run(p, i);
            let e = i + digit_run(p, i);
            lemma_digit_run(p, e + 1);
            let frac: int = if e < p.len() && p[e] == '.' && digit_run(p, e + 1) > 0 {
                digit_run(p, e + 1) + 1int
            } else {
                0
            };
            let m = e + frac;
            let sign: int = if m + 1 < p.len() && (p[m + 1] == '+' || p[m + 1] == '-') {
                1
            } else {
                0
            };
            lemma_digit_run(p, m + 1 + sign);
            assert forall|k: int| i <= k < i + n implies #[trigger] p[k] != '\n' by {
                if k < e {
                } else if k == e {
                } else if k < m {
                } else if k == m {
                } else if k == m + 1 && sign == 1 {
                } else {
                }
            }
        } else if c == '"' {
            let j = find_char(p, '"', i + 1)->0;
            lemma_find_char(p, '"', i + 1);
            let s = p.subrange(i + 1, j);
            if !s.contains('\n') {
                assert forall|k: int| i <= k < i + n implies #[trigger] p[k] != '\n' by {
                    if i < k < j {
                        assert(s[k - i - 1] == p[k]);
                    }
                }
            }
        } else if c == 'f' && i + 1 < p.len() && p[i + 1] == '"' && find_char(p, '"', i + 2) is Some {
            let j = find_char(p, '"', i + 2)->0;
            lemma_find_char(p, '"', i + 2);
            let s = p.subrange(i + 2, j);
            if !s.contains('\n') {
                assert forall|k: int| i <= k < i + n implies #[trigger] p[k] != '\n' by {
                    if i + 1 < k < j {
                        assert(s[k - i - 2] == p[k]);
                    }
                }
            }
        } else if is_ident_start(c) {
            lemma_ident_run(p, i);
            let word = p.subrange(i, i + ident_run(p, i));
            lemma_keyword_shape(word);
        } else {
        }
    }
}

pub open spec fn scan_ok(p: Seq<char>, st: ScanState, i: int) -> bool {
    (st.errs.len() == 0 && plain_strings(st.toks)) ==> {
        &&& st.line == 1 + newlines_in(p.take(i))
        &&& st.line_start == line_start_in(p.take(i))
        &&& forall|k: int| 0 <= k < st.toks.len() ==> placed_at(p, #[trigger] st.toks[k])
    }
}

proof fn lemma_error_state(st: ScanState, err: LexError) -> (bad: ScanState)
    ensures
        bad == (ScanState { errs: st.errs.push(err), ..st }),
        bad.errs.len() == st.errs.len() + 1,
        bad.toks == st.toks,
{
    ScanState { errs: st.errs.push(err), ..st }
}

proof fn lemma_scan_errs_stay(p: Seq<char>, i: int, byte: int, st: ScanState)
    ensures
        scan(p, i, byte, st).errs.len() >= st.errs.len(),
        plain_strings(scan(p, i, byte, st).toks) ==> plain_strings(st.toks),
    decreases p.len() - i,
{
    if 0 <= i < p.len() {
        if p[i] == ' ' || p[i] == '\t' || p[i] == '\r' {
            lemma_scan_errs_stay(p, i + 1, byte + 1, st);
            assert(scan(p, i, byte, st) == scan(p, i + 1, byte + 1, st));
        } else {
            lemma_lexeme_len(p, i);
            let column = byte - st.line_start + 1;
            let n = lexeme_len(lexeme_at(p, i)) as int;
            let w = bytes_len(p.subrange(i, i + n)) as int;
            match lexeme_at(p, i) {
                Lexeme::Tok(t, _) => {
                    let tok = SpecSpannedToken {
                        token: t,
                        span: Span { start: byte as usize, end: (byte + w) as usize },
                        line: st.line as usize,
                        column: column as usize,
                    };
                    let toks2 = st.toks.push(tok);
                    let st2 = if t is Newline {
                        ScanState { toks: toks2, errs: st.errs, line: st.line + 1, line_start: byte + w }
                    } else {
                        ScanState { toks: toks2, ..st }
                    };
                    lemma_scan_errs_stay(p, i + n, byte + w, st2);
                    assert(scan(p, i, byte, st) == scan(p, i + n, byte + w, st2));
                    assert(st2.errs == st.errs);
                    assert(scan(p, i, byte, st).errs.len() >= st.errs.len());
                    if plain_strings(scan(p, i + n, byte + w, st2).toks) {
                        assert forall|k: int| 0 <= k < st.toks.len() implies match #[trigger] st.toks[k].token {
                            SpecToken::StringLit(t) => !t.contains('\n'),
                            SpecToken::FString(t) => !t.contains('\n'),
                            _ => true,
                        } by {
                            assert(toks2[k] == st.toks[k]);
                        }
                    }
                },
                Lexeme::Bad(_) => {
                    let err = LexError::UnexpectedCharacter {
                        character: p[i],
                        line: st.line as usize,
                        column: column as usize,
                    };
                    let bad = lemma_error_state(st, err);
                    lemma_scan_errs_stay(p, i + n, byte + w, bad);
                    assert(scan(p, i, byte, st) == scan(p, i + n, byte + w, bad));
                },
            }
        }
    }
}

proof fn lemma_scan_lines(p: Seq<char>, i: int, st: ScanState)
    requires
        is_ascii_text(p),
        p.len() < usize::MAX,
        0 <= i <= p.len(),
        1 <= st.line <= i + 1,
        scan_ok(p, st, i),
    ensures
        scan_ok(p, scan(p, i, i, st), p.len() as int),
    decreases p.len() - i,
{
    if i == p.len() {
        assert(p.take(i) =~= p);
    } else if p[i] == ' ' || p[i] == '\t' || p[i] == '\r' {
        lemma_no_newline_run(p, i, 1);
        lemma_scan_lines(p, i + 1, st);
        assert(scan(p, i, i, st) == scan(p, i + 1, i + 1, st));
    } else {
        lemma_lexeme_len(p, i);
        lemma_lexeme_newlines(p, i);
        lemma_line_start_bound(p.take(i));
        let column = i - st.line_start + 1;
        let n = lexeme_len(lexeme_at(p, i)) as int;
        lemma_ascii_sub(p, i, i + n);
        lemma_ascii_bytes(p.subrange(i, i + n));
        let w = bytes_len(p.subrange(i, i + n)) as int;
        assert(w == n);
        match lexeme_at(p, i) {
            Lexeme::Tok(t, _) => {
                let tok = SpecSpannedToken {
                    token: t,
                    span: Span { start: i as usize, end: (i + w) as usize },
                    line: st.line as usize,
                    column: column as usize,
                };
                let toks2 = st.toks.push(tok);
                let st2 = if t is Newline {
                    ScanState { toks: toks2, errs: st.errs, line: st.line + 1, line_start: i + w }
                } else {
                    ScanState { toks: toks2, ..st }
                };
                if t is Newline {
                    assert(p.take(i + 1).drop_last() =~= p.take(i));
                    assert(p.take(i + 1).last() == p[i]);
                } else {
                    if !(t matches SpecToken::StringLit(s) && s.contains('\n')) && !(t matches SpecToken::FString(s)
                        && s.contains('\n')) {
                        lemma_no_newline_run(p, i, n);
                    }
                }
                assert(scan_ok(p, st2, i + n)) by {
                    if st2.errs.len() == 0 && plain_strings(st2.toks) {
                        assert(plain_strings(st.toks)) by {
                            assert forall|k: int| 0 <= k < st.toks.len() implies match #[trigger] st.toks[k].token {
                                SpecToken::StringLit(t) => !t.contains('\n'),
                                SpecToken::FString(t) => !t.contains('\n'),
                                _ => true,
                            } by {
                                assert(toks2[k] == st.toks[k]);
                            }
                        }
                        assert(toks2[toks2.len() - 1] == tok);
                        assert(match toks2[toks2.len() - 1].token {
                            SpecToken::StringLit(t) => !t.contains('\n'),
                            SpecToken::FString(t) => !t.contains('\n'),
                            _ => true,
                        });
                        assert(placed_at(p, tok));
                        assert forall|k: int| 0 <= k < toks2.len() implies placed_at(p, #[trigger] toks2[k]) by {
                            if k < st.toks.len() {
                                assert(toks2[k] == st.toks[k]);
                            }
                        }
                    }
                }
                lemma_scan_lines(p, i + n, st2);
                assert(scan(p, i, i, st) == scan(p, i + n, i + n, st2));
            },
            Lexeme::Bad(_) => {
                let e = LexError::UnexpectedCharacter {
                    character: p[i],
                    line: st.line as usize,
                    column: column as usize,
                };
                let bad = lemma_error_state(st, e);
                lemma_scan_errs_stay(p, i + n, i + w, bad);
                assert(scan(p, i, i, st) == scan(p, i + n, i + w, bad));
            },
        }
    }
}

/// In a successful lexing of an ASCII text whose strings hold no newline,
/// each token's line is one more than the newlines before it, and its
/// column one more than the characters since the last of them; so the
/// lexer places every token where `line_col` places its offset.
pub proof fn law_token_positions(src: Seq<char>, ts: Seq<SpecSpannedToken>)
    requires
        is_ascii_text(src),
        src.len() < usize::MAX,
        lex_text(src) == Ok::<Seq<SpecSpannedToken>, Seq<LexError>>(ts),
        plain_strings(ts),
    ensures
        forall|k: int|
            0 <= k < ts.len() ==> {
                &&& #[trigger] ts[k].span.start <= src.len()
                &&& ts[k].line == 1 + newlines_in(src.take(ts[k].span.start as int))
                &&& ts[k].column == ts[k].span.start - line_start_in(src.take(ts[k].span.start as int)) + 1
                &&& source_line_col(src, ts[k].span.start as int) == (ts[k].line as int, ts[k].column as int)
            },
{
    let p = strip_comments(src);
    law_comments_keep_shape(src);
    lemma_profile_ascii(p, src);
    let init = ScanState { toks: Seq::empty(), errs: Seq::empty(), line: 1, line_start: 0 };
    assert(p.take(0) =~= Seq::<char>::empty());
    lemma_scan_lines(p, 0, init);
    let end = scan(p, 0, 0, init);
    lemma_scan_errs_stay(p, 0, 0, init);
    lemma_ascii_bytes(src);
    let m = end.toks.len() as int;
    assert(end.errs.len() == 0);
    assert(ts.drop_last() =~= end.toks);
    assert(plain_strings(end.toks)) by {
        assert forall|k: int| 0 <= k < end.toks.len() implies match #[trigger] end.toks[k].token {
            SpecToken::StringLit(t) => !t.contains('\n'),
            SpecToken::FString(t) => !t.contains('\n'),
            _ => true,
        } by {
            assert(ts[k] == end.toks[k]);
        }
    }
    assert(p.take(p.len() as int) =~= p);
    assert(src.take(src.len() as int) =~= src);
    lemma_lines_agree(p, src, p.len() as int);
    lemma_line_start_bound(p);
    assert(ts[m].span.start == src.len());
    assert(ts[m].line == 1 + newlines_in(src));
    assert(ts[m].column == src.len() - line_start_in(src) + 1);
    assert forall|k: int| 0 <= k < ts.len() implies {
        &&& #[trigger] ts[k].span.start <= src.len()
        &&& ts[k].line == 1 + newlines_in(src.take(ts[k].span.start as int))
        &&& ts[k].column == ts[k].span.start - line_start_in(src.take(ts[k].span.start as int)) + 1
        &&& source_line_col(src, ts[k].span.start as int) == (ts[k].line as int, ts[k].column as int)
    } by {
        if k < m {
            assert(ts[k] == end.toks[k]);
            assert(placed_at(p, end.toks[k]));
        }
        lemma_lines_agree(p, src, ts[k].span.start as int);
        lemma_line_col_closed(src, ts[k].span.start as int);
    }
}

} // verus!
