//! Lexing: comments are blanked out, then the text is cut into tokens, each
//! time taking the longest token that matches.
use vstd::prelude::*;
use crate::ast::Span;
use crate::token::{Token, SpecToken, SpannedToken, SpecSpannedToken, LexError, keyword_of, keyword_token, tokens_view};
use crate::text::{chars_of, string_from_chars};
use crate::semantics::{char_width, is_digit, digits_value, lemma_digits_value_mono};

verus! {

// ─── COMMENTS ────────────────────────────────────────────────────

/// The first position `j >= i` where `a` is directly followed by `b`.
pub open spec fn find_pair(s: Seq<char>, a: char, b: char, i: int) -> Option<int>
    decreases s.len() - i,
{
    if i < 0 || i + 1 >= s.len() {
        None
    } else if s[i] == a && s[i + 1] == b {
        Some(i)
    } else {
        find_pair(s, a, b, i + 1)
    }
}

/// The first position `j >= i` that holds `c`.
pub open spec fn find_char(s: Seq<char>, c: char, i: int) -> Option<int>
    decreases s.len() - i,
{
    if i < 0 || i >= s.len() {
        None
    } else if s[i] == c {
        Some(i)
    } else {
        find_char(s, c, i + 1)
    }
}

pub proof fn lemma_find_pair(s: Seq<char>, a: char, b: char, i: int)
    requires
        i >= 0,
    ensures
        find_pair(s, a, b, i) matches Some(j) ==> i <= j && j + 1 < s.len() && s[j] == a && s[j + 1] == b,
    decreases s.len() - i,
{
    if i + 1 < s.len() && !(s[i] == a && s[i + 1] == b) {
        lemma_find_pair(s, a, b, i + 1);
    }
}

pub proof fn lemma_find_char(s: Seq<char>, c: char, i: int)
    requires
        i >= 0,
    ensures
        find_char(s, c, i) matches Some(j) ==> i <= j < s.len() && s[j] == c,
    decreases s.len() - i,
{
    if i < s.len() && s[i] != c {
        lemma_find_char(s, c, i + 1);
    }
}

/// `n` spaces.
pub open spec fn spaces(n: nat) -> Seq<char> {
    Seq::new(n, |k: int| ' ')
}

/// What a character of a comment becomes: a newline stays, anything else
/// becomes one space per byte of its UTF-8 encoding.
pub open spec fn blanked(c: char) -> Seq<char> {
    if c == '\n' {
        seq!['\n']
    } else {
        spaces(char_width(c))
    }
}

/// A comment blanked out.
pub open spec fn blank(s: Seq<char>) -> Seq<char>
    decreases s.len(),
{
    if s.len() == 0 {
        Seq::empty()
    } else {
        blank(s.drop_last()) + blanked(s.last())
    }
}

/// The text from `i` on with its comments blanked out, `i` being where the
/// search for the next `/:` starts.  A comment runs from `/:` to the next
/// `:/` anywhere after it; without one, to the end of its line; on the last
/// line, to the end of the text.
pub open spec fn strip_from(s: Seq<char>, i: int) -> Seq<char>
    decreases s.len() - i,
{
    if i < 0 || i >= s.len() {
        Seq::empty()
    } else {
        proof {
            lemma_find_pair(s, '/', ':', i);
        }
        match find_pair(s, '/', ':', i) {
            None => s.subrange(i, s.len() as int),
            Some(st) => {
                proof {
                    lemma_find_pair(s, ':', '/', st + 2);
                    lemma_find_char(s, '\n', st + 2);
                }
                match find_pair(s, ':', '/', st + 2) {
                    Some(re) => s.subrange(i, st) + blank(s.subrange(st, re + 2)) + strip_from(s, re + 2),
                    None => match find_char(s, '\n', st + 2) {
                        Some(nl) => s.subrange(i, st) + blank(s.subrange(st, nl)) + seq!['\n'] + strip_from(
                            s,
                            nl + 1,
                        ),
                        None => s.subrange(i, st) + blank(s.subrange(st, s.len() as int)),
                    },
                }
            },
        }
    }
}

/// The text with its comments blanked out.
pub open spec fn strip_comments(s: Seq<char>) -> Seq<char> {
    strip_from(s, 0)
}

fn find_pair_at(s: &Vec<char>, a: char, b: char, i: usize) -> (r: Option<usize>)
    ensures
        match r {
            Some(j) => find_pair(s@, a, b, i as int) == Some(j as int),
            None => find_pair(s@, a, b, i as int) == None::<int>,
        },
{
    let mut k = i;
    while k < s.len() && k + 1 < s.len()
        invariant
            i <= k,
            find_pair(s@, a, b, i as int) == find_pair(s@, a, b, k as int),
        decreases s@.len() - k,
    {
        if s[k] == a && s[k + 1] == b {
            return Some(k);
        }
        k = k + 1;
    }
    None
}

pub(crate) fn find_char_at(s: &Vec<char>, c: char, i: usize) -> (r: Option<usize>)
    ensures
        match r {
            Some(j) => find_char(s@, c, i as int) == Some(j as int),
            None => find_char(s@, c, i as int) == None::<int>,
        },
{
    let mut k = i;
    while k < s.len()
        invariant
            i <= k,
            find_char(s@, c, i as int) == find_char(s@, c, k as int),
        decreases s@.len() - k,
    {
        if s[k] == c {
            return Some(k);
        }
        k = k + 1;
    }
    None
}

/// Appends `s[from..to]` blanked out.
fn push_blank(out: &mut Vec<char>, s: &Vec<char>, from: usize, to: usize)
    requires
        from <= to <= s@.len(),
    ensures
        final(out)@ == old(out)@ + blank(s@.subrange(from as int, to as int)),
{
    let mut k = from;
    assert(blank(s@.subrange(from as int, from as int)) =~= Seq::<char>::empty());
    assert(out@ =~= old(out)@ + blank(s@.subrange(from as int, from as int)));
    while k < to
        invariant
            from <= k <= to <= s@.len(),
            out@ == old(out)@ + blank(s@.subrange(from as int, k as int)),
        decreases to - k,
    {
        let ghost before = out@;
        let c = s[k];
        if c == '\n' {
            out.push('\n');
        } else {
            let u = c as u32;
            out.push(' ');
            if u >= 0x80 {
                out.push(' ');
            }
            if u >= 0x800 {
                out.push(' ');
            }
            if u >= 0x10000 {
                out.push(' ');
            }
        }
        assert(out@ =~= before + blanked(c));
        assert(s@.subrange(from as int, k + 1).drop_last() =~= s@.subrange(from as int, k as int));
        k = k + 1;
    }
}

/// Appends `s[from..to]`.
fn push_range(out: &mut Vec<char>, s: &Vec<char>, from: usize, to: usize)
    requires
        from <= to <= s@.len(),
    ensures
        final(out)@ == old(out)@ + s@.subrange(from as int, to as int),
{
    let mut k = from;
    while k < to
        invariant
            from <= k <= to <= s@.len(),
            out@ == old(out)@ + s@.subrange(from as int, k as int),
        decreases to - k,
    {
        out.push(s[k]);
        assert(s@.subrange(from as int, k + 1) =~= s@.subrange(from as int, k as int).push(s@[k as int]));
        k = k + 1;
    }
}

/// The text with its comments blanked out (see `strip_comments`).
pub fn blank_comments(s: &Vec<char>) -> (out: Vec<char>)
    ensures
        out@ == strip_comments(s@),
{
    let mut out: Vec<char> = Vec::new();
    let mut i: usize = 0;
    while i < s.len()
        invariant
            i <= s@.len(),
            strip_comments(s@) == out@ + strip_from(s@, i as int),
        decreases s@.len() - i,
    {
        let ghost before = out@;
        match find_pair_at(s, '/', ':', i) {
            None => {
                push_range(&mut out, s, i, s.len());
                return out;
            },
            Some(st) => {
                proof {
                    lemma_find_pair(s@, '/', ':', i as int);
                }
                push_range(&mut out, s, i, st);
                match find_pair_at(s, ':', '/', st + 2) {
                    Some(re) => {
                        proof {
                            lemma_find_pair(s@, ':', '/', st + 2);
                        }
                        push_blank(&mut out, s, st, re + 2);
                        assert(out@ + strip_from(s@, re + 2) =~= before + strip_from(s@, i as int));
                        i = re + 2;
                    },
                    None => match find_char_at(s, '\n', st + 2) {
                        Some(nl) => {
                            proof {
                                lemma_find_char(s@, '\n', st + 2);
                            }
                            push_blank(&mut out, s, st, nl);
                            out.push('\n');
                            assert(out@ + strip_from(s@, nl + 1) =~= before + strip_from(s@, i as int));
                            i = nl + 1;
                        },
                        None => {
                            push_blank(&mut out, s, st, s.len());
                            assert(out@ =~= before + strip_from(s@, i as int));
                            return out;
                        },
                    },
                }
            },
        }
    }
    assert(out@ =~= out@ + strip_from(s@, i as int));
    out
}

// ─── LEXEMES ─────────────────────────────────────────────────────

pub open spec fn is_ident_start(c: char) -> bool {
    ('a' <= c && c <= 'z') || ('A' <= c && c <= 'Z') || c == '_'
}

pub open spec fn is_ident_char(c: char) -> bool {
    is_ident_start(c) || is_digit(c)
}

/// Number of identifier characters from `i` on.
pub open spec fn ident_run(p: Seq<char>, i: int) -> nat
    decreases p.len() - i,
{
    if 0 <= i < p.len() && is_ident_char(p[i]) {
        1 + ident_run(p, i + 1)
    } else {
        0
    }
}

/// Number of decimal digits from `i` on.
pub open spec fn digit_run(p: Seq<char>, i: int) -> nat
    decreases p.len() - i,
{
    if 0 <= i < p.len() && is_digit(p[i]) {
        1 + digit_run(p, i + 1)
    } else {
        0
    }
}

pub proof fn lemma_ident_run(p: Seq<char>, i: int)
    requires
        0 <= i,
    ensures
        i + ident_run(p, i) <= p.len() || ident_run(p, i) == 0,
        forall|k: int| i <= k < i + ident_run(p, i) ==> is_ident_char(#[trigger] p[k]),
    decreases p.len() - i,
{
    if 0 <= i < p.len() && is_ident_char(p[i]) {
        lemma_ident_run(p, i + 1);
    }
}

pub proof fn lemma_digit_run(p: Seq<char>, i: int)
    requires
        0 <= i,
    ensures
        i + digit_run(p, i) <= p.len() || digit_run(p, i) == 0,
        forall|k: int| i <= k < i + digit_run(p, i) ==> is_digit(#[trigger] p[k]),
    decreases p.len() - i,
{
    if 0 <= i < p.len() && is_digit(p[i]) {
        lemma_digit_run(p, i + 1);
    }
}

/// What the text at a position starts with: a token of `n` characters, or
/// an error covering `n` characters.
pub enum Lexeme {
    Tok(SpecToken, nat),
    Bad(nat),
}

/// The numeric literal at `i` (a digit): scientific `D[.D](e|E)[+|-]D`,
/// else float `D.D`, else integer `D` (an error when it does not fit in
/// `i64`), `D` being one or more digits.
pub open spec fn number_lexeme(p: Seq<char>, i: int) -> Lexeme {
    let e = i + digit_run(p, i);
    let frac: int = if e < p.len() && p[e] == '.' && digit_run(p, e + 1) > 0 {
        digit_run(p, e + 1) + 1int
    } else {
        0
    };
    let m = e + frac;
    let sign: int = if m + 1 < p.len() && (p[m + 1] == '+' || p[m + 1] == '-') {
        1
    } else {
        0
    };
    let exp: int = if m < p.len() && (p[m] == 'e' || p[m] == 'E') && digit_run(p, m + 1 + sign) > 0 {
        1 + sign + digit_run(p, m + 1 + sign)
    } else {
        0
    };
    if exp > 0 {
        Lexeme::Tok(SpecToken::Scientific(p.subrange(i, m + exp)), (m + exp - i) as nat)
    } else if frac > 0 {
        Lexeme::Tok(SpecToken::Float(p.subrange(i, m)), (m - i) as nat)
    } else if digits_value(p.subrange(i, e)) <= i64::MAX {
        Lexeme::Tok(SpecToken::Integer(digits_value(p.subrange(i, e)) as i64), (e - i) as nat)
    } else {
        Lexeme::Bad((e - i) as nat)
    }
}

/// The operator, delimiter or newline at `i`; two-character operators are
/// preferred.
pub open spec fn punct_lexeme(p: Seq<char>, i: int) -> Lexeme {
    let c = p[i];
    let next: Option<char> = if i + 1 < p.len() {
        Some(p[i + 1])
    } else {
        None
    };
    if c == '=' && next == Some('=') {
        Lexeme::Tok(SpecToken::EqEq, 2)
    } else if c == '!' && next == Some('=') {
        Lexeme::Tok(SpecToken::NotEq, 2)
    } else if c == '<' && next == Some('=') {
        Lexeme::Tok(SpecToken::LtEq, 2)
    } else if c == '>' && next == Some('=') {
        Lexeme::Tok(SpecToken::GtEq, 2)
    } else if c == '-' && next == Some('>') {
        Lexeme::Tok(SpecToken::Arrow, 2)
    } else {
        match single_char_token(c) {
            Some(t) => Lexeme::Tok(t, 1),
            None => Lexeme::Bad(1),
        }
    }
}

/// The one-character token `c`, if there is one.
pub open spec fn single_char_token(c: char) -> Option<SpecToken> {
    if c == '<' {
        Some(SpecToken::Lt)
    } else if c == '>' {
        Some(SpecToken::Gt)
    } else if c == '=' {
        Some(SpecToken::Eq)
    } else if c == '+' {
        Some(SpecToken::Plus)
    } else if c == '-' {
        Some(SpecToken::Minus)
    } else if c == '*' {
        Some(SpecToken::Star)
    } else if c == '/' {
        Some(SpecToken::Slash)
    } else if c == '%' {
        Some(SpecToken::Percent)
    } else if c == '{' {
        Some(SpecToken::LBrace)
    } else if c == '}' {
        Some(SpecToken::RBrace)
    } else if c == '(' {
        Some(SpecToken::LParen)
    } else if c == ')' {
        Some(SpecToken::RParen)
    } else if c == '[' {
        Some(SpecToken::LBracket)
    } else if c == ']' {
        Some(SpecToken::RBracket)
    } else if c == ',' {
        Some(SpecToken::Comma)
    } else if c == '.' {
        Some(SpecToken::Dot)
    } else if c == ':' {
        Some(SpecToken::Colon)
    } else if c == '\n' {
        Some(SpecToken::Newline)
    } else {
        None
    }
}

/// The longest token at `i` (not a blank).  A string without its closing
/// quote is an error that runs to the end of the text; `f` followed by such
/// a string is the identifier `f`.
pub open spec fn lexeme_at(p: Seq<char>, i: int) -> Lexeme {
    let c = p[i];
    if is_digit(c) {
        number_lexeme(p, i)
    } else if c == '"' {
        match find_char(p, '"', i + 1) {
            Some(j) => Lexeme::Tok(SpecToken::StringLit(p.subrange(i + 1, j)), (j - i + 1) as nat),
            None => Lexeme::Bad((p.len() - i) as nat),
        }
    } else if c == 'f' && i + 1 < p.len() && p[i + 1] == '"' && find_char(p, '"', i + 2) is Some {
        let j = find_char(p, '"', i + 2)->0;
        Lexeme::Tok(SpecToken::FString(p.subrange(i + 2, j)), (j - i + 1) as nat)
    } else if is_ident_start(c) {
        let word = p.subrange(i, i + ident_run(p, i));
        match keyword_of(word) {
            Some(k) => Lexeme::Tok(k, ident_run(p, i)),
            None => Lexeme::Tok(SpecToken::Identifier(word), ident_run(p, i)),
        }
    } else {
        punct_lexeme(p, i)
    }
}

pub open spec fn lexeme_len(l: Lexeme) -> nat {
    match l {
        Lexeme::Tok(_, n) => n,
        Lexeme::Bad(n) => n,
    }
}

/// Every lexeme has at least one character and ends within the text.
pub proof fn lemma_lexeme_len(p: Seq<char>, i: int)
    requires
        0 <= i < p.len(),
    ensures
        1 <= lexeme_len(lexeme_at(p, i)),
        i + lexeme_len(lexeme_at(p, i)) <= p.len(),
{
    lemma_digit_run(p, i);
    lemma_ident_run(p, i);
    lemma_find_char(p, '"', i + 1);
    lemma_find_char(p, '"', i + 2);
    let e = i + digit_run(p, i);
    if e >= 0 {
        lemma_digit_run(p, e + 1);
        let frac: int = if e < p.len() && p[e] == '.' && digit_run(p, e + 1) > 0 {
            digit_run(p, e + 1) + 1int
        } else {
            0
        };
        let m = e + frac;
        lemma_digit_run(p, m + 1);
        lemma_digit_run(p, m + 2);
    }
}

// ─── SCANNING ────────────────────────────────────────────────────

/// Number of bytes of the UTF-8 encoding of `s`.
pub open spec fn bytes_len(s: Seq<char>) -> nat
    decreases s.len(),
{
    if s.len() == 0 {
        0
    } else {
        bytes_len(s.drop_last()) + char_width(s.last())
    }
}

pub proof fn lemma_bytes_len_bound(s: Seq<char>)
    ensures
        s.len() <= bytes_len(s) <= 4 * s.len(),
    decreases s.len(),
{
    if s.len() > 0 {
        lemma_bytes_len_bound(s.drop_last());
    }
}

/// The lexing of `src`, as the parser's specification sees it: the same
/// as `lex_text` (see `lemma_lexed`), with the definition kept out of
/// sight so that the parser's proofs do not carry the lexer's.
pub closed spec fn lexed(src: Seq<char>) -> Result<Seq<SpecSpannedToken>, Seq<LexError>> {
    lex_text(src)
}

pub proof fn lemma_lexed(src: Seq<char>)
    ensures
        lexed(src) == lex_text(src),
{
}

/// A text lexes to no more tokens than it has bytes, plus end-of-file,
/// counting each f-string token with its weight.
pub proof fn lemma_lexed_weight(src: Seq<char>)
    ensures
        lexed(src) matches Ok(ts) ==> ts.len() + tokens_weight(ts) <= bytes_len(src) + 1,
{
    crate::laws::lemma_lex_weight(src);
}

/// A token's weight in the parser's termination measure: an f-string
/// counts the bytes of its text plus two, other tokens nothing.
pub open spec fn token_weight(t: SpecToken) -> nat {
    match t {
        SpecToken::FString(raw) => bytes_len(raw) + 2,
        _ => 0,
    }
}

/// The total weight of the tokens of `ts`.
pub open spec fn tokens_weight(ts: Seq<SpecSpannedToken>) -> nat
    decreases ts.len(),
{
    if ts.len() == 0 {
        0
    } else {
        tokens_weight(ts.drop_last()) + token_weight(ts.last().token)
    }
}

/// Where scanning stands: tokens and errors so far, the current line, and
/// the byte offset at which it starts.
pub struct ScanState {
    pub toks: Seq<SpecSpannedToken>,
    pub errs: Seq<LexError>,
    pub line: int,
    pub line_start: int,
}

/// Scans `p` from character `i`, at byte offset `byte`.  Spaces, tabs and
/// carriage returns are skipped; each lexeme gives a token, or an
/// unexpected-character error at its first character; a newline token
/// starts a new line.
pub open spec fn scan(p: Seq<char>, i: int, byte: int, st: ScanState) -> ScanState
    decreases p.len() - i,
{
    if i < 0 || i >= p.len() {
        st
    } else if p[i] == ' ' || p[i] == '\t' || p[i] == '\r' {
        scan(p, i + 1, byte + 1, st)
    } else {
        proof {
            lemma_lexeme_len(p, i);
        }
        let column = byte - st.line_start + 1;
        let n = lexeme_len(lexeme_at(p, i)) as int;
        let w = bytes_len(p.subrange(i, i + n)) as int;
        match lexeme_at(p, i) {
            Lexeme::Tok(t, _) => {
                let tok = SpecSpannedToken {
                    token: t,
                    span: Span { start: byte as usize, end: (byte + w) as usize },
                    line: st.line as usize,
                    column: column as usize,
                };
                if t is Newline {
                    scan(
                        p,
                        i + n,
                        byte + w,
                        ScanState { toks: st.toks.push(tok), errs: st.errs, line: st.line + 1, line_start: byte + w },
                    )
                } else {
                    scan(p, i + n, byte + w, ScanState { toks: st.toks.push(tok), ..st })
                }
            },
            Lexeme::Bad(_) => {
                let e = LexError::UnexpectedCharacter {
                    character: p[i],
                    line: st.line as usize,
                    column: column as usize,
                };
                scan(p, i + n, byte + w, ScanState { errs: st.errs.push(e), ..st })
            },
        }
    }
}

/// The result of lexing `src`: every token followed by an end-of-file token
/// at the end of the text, or every error when there is one.
pub open spec fn lex_text(src: Seq<char>) -> Result<Seq<SpecSpannedToken>, Seq<LexError>> {
    let end = scan(
        strip_comments(src),
        0,
        0,
        ScanState { toks: Seq::empty(), errs: Seq::empty(), line: 1, line_start: 0 },
    );
    let total = bytes_len(src) as int;
    let eof = SpecSpannedToken {
        token: SpecToken::Eof,
        span: Span { start: total as usize, end: total as usize },
        line: end.line as usize,
        column: (if total >= end.line_start {
            total - end.line_start + 1
        } else {
            1
        }) as usize,
    };
    if end.errs.len() == 0 {
        Ok(end.toks.push(eof))
    } else {
        Err(end.errs)
    }
}


// ─── EXECUTABLE LEXER ────────────────────────────────────────────

/// A lexeme found in the text: a token and its length in characters, or
/// the length of an erroneous stretch.
enum Found {
    Tok(Token, usize),
    Bad(usize),
}

spec fn found_view(f: Found) -> Lexeme {
    match f {
        Found::Tok(t, n) => Lexeme::Tok(t@, n as nat),
        Found::Bad(n) => Lexeme::Bad(n as nat),
    }
}

fn digit_char(c: char) -> (r: bool)
    ensures
        r == is_digit(c),
{
    '0' <= c && c <= '9'
}

fn ident_start_char(c: char) -> (r: bool)
    ensures
        r == is_ident_start(c),
{
    ('a' <= c && c <= 'z') || ('A' <= c && c <= 'Z') || c == '_'
}

fn ident_char(c: char) -> (r: bool)
    ensures
        r == is_ident_char(c),
{
    ident_start_char(c) || digit_char(c)
}

fn ident_run_at(p: &Vec<char>, i: usize) -> (n: usize)
    requires
        i <= p@.len(),
    ensures
        n == ident_run(p@, i as int),
        i + n <= p@.len(),
{
    let mut k = i;
    while k < p.len() && ident_char(p[k])
        invariant
            i <= k <= p@.len(),
            ident_run(p@, i as int) == (k - i) + ident_run(p@, k as int),
        decreases p@.len() - k,
    {
        k = k + 1;
    }
    k - i
}

fn digit_run_at(p: &Vec<char>, i: usize) -> (n: usize)
    requires
        i <= p@.len(),
    ensures
        n == digit_run(p@, i as int),
        i + n <= p@.len(),
{
    let mut k = i;
    while k < p.len() && digit_char(p[k])
        invariant
            i <= k <= p@.len(),
            digit_run(p@, i as int) == (k - i) + digit_run(p@, k as int),
        decreases p@.len() - k,
    {
        k = k + 1;
    }
    k - i
}

/// The value of the digits `p[i..e]` when it fits in `i64`.
fn digits_i64(p: &Vec<char>, i: usize, e: usize) -> (r: Option<i64>)
    requires
        i <= e <= p@.len(),
        forall|k: int| i <= k < e ==> is_digit(#[trigger] p@[k]),
    ensures
        match r {
            Some(v) => digits_value(p@.subrange(i as int, e as int)) <= i64::MAX && v == digits_value(
                p@.subrange(i as int, e as int),
            ),
            None => digits_value(p@.subrange(i as int, e as int)) > i64::MAX,
        },
{
    let ghost ds = p@.subrange(i as int, e as int);
    let mut v: u128 = 0;
    let mut k = i;
    assert(ds.take(0) =~= Seq::<char>::empty());
    while k < e
        invariant
            i <= k <= e <= p@.len(),
            ds == p@.subrange(i as int, e as int),
            forall|j: int| i <= j < e ==> is_digit(#[trigger] p@[j]),
            v as nat == digits_value(ds.take(k - i)),
            v <= i64::MAX,
        decreases e - k,
    {
        assert(ds[k - i] == p@[k as int]);
        assert(ds.take(k - i + 1).drop_last() =~= ds.take(k - i));
        assert(is_digit(p@[k as int]));
        let dv = (p[k] as u32 - '0' as u32) as u128;
        v = v * 10 + dv;
        if v > i64::MAX as u128 {
            proof {
                assert forall|j: int| 0 <= j < ds.len() implies is_digit(#[trigger] ds[j]) by {
                    assert(ds[j] == p@[i + j]);
                }
                lemma_digits_value_mono(ds, k - i + 1);
            }
            return None;
        }
        k = k + 1;
    }
    assert(ds.take(e - i) =~= ds);
    Some(v as i64)
}

/// The numeric literal at `i`.
fn number_at(p: &Vec<char>, i: usize) -> (r: Found)
    requires
        i < p@.len(),
        is_digit(p@[i as int]),
    ensures
        found_view(r) == number_lexeme(p@, i as int),
{
    let len = p.len();
    assert(len == p@.len());
    let ghost ps = p@;
    let d1 = digit_run_at(p, i);
    let e = i + d1;
    let mut frac: usize = 0;
    if e < p.len() && p[e] == '.' {
        let d2 = digit_run_at(p, e + 1);
        if d2 > 0 {
            frac = d2 + 1;
        }
    }
    let m = e + frac;
    let mut sign: usize = 0;
    if m < p.len() && m + 1 < p.len() && (p[m + 1] == '+' || p[m + 1] == '-') {
        sign = 1;
    }
    let mut exp: usize = 0;
    if m < p.len() && (p[m] == 'e' || p[m] == 'E') && m + 1 + sign <= p.len() {
        let d3 = digit_run_at(p, m + 1 + sign);
        if d3 > 0 {
            exp = 1 + sign + d3;
        }
    }
    proof {
        if m < ps.len() && (ps[m as int] == 'e' || ps[m as int] == 'E') && m + 1 + sign > ps.len() {
            assert(digit_run(ps, m + 1 + sign) == 0);
        }
    }
    if exp > 0 {
        Found::Tok(Token::Scientific(string_from_chars(p, i, m + exp)), m + exp - i)
    } else if frac > 0 {
        Found::Tok(Token::Float(string_from_chars(p, i, m)), m - i)
    } else {
        proof {
            lemma_digit_run(ps, i as int);
        }
        match digits_i64(p, i, e) {
            Some(v) => Found::Tok(Token::Integer(v), e - i),
            None => Found::Bad(e - i),
        }
    }
}

/// The one-character token `c`, if there is one.
fn single_char(c: char) -> (r: Option<Token>)
    ensures
        match r {
            Some(t) => single_char_token(c) == Some(t@),
            None => single_char_token(c) == None::<SpecToken>,
        },
{
    if c == '<' {
        Some(Token::Lt)
    } else if c == '>' {
        Some(Token::Gt)
    } else if c == '=' {
        Some(Token::Eq)
    } else if c == '+' {
        Some(Token::Plus)
    } else if c == '-' {
        Some(Token::Minus)
    } else if c == '*' {
        Some(Token::Star)
    } else if c == '/' {
        Some(Token::Slash)
    } else if c == '%' {
        Some(Token::Percent)
    } else if c == '{' {
        Some(Token::LBrace)
    } else if c == '}' {
        Some(Token::RBrace)
    } else if c == '(' {
        Some(Token::LParen)
    } else if c == ')' {
        Some(Token::RParen)
    } else if c == '[' {
        Some(Token::LBracket)
    } else if c == ']' {
        Some(Token::RBracket)
    } else if c == ',' {
        Some(Token::Comma)
    } else if c == '.' {
        Some(Token::Dot)
    } else if c == ':' {
        Some(Token::Colon)
    } else if c == '\n' {
        Some(Token::Newline)
    } else {
        None
    }
}

fn punct_at(p: &Vec<char>, i: usize) -> (r: Found)
    requires
        i < p@.len(),
    ensures
        found_view(r) == punct_lexeme(p@, i as int),
{
    let len = p.len();
    assert(len == p@.len());
    let c = p[i];
    let has_next = i + 1 < p.len();
    let n = if has_next {
        p[i + 1]
    } else {
        ' '
    };
    if c == '=' && has_next && n == '=' {
        Found::Tok(Token::EqEq, 2)
    } else if c == '!' && has_next && n == '=' {
        Found::Tok(Token::NotEq, 2)
    } else if c == '<' && has_next && n == '=' {
        Found::Tok(Token::LtEq, 2)
    } else if c == '>' && has_next && n == '=' {
        Found::Tok(Token::GtEq, 2)
    } else if c == '-' && has_next && n == '>' {
        Found::Tok(Token::Arrow, 2)
    } else {
        match single_char(c) {
            Some(t) => Found::Tok(t, 1),
            None => Found::Bad(1),
        }
    }
}

/// The lexeme at `i` (not a blank).
fn lexeme_found(p: &Vec<char>, i: usize) -> (r: Found)
    requires
        i < p@.len(),
    ensures
        found_view(r) == lexeme_at(p@, i as int),
{
    let len = p.len();
    assert(len == p@.len());
    let c = p[i];
    if digit_char(c) {
        number_at(p, i)
    } else if c == '"' {
        match find_char_at(p, '"', i + 1) {
            Some(j) => {
                proof {
                    lemma_find_char(p@, '"', i + 1);
                }
                Found::Tok(Token::StringLit(string_from_chars(p, i + 1, j)), j - i + 1)
            },
            None => Found::Bad(p.len() - i),
        }
    } else if c == 'f' && i + 1 < p.len() && p[i + 1] == '"' && find_char_at(p, '"', i + 2).is_some() {
        let j = find_char_at(p, '"', i + 2).unwrap();
        proof {
            lemma_find_char(p@, '"', i + 2);
        }
        Found::Tok(Token::FString(string_from_chars(p, i + 2, j)), j - i + 1)
    } else if ident_start_char(c) {
        let n = ident_run_at(p, i);
        let word = string_from_chars(p, i, i + n);
        match keyword_token(&word) {
            Some(k) => Found::Tok(k, n),
            None => Found::Tok(Token::Identifier(word), n),
        }
    } else {
        punct_at(p, i)
    }
}

/// Number of bytes of the UTF-8 encoding of `p[i..j]`.
pub(crate) fn bytes_between(p: &Vec<char>, i: usize, j: usize) -> (r: u128)
    requires
        i <= j <= p@.len(),
    ensures
        r == bytes_len(p@.subrange(i as int, j as int)),
        r <= 4 * (j - i),
{
    let mut acc: u128 = 0;
    let mut k = i;
    assert(p@.subrange(i as int, i as int) =~= Seq::<char>::empty());
    while k < j
        invariant
            i <= k <= j <= p@.len(),
            acc == bytes_len(p@.subrange(i as int, k as int)),
            acc <= 4 * (k - i),
        decreases j - k,
    {
        assert(p@.subrange(i as int, k + 1).drop_last() =~= p@.subrange(i as int, k as int));
        let c = p[k];
        let u = c as u32;
        let w: u128 = if u < 0x80 {
            1
        } else if u < 0x800 {
            2
        } else if u < 0x10000 {
            3
        } else {
            4
        };
        acc = acc + w;
        k = k + 1;
    }
    acc
}

/// Cuts `source` into tokens (see `lex_text`): the tokens followed by an
/// end-of-file token, or every unexpected character when there is one.
pub fn lex(source: &str) -> (r: Result<Vec<SpannedToken>, Vec<LexError>>)
    ensures
        match (r, lex_text(source@)) {
            (Ok(ts), Ok(vs)) => tokens_view(ts@) == vs,
            (Err(es), Err(ws)) => es@ == ws,
            _ => false,
        },
{
    let src = chars_of(source);
    let p = blank_comments(&src);
    let ghost init = ScanState { toks: Seq::empty(), errs: Seq::empty(), line: 1, line_start: 0 };
    let ghost goal = scan(p@, 0, 0, init);
    let mut toks: Vec<SpannedToken> = Vec::new();
    let mut errs: Vec<LexError> = Vec::new();
    let mut i: usize = 0;
    let mut byte: u128 = 0;
    let mut line: u128 = 1;
    let mut line_start: u128 = 0;
    assert(tokens_view(toks@) =~= Seq::<SpecSpannedToken>::empty());
    while i < p.len()
        invariant
            i <= p@.len(),
            byte <= 4 * i,
            1 <= line <= i + 1,
            line_start <= byte,
            goal == scan(p@, 0, 0, init),
            goal == scan(
                p@,
                i as int,
                byte as int,
                ScanState { toks: tokens_view(toks@), errs: errs@, line: line as int, line_start: line_start as int },
            ),
        decreases p@.len() - i,
    {
        let c = p[i];
        if c == ' ' || c == '\t' || c == '\r' {
            i = i + 1;
            byte = byte + 1;
        } else {
            proof {
                lemma_lexeme_len(p@, i as int);
            }
            let column = byte - line_start + 1;
            let found = lexeme_found(&p, i);
            match found {
                Found::Tok(t, n) => {
                    let w = bytes_between(&p, i, i + n);
                    let is_newline = match t {
                        Token::Newline => true,
                        _ => false,
                    };
                    let tok = SpannedToken {
                        token: t,
                        span: Span { start: byte as usize, end: (byte + w) as usize },
                        line: line as usize,
                        column: column as usize,
                    };
                    let ghost tv = tok@;
                    let ghost before = tokens_view(toks@);
                    toks.push(tok);
                    assert(tokens_view(toks@) =~= before.push(tv));
                    if is_newline {
                        line = line + 1;
                        line_start = byte + w;
                    }
                    i = i + n;
                    byte = byte + w;
                },
                Found::Bad(n) => {
                    let w = bytes_between(&p, i, i + n);
                    errs.push(LexError::UnexpectedCharacter { character: c, line: line as usize, column: column as usize });
                    i = i + n;
                    byte = byte + w;
                },
            }
        }
    }
    let total = bytes_between(&src, 0, src.len());
    assert(src@.subrange(0, src@.len() as int) =~= src@);
    let eof_column: u128 = if total >= line_start {
        total - line_start + 1
    } else {
        1
    };
    if errs.len() == 0 {
        let eof = SpannedToken {
            token: Token::Eof,
            span: Span { start: total as usize, end: total as usize },
            line: line as usize,
            column: eof_column as usize,
        };
        let ghost ev = eof@;
        let ghost before = tokens_view(toks@);
        toks.push(eof);
        assert(tokens_view(toks@) =~= before.push(ev));
        Ok(toks)
    } else {
        Err(errs)
    }
}

} // verus!
