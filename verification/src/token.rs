//! Tokens of the GCRL language, with their source positions, and the
//! errors of lexing.
use vstd::prelude::*;
use crate::text::{push_str, push_i64, push_usize, push_char, string_of, int_decimal};

pub use crate::ast::Span;

verus! {

/// A token.  Numeric literals with a fraction or an exponent keep their
/// source text.
#[derive(Debug, Clone, PartialEq)]
pub enum Token {
    // keywords
    Agent,
    On,
    Fn,
    Let,
    Return,
    If,
    Else,
    While,
    For,
    In,
    Use,
    Do,
    Send,
    And,
    Or,
    Not,
    True,
    False,
    Null,
    Channel,
    Priority,
    Concurrent,
    // built-in events
    Start,
    Stop,
    OnError,
    EventPolicy,
    AiPolicy,
    // priority levels
    PriorityCritical,
    PriorityHigh,
    PriorityNormal,
    PriorityLow,
    // operators
    EqEq,
    NotEq,
    LtEq,
    GtEq,
    Arrow,
    Lt,
    Gt,
    Eq,
    Plus,
    Minus,
    Star,
    Slash,
    Percent,
    // delimiters
    LBrace,
    RBrace,
    LParen,
    RParen,
    LBracket,
    RBracket,
    Comma,
    Dot,
    Colon,
    Newline,
    // literals
    Scientific(String),
    Float(String),
    Integer(i64),
    StringLit(String),
    /// The raw text between the quotes of `f"..."`.
    FString(String),
    Identifier(String),
    Eof,
}

pub enum SpecToken {
    Agent,
    On,
    Fn,
    Let,
    Return,
    If,
    Else,
    While,
    For,
    In,
    Use,
    Do,
    Send,
    And,
    Or,
    Not,
    True,
    False,
    Null,
    Channel,
    Priority,
    Concurrent,
    Start,
    Stop,
    OnError,
    EventPolicy,
    AiPolicy,
    PriorityCritical,
    PriorityHigh,
    PriorityNormal,
    PriorityLow,
    EqEq,
    NotEq,
    LtEq,
    GtEq,
    Arrow,
    Lt,
    Gt,
    Eq,
    Plus,
    Minus,
    Star,
    Slash,
    Percent,
    LBrace,
    RBrace,
    LParen,
    RParen,
    LBracket,
    RBracket,
    Comma,
    Dot,
    Colon,
    Newline,
    Scientific(Seq<char>),
    Float(Seq<char>),
    Integer(i64),
    StringLit(Seq<char>),
    FString(Seq<char>),
    Identifier(Seq<char>),
    Eof,
}

impl View for Token {
    type V = SpecToken;

    open spec fn view(&self) -> SpecToken {
        match self {
            Token::Agent => SpecToken::Agent,
            Token::On => SpecToken::On,
            Token::Fn => SpecToken::Fn,
            Token::Let => SpecToken::Let,
            Token::Return => SpecToken::Return,
            Token::If => SpecToken::If,
            Token::Else => SpecToken::Else,
            Token::While => SpecToken::While,
            Token::For => SpecToken::For,
            Token::In => SpecToken::In,
            Token::Use => SpecToken::Use,
            Token::Do => SpecToken::Do,
            Token::Send => SpecToken::Send,
            Token::And => SpecToken::And,
            Token::Or => SpecToken::Or,
            Token::Not => SpecToken::Not,
            Token::True => SpecToken::True,
            Token::False => SpecToken::False,
            Token::Null => SpecToken::Null,
            Token::Channel => SpecToken::Channel,
            Token::Priority => SpecToken::Priority,
            Token::Concurrent => SpecToken::Concurrent,
            Token::Start => SpecToken::Start,
            Token::Stop => SpecToken::Stop,
            Token::OnError => SpecToken::OnError,
            Token::EventPolicy => SpecToken::EventPolicy,
            Token::AiPolicy => SpecToken::AiPolicy,
            Token::PriorityCritical => SpecToken::PriorityCritical,
            Token::PriorityHigh => SpecToken::PriorityHigh,
            Token::PriorityNormal => SpecToken::PriorityNormal,
            Token::PriorityLow => SpecToken::PriorityLow,
            Token::EqEq => SpecToken::EqEq,
            Token::NotEq => SpecToken::NotEq,
            Token::LtEq => SpecToken::LtEq,
            Token::GtEq => SpecToken::GtEq,
            Token::Arrow => SpecToken::Arrow,
            Token::Lt => SpecToken::Lt,
            Token::Gt => SpecToken::Gt,
            Token::Eq => SpecToken::Eq,
            Token::Plus => SpecToken::Plus,
            Token::Minus => SpecToken::Minus,
            Token::Star => SpecToken::Star,
            Token::Slash => SpecToken::Slash,
            Token::Percent => SpecToken::Percent,
            Token::LBrace => SpecToken::LBrace,
            Token::RBrace => SpecToken::RBrace,
            Token::LParen => SpecToken::LParen,
            Token::RParen => SpecToken::RParen,
            Token::LBracket => SpecToken::LBracket,
            Token::RBracket => SpecToken::RBracket,
            Token::Comma => SpecToken::Comma,
            Token::Dot => SpecToken::Dot,
            Token::Colon => SpecToken::Colon,
            Token::Newline => SpecToken::Newline,
            Token::Scientific(s) => SpecToken::Scientific(s@),
            Token::Float(s) => SpecToken::Float(s@),
            Token::StringLit(s) => SpecToken::StringLit(s@),
            Token::FString(s) => SpecToken::FString(s@),
            Token::Identifier(s) => SpecToken::Identifier(s@),
            Token::Integer(n) => SpecToken::Integer(*n),
            Token::Eof => SpecToken::Eof,
        }
    }
}

/// The keyword spelled `w`, if it is one.
pub open spec fn keyword_of(w: Seq<char>) -> Option<SpecToken> {
    if w == "agent"@ {
        Some(SpecToken::Agent)
    } else if w == "on"@ {
        Some(SpecToken::On)
    } else if w == "fn"@ {
        Some(SpecToken::Fn)
    } else if w == "let"@ {
        Some(SpecToken::Let)
    } else if w == "return"@ {
        Some(SpecToken::Return)
    } else if w == "if"@ {
        Some(SpecToken::If)
    } else if w == "else"@ {
        Some(SpecToken::Else)
    } else if w == "while"@ {
        Some(SpecToken::While)
    } else if w == "for"@ {
        Some(SpecToken::For)
    } else if w == "in"@ {
        Some(SpecToken::In)
    } else if w == "use"@ {
        Some(SpecToken::Use)
    } else if w == "do"@ {
        Some(SpecToken::Do)
    } else if w == "send"@ {
        Some(SpecToken::Send)
    } else if w == "and"@ {
        Some(SpecToken::And)
    } else if w == "or"@ {
        Some(SpecToken::Or)
    } else if w == "not"@ {
        Some(SpecToken::Not)
    } else if w == "true"@ {
        Some(SpecToken::True)
    } else if w == "false"@ {
        Some(SpecToken::False)
    } else if w == "null"@ {
        Some(SpecToken::Null)
    } else if w == "channel"@ {
        Some(SpecToken::Channel)
    } else if w == "priority"@ {
        Some(SpecToken::Priority)
    } else if w == "concurrent"@ {
        Some(SpecToken::Concurrent)
    } else if w == "start"@ {
        Some(SpecToken::Start)
    } else if w == "stop"@ {
        Some(SpecToken::Stop)
    } else if w == "on_error"@ {
        Some(SpecToken::OnError)
    } else if w == "event_policy"@ {
        Some(SpecToken::EventPolicy)
    } else if w == "ai_policy"@ {
        Some(SpecToken::AiPolicy)
    } else if w == "critical"@ {
        Some(SpecToken::PriorityCritical)
    } else if w == "high"@ {
        Some(SpecToken::PriorityHigh)
    } else if w == "normal"@ {
        Some(SpecToken::PriorityNormal)
    } else if w == "low"@ {
        Some(SpecToken::PriorityLow)
    } else {
        None
    }
}

/// The keyword spelled `w`, if it is one.
pub fn keyword_token(w: &String) -> (r: Option<Token>)
    ensures
        match r {
            Some(t) => keyword_of(w@) == Some(t@),
            None => keyword_of(w@) == None::<SpecToken>,
        },
{
    if *w == string_of("agent") {
        Some(Token::Agent)
    } else if *w == string_of("on") {
        Some(Token::On)
    } else if *w == string_of("fn") {
        Some(Token::Fn)
    } else if *w == string_of("let") {
        Some(Token::Let)
    } else if *w == string_of("return") {
        Some(Token::Return)
    } else if *w == string_of("if") {
        Some(Token::If)
    } else if *w == string_of("else") {
        Some(Token::Else)
    } else if *w == string_of("while") {
        Some(Token::While)
    } else if *w == string_of("for") {
        Some(Token::For)
    } else if *w == string_of("in") {
        Some(Token::In)
    } else if *w == string_of("use") {
        Some(Token::Use)
    } else if *w == string_of("do") {
        Some(Token::Do)
    } else if *w == string_of("send") {
        Some(Token::Send)
    } else if *w == string_of("and") {
        Some(Token::And)
    } else if *w == string_of("or") {
        Some(Token::Or)
    } else if *w == string_of("not") {
        Some(Token::Not)
    } else if *w == string_of("true") {
        Some(Token::True)
    } else if *w == string_of("false") {
        Some(Token::False)
    } else if *w == string_of("null") {
        Some(Token::Null)
    } else if *w == string_of("channel") {
        Some(Token::Channel)
    } else if *w == string_of("priority") {
        Some(Token::Priority)
    } else if *w == string_of("concurrent") {
        Some(Token::Concurrent)
    } else if *w == string_of("start") {
        Some(Token::Start)
    } else if *w == string_of("stop") {
        Some(Token::Stop)
    } else if *w == string_of("on_error") {
        Some(Token::OnError)
    } else if *w == string_of("event_policy") {
        Some(Token::EventPolicy)
    } else if *w == string_of("ai_policy") {
        Some(Token::AiPolicy)
    } else if *w == string_of("critical") {
        Some(Token::PriorityCritical)
    } else if *w == string_of("high") {
        Some(Token::PriorityHigh)
    } else if *w == string_of("normal") {
        Some(Token::PriorityNormal)
    } else if *w == string_of("low") {
        Some(Token::PriorityLow)
    } else {
        None
    }
}

/// Whether two tokens are the same token.
pub fn same_token(a: &Token, b: &Token) -> (r: bool)
    ensures
        r == (a@ == b@),
{
    match (a, b) {
        (Token::Agent, Token::Agent) => true,
        (Token::On, Token::On) => true,
        (Token::Fn, Token::Fn) => true,
        (Token::Let, Token::Let) => true,
        (Token::Return, Token::Return) => true,
        (Token::If, Token::If) => true,
        (Token::Else, Token::Else) => true,
        (Token::While, Token::While) => true,
        (Token::For, Token::For) => true,
        (Token::In, Token::In) => true,
        (Token::Use, Token::Use) => true,
        (Token::Do, Token::Do) => true,
        (Token::Send, Token::Send) => true,
        (Token::And, Token::And) => true,
        (Token::Or, Token::Or) => true,
        (Token::Not, Token::Not) => true,
        (Token::True, Token::True) => true,
        (Token::False, Token::False) => true,
        (Token::Null, Token::Null) => true,
        (Token::Channel, Token::Channel) => true,
        (Token::Priority, Token::Priority) => true,
        (Token::Concurrent, Token::Concurrent) => true,
        (Token::Start, Token::Start) => true,
        (Token::Stop, Token::Stop) => true,
        (Token::OnError, Token::OnError) => true,
        (Token::EventPolicy, Token::EventPolicy) => true,
        (Token::AiPolicy, Token::AiPolicy) => true,
        (Token::PriorityCritical, Token::PriorityCritical) => true,
        (Token::PriorityHigh, Token::PriorityHigh) => true,
        (Token::PriorityNormal, Token::PriorityNormal) => true,
        (Token::PriorityLow, Token::PriorityLow) => true,
        (Token::EqEq, Token::EqEq) => true,
        (Token::NotEq, Token::NotEq) => true,
        (Token::LtEq, Token::LtEq) => true,
        (Token::GtEq, Token::GtEq) => true,
        (Token::Arrow, Token::Arrow) => true,
        (Token::Lt, Token::Lt) => true,
        (Token::Gt, Token::Gt) => true,
        (Token::Eq, Token::Eq) => true,
        (Token::Plus, Token::Plus) => true,
        (Token::Minus, Token::Minus) => true,
        (Token::Star, Token::Star) => true,
        (Token::Slash, Token::Slash) => true,
        (Token::Percent, Token::Percent) => true,
        (Token::LBrace, Token::LBrace) => true,
        (Token::RBrace, Token::RBrace) => true,
        (Token::LParen, Token::LParen) => true,
        (Token::RParen, Token::RParen) => true,
        (Token::LBracket, Token::LBracket) => true,
        (Token::RBracket, Token::RBracket) => true,
        (Token::Comma, Token::Comma) => true,
        (Token::Dot, Token::Dot) => true,
        (Token::Colon, Token::Colon) => true,
        (Token::Newline, Token::Newline) => true,
        (Token::Scientific(x), Token::Scientific(y)) => *x == *y,
        (Token::Float(x), Token::Float(y)) => *x == *y,
        (Token::StringLit(x), Token::StringLit(y)) => *x == *y,
        (Token::FString(x), Token::FString(y)) => *x == *y,
        (Token::Identifier(x), Token::Identifier(y)) => *x == *y,
        (Token::Integer(x), Token::Integer(y)) => *x == *y,
        (Token::Eof, Token::Eof) => true,
        _ => false,
    }
}

/// The `Debug` rendering of a string: quoted, with escapes.
pub uninterp spec fn debug_str(s: Seq<char>) -> Seq<char>;

/// The quoted, escaped rendering of `s` that `format!("{:?}", s)` gives
/// (std's `Debug` for `str`): the result is named by `debug_str`.
#[verifier::external_body]
pub(crate) fn debug_quoted(s: &str) -> (r: String)
    ensures
        r@ == debug_str(s@),
{
    format!("{:?}", s)
}

/// How a token is written in error reports (its `Debug` form; a numeric
/// literal with a fraction or exponent is written with its source text).
pub open spec fn token_text(t: SpecToken) -> Seq<char> {
    match t {
        SpecToken::Agent => "Agent"@,
        SpecToken::On => "On"@,
        SpecToken::Fn => "Fn"@,
        SpecToken::Let => "Let"@,
        SpecToken::Return => "Return"@,
        SpecToken::If => "If"@,
        SpecToken::Else => "Else"@,
        SpecToken::While => "While"@,
        SpecToken::For => "For"@,
        SpecToken::In => "In"@,
        SpecToken::Use => "Use"@,
        SpecToken::Do => "Do"@,
        SpecToken::Send => "Send"@,
        SpecToken::And => "And"@,
        SpecToken::Or => "Or"@,
        SpecToken::Not => "Not"@,
        SpecToken::True => "True"@,
        SpecToken::False => "False"@,
        SpecToken::Null => "Null"@,
        SpecToken::Channel => "Channel"@,
        SpecToken::Priority => "Priority"@,
        SpecToken::Concurrent => "Concurrent"@,
        SpecToken::Start => "Start"@,
        SpecToken::Stop => "Stop"@,
        SpecToken::OnError => "OnError"@,
        SpecToken::EventPolicy => "EventPolicy"@,
        SpecToken::AiPolicy => "AiPolicy"@,
        SpecToken::PriorityCritical => "PriorityCritical"@,
        SpecToken::PriorityHigh => "PriorityHigh"@,
        SpecToken::PriorityNormal => "PriorityNormal"@,
        SpecToken::PriorityLow => "PriorityLow"@,
        SpecToken::EqEq => "EqEq"@,
        SpecToken::NotEq => "NotEq"@,
        SpecToken::LtEq => "LtEq"@,
        SpecToken::GtEq => "GtEq"@,
        SpecToken::Arrow => "Arrow"@,
        SpecToken::Lt => "Lt"@,
        SpecToken::Gt => "Gt"@,
        SpecToken::Eq => "Eq"@,
        SpecToken::Plus => "Plus"@,
        SpecToken::Minus => "Minus"@,
        SpecToken::Star => "Star"@,
        SpecToken::Slash => "Slash"@,
        SpecToken::Percent => "Percent"@,
        SpecToken::LBrace => "LBrace"@,
        SpecToken::RBrace => "RBrace"@,
        SpecToken::LParen => "LParen"@,
        SpecToken::RParen => "RParen"@,
        SpecToken::LBracket => "LBracket"@,
        SpecToken::RBracket => "RBracket"@,
        SpecToken::Comma => "Comma"@,
        SpecToken::Dot => "Dot"@,
        SpecToken::Colon => "Colon"@,
        SpecToken::Newline => "Newline"@,
        SpecToken::Scientific(s) => "Scientific("@ + s + ")"@,
        SpecToken::Float(s) => "Float("@ + s + ")"@,
        SpecToken::StringLit(s) => "StringLit("@ + debug_str(s) + ")"@,
        SpecToken::FString(s) => "FString("@ + debug_str(s) + ")"@,
        SpecToken::Identifier(s) => "Identifier("@ + debug_str(s) + ")"@,
        SpecToken::Integer(n) => "Integer("@ + int_decimal(n as int) + ")"@,
        SpecToken::Eof => "Eof"@,
    }
}

/// How a token is written in error reports.
pub fn token_debug(t: &Token) -> (r: String)
    ensures
        r@ == token_text(t@),
{
    match t {
        Token::Agent => string_of("Agent"),
        Token::On => string_of("On"),
        Token::Fn => string_of("Fn"),
        Token::Let => string_of("Let"),
        Token::Return => string_of("Return"),
        Token::If => string_of("If"),
        Token::Else => string_of("Else"),
        Token::While => string_of("While"),
        Token::For => string_of("For"),
        Token::In => string_of("In"),
        Token::Use => string_of("Use"),
        Token::Do => string_of("Do"),
        Token::Send => string_of("Send"),
        Token::And => string_of("And"),
        Token::Or => string_of("Or"),
        Token::Not => string_of("Not"),
        Token::True => string_of("True"),
        Token::False => string_of("False"),
        Token::Null => string_of("Null"),
        Token::Channel => string_of("Channel"),
        Token::Priority => string_of("Priority"),
        Token::Concurrent => string_of("Concurrent"),
        Token::Start => string_of("Start"),
        Token::Stop => string_of("Stop"),
        Token::OnError => string_of("OnError"),
        Token::EventPolicy => string_of("EventPolicy"),
        Token::AiPolicy => string_of("AiPolicy"),
        Token::PriorityCritical => string_of("PriorityCritical"),
        Token::PriorityHigh => string_of("PriorityHigh"),
        Token::PriorityNormal => string_of("PriorityNormal"),
        Token::PriorityLow => string_of("PriorityLow"),
        Token::EqEq => string_of("EqEq"),
        Token::NotEq => string_of("NotEq"),
        Token::LtEq => string_of("LtEq"),
        Token::GtEq => string_of("GtEq"),
        Token::Arrow => string_of("Arrow"),
        Token::Lt => string_of("Lt"),
        Token::Gt => string_of("Gt"),
        Token::Eq => string_of("Eq"),
        Token::Plus => string_of("Plus"),
        Token::Minus => string_of("Minus"),
        Token::Star => string_of("Star"),
        Token::Slash => string_of("Slash"),
        Token::Percent => string_of("Percent"),
        Token::LBrace => string_of("LBrace"),
        Token::RBrace => string_of("RBrace"),
        Token::LParen => string_of("LParen"),
        Token::RParen => string_of("RParen"),
        Token::LBracket => string_of("LBracket"),
        Token::RBracket => string_of("RBracket"),
        Token::Comma => string_of("Comma"),
        Token::Dot => string_of("Dot"),
        Token::Colon => string_of("Colon"),
        Token::Newline => string_of("Newline"),
        Token::Scientific(s) => {
            let mut r = string_of("Scientific(");
            push_str(&mut r, s.as_str());
            push_str(&mut r, ")");
            r
        },
        Token::Float(s) => {
            let mut r = string_of("Float(");
            push_str(&mut r, s.as_str());
            push_str(&mut r, ")");
            r
        },
        Token::StringLit(s) => {
            let mut r = string_of("StringLit(");
            let q = debug_quoted(s.as_str());
            push_str(&mut r, q.as_str());
            push_str(&mut r, ")");
            r
        },
        Token::FString(s) => {
            let mut r = string_of("FString(");
            let q = debug_quoted(s.as_str());
            push_str(&mut r, q.as_str());
            push_str(&mut r, ")");
            r
        },
        Token::Identifier(s) => {
            let mut r = string_of("Identifier(");
            let q = debug_quoted(s.as_str());
            push_str(&mut r, q.as_str());
            push_str(&mut r, ")");
            r
        },
        Token::Integer(n) => {
            let mut r = string_of("Integer(");
            push_i64(&mut r, *n);
            push_str(&mut r, ")");
            r
        },
        Token::Eof => string_of("Eof"),
    }
}

/// A token with its byte span and the line and column where it starts.
#[derive(Debug, Clone)]
pub struct SpannedToken {
    pub token: Token,
    pub span: Span,
    pub line: usize,
    pub column: usize,
}

pub struct SpecSpannedToken {
    pub token: SpecToken,
    pub span: Span,
    pub line: usize,
    pub column: usize,
}

impl View for SpannedToken {
    type V = SpecSpannedToken;

    open spec fn view(&self) -> SpecSpannedToken {
        SpecSpannedToken { token: self.token@, span: self.span, line: self.line, column: self.column }
    }
}

/// The models of a vector of spanned tokens, element by element.
pub open spec fn tokens_view(v: Seq<SpannedToken>) -> Seq<SpecSpannedToken> {
    Seq::new(v.len(), |i: int| v[i]@)
}

/// Errors of lexing.
#[derive(Debug, Clone, Copy, PartialEq, Eq, Structural)]
pub enum LexError {
    UnexpectedCharacter { character: char, line: usize, column: usize },
    UnterminatedString { line: usize, column: usize },
    UnterminatedComment { line: usize, column: usize },
}

/// The text of a lexing error, as it is reported to the user.
pub open spec fn lex_error_text(e: LexError) -> Seq<char> {
    match e {
        LexError::UnexpectedCharacter { character, line, column } => "Unexpected character '"@ + seq![character]
            + "' at line "@ + int_decimal(line as int) + ", column "@ + int_decimal(column as int),
        LexError::UnterminatedString { line, column } => "String not terminated at line "@ + int_decimal(line as int)
            + ", column "@ + int_decimal(column as int),
        LexError::UnterminatedComment { line, column } => "Comentario multilinha não terminado na linha "@
            + int_decimal(line as int) + ", coluna "@ + int_decimal(column as int),
    }
}

impl LexError {
    /// The report of this error.
    pub fn message(&self) -> (r: String)
        ensures
            r@ == lex_error_text(*self),
    {
        match self {
            LexError::UnexpectedCharacter { character, line, column } => {
                let mut s = string_of("Unexpected character '");
                push_char(&mut s, *character);
                push_str(&mut s, "' at line ");
                push_usize(&mut s, *line);
                push_str(&mut s, ", column ");
                push_usize(&mut s, *column);
                assert(s@ =~= lex_error_text(*self));
                s
            },
            LexError::UnterminatedString { line, column } => {
                let mut s = string_of("String not terminated at line ");
                push_usize(&mut s, *line);
                push_str(&mut s, ", column ");
                push_usize(&mut s, *column);
                assert(s@ =~= lex_error_text(*self));
                s
            },
            LexError::UnterminatedComment { line, column } => {
                let mut s = string_of("Comentario multilinha não terminado na linha ");
                push_usize(&mut s, *line);
                push_str(&mut s, ", coluna ");
                push_usize(&mut s, *column);
                assert(s@ =~= lex_error_text(*self));
                s
            },
        }
    }
}

} // verus!
