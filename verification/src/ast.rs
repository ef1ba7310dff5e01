//! Abstract syntax of GCRL programs, and its mathematical model.
//!
//! Every executable node type has a spec counterpart (`Spec...`) in which
//! strings are `Seq<char>` and vectors are `Seq`s; the view `@` maps one to
//! the other.  Contracts of the parser and of the interpreter speak of the
//! model.
use vstd::prelude::*;

verus! {

// ─── SPAN ────────────────────────────────────────────────────────

/// Byte range of a node in the source text.
#[derive(Debug, Clone, Copy, PartialEq, Default)]
pub struct Span {
    pub start: usize,
    pub end: usize,
}

// ─── TYPES ───────────────────────────────────────────────────────

#[derive(Debug, PartialEq)]
pub enum TypeExpr {
    Int,
    Float,
    String,
    Bool,
    Null,
    List(Box<TypeExpr>),
    Dict(Box<TypeExpr>, Box<TypeExpr>),
    Named(String),
    Optional(Box<TypeExpr>),
}

pub enum SpecTypeExpr {
    Int,
    Float,
    String,
    Bool,
    Null,
    List(Box<SpecTypeExpr>),
    Dict(Box<SpecTypeExpr>, Box<SpecTypeExpr>),
    Named(Seq<char>),
    Optional(Box<SpecTypeExpr>),
}

pub open spec fn type_view(t: TypeExpr) -> SpecTypeExpr
    decreases t,
{
    match t {
        TypeExpr::Int => SpecTypeExpr::Int,
        TypeExpr::Float => SpecTypeExpr::Float,
        TypeExpr::String => SpecTypeExpr::String,
        TypeExpr::Bool => SpecTypeExpr::Bool,
        TypeExpr::Null => SpecTypeExpr::Null,
        TypeExpr::List(a) => SpecTypeExpr::List(Box::new(type_view(*a))),
        TypeExpr::Dict(a, b) => SpecTypeExpr::Dict(Box::new(type_view(*a)), Box::new(type_view(*b))),
        TypeExpr::Named(n) => SpecTypeExpr::Named(n@),
        TypeExpr::Optional(a) => SpecTypeExpr::Optional(Box::new(type_view(*a))),
    }
}

impl View for TypeExpr {
    type V = SpecTypeExpr;

    open spec fn view(&self) -> SpecTypeExpr {
        type_view(*self)
    }
}

pub open spec fn opt_type_view(t: Option<TypeExpr>) -> Option<SpecTypeExpr> {
    match t {
        Some(t) => Some(type_view(t)),
        None => None,
    }
}

// ─── POLICIES ────────────────────────────────────────────────────

#[derive(Debug, Default)]
pub struct ErrorPolicy {
    pub strategy: Option<String>,
    pub max_retries: Option<u32>,
    pub backoff_ms: Option<u64>,
    pub on_exhaust: Option<String>,
}

#[derive(Debug, Default)]
pub struct EventPolicy {
    pub on_overflow: Option<String>,
    pub critical_queue: Option<usize>,
    pub normal_queue: Option<usize>,
    pub low_queue: Option<usize>,
}

#[derive(Debug, Default)]
pub struct AiPolicy {
    pub timeout_ms: Option<u64>,
    pub max_queue_during: Option<usize>,
    pub on_timeout: Option<String>,
    pub fallback_response: Option<String>,
    pub cache_identical: Option<bool>,
}

#[derive(Debug, Clone, Copy, PartialEq, Default)]
pub enum EventPriorityLevel {
    Critical,
    High,
    #[default]
    Normal,
    Low,
}

#[derive(Debug)]
pub struct ChannelDecl {
    pub name: String,
    pub chan_type: TypeExpr,
    pub span: Span,
}

pub open spec fn opt_str_view(s: Option<String>) -> Option<Seq<char>> {
    match s {
        Some(s) => Some(s@),
        None => None,
    }
}

pub struct SpecErrorPolicy {
    pub strategy: Option<Seq<char>>,
    pub max_retries: Option<u32>,
    pub backoff_ms: Option<u64>,
    pub on_exhaust: Option<Seq<char>>,
}

pub struct SpecEventPolicy {
    pub on_overflow: Option<Seq<char>>,
    pub critical_queue: Option<usize>,
    pub normal_queue: Option<usize>,
    pub low_queue: Option<usize>,
}

pub struct SpecAiPolicy {
    pub timeout_ms: Option<u64>,
    pub max_queue_during: Option<usize>,
    pub on_timeout: Option<Seq<char>>,
    pub fallback_response: Option<Seq<char>>,
    pub cache_identical: Option<bool>,
}

pub struct SpecChannelDecl {
    pub name: Seq<char>,
    pub chan_type: SpecTypeExpr,
    pub span: Span,
}

impl View for ErrorPolicy {
    type V = SpecErrorPolicy;

    open spec fn view(&self) -> SpecErrorPolicy {
        SpecErrorPolicy {
            strategy: opt_str_view(self.strategy),
            max_retries: self.max_retries,
            backoff_ms: self.backoff_ms,
            on_exhaust: opt_str_view(self.on_exhaust),
        }
    }
}

impl View for EventPolicy {
    type V = SpecEventPolicy;

    open spec fn view(&self) -> SpecEventPolicy {
        SpecEventPolicy {
            on_overflow: opt_str_view(self.on_overflow),
            critical_queue: self.critical_queue,
            normal_queue: self.normal_queue,
            low_queue: self.low_queue,
        }
    }
}

impl View for AiPolicy {
    type V = SpecAiPolicy;

    open spec fn view(&self) -> SpecAiPolicy {
        SpecAiPolicy {
            timeout_ms: self.timeout_ms,
            max_queue_during: self.max_queue_during,
            on_timeout: opt_str_view(self.on_timeout),
            fallback_response: opt_str_view(self.fallback_response),
            cache_identical: self.cache_identical,
        }
    }
}

impl View for ChannelDecl {
    type V = SpecChannelDecl;

    open spec fn view(&self) -> SpecChannelDecl {
        SpecChannelDecl { name: self.name@, chan_type: self.chan_type@, span: self.span }
    }
}

// ─── OPERATORS ───────────────────────────────────────────────────

#[derive(Debug, Clone, Copy, PartialEq, Eq, Structural)]
pub enum BinOp {
    Add,
    Sub,
    Mul,
    Div,
    Rem,
    Eq,
    NotEq,
    Lt,
    Gt,
    LtEq,
    GtEq,
    And,
    Or,
}

#[derive(Debug, Clone, Copy, PartialEq, Eq, Structural)]
pub enum UnaryOp {
    Neg,
    Not,
}

// ─── EXPRESSIONS ─────────────────────────────────────────────────

#[derive(Debug, PartialEq)]
pub enum Expr {
    Literal(Literal, Span),
    Identifier(String, Span),
    BinOp { op: BinOp, left: Box<Expr>, right: Box<Expr>, span: Span },
    UnaryOp { op: UnaryOp, operand: Box<Expr>, span: Span },
    Call { callee: Box<Expr>, args: Vec<Expr>, span: Span },
    FieldAccess { object: Box<Expr>, field: String, span: Span },
    Index { object: Box<Expr>, index: Box<Expr>, span: Span },
    List(Vec<Expr>, Span),
    Dict(Vec<(Expr, Expr)>, Span),
    FString(Vec<FStringSegment>, Span),
}

/// A piece of an f-string: literal text, or an expression with an optional
/// format spec.
#[derive(Debug, PartialEq)]
pub enum FStringSegment {
    Lit(String),
    Expr(Expr, Option<String>),
}

/// Literal values.  A floating-point literal keeps its source text; its
/// numeric value is computed where floating point is available.
#[derive(Debug, PartialEq)]
pub enum Literal {
    Int(i64),
    Float(String),
    Scientific(String),
    String(String),
    Bool(bool),
    Null,
    List(Vec<Expr>),
    Dict(Vec<(Expr, Expr)>),
}

pub enum SpecExpr {
    Literal(SpecLiteral, Span),
    Identifier(Seq<char>, Span),
    BinOp { op: BinOp, left: Box<SpecExpr>, right: Box<SpecExpr>, span: Span },
    UnaryOp { op: UnaryOp, operand: Box<SpecExpr>, span: Span },
    Call { callee: Box<SpecExpr>, args: Seq<SpecExpr>, span: Span },
    FieldAccess { object: Box<SpecExpr>, field: Seq<char>, span: Span },
    Index { object: Box<SpecExpr>, index: Box<SpecExpr>, span: Span },
    List(Seq<SpecExpr>, Span),
    Dict(Seq<(SpecExpr, SpecExpr)>, Span),
    FString(Seq<SpecFStringSegment>, Span),
}

pub enum SpecFStringSegment {
    Lit(Seq<char>),
    Expr(SpecExpr, Option<Seq<char>>),
}

pub enum SpecLiteral {
    Int(i64),
    Float(Seq<char>),
    Scientific(Seq<char>),
    String(Seq<char>),
    Bool(bool),
    Null,
    List(Seq<SpecExpr>),
    Dict(Seq<(SpecExpr, SpecExpr)>),
}

pub open spec fn expr_view(e: Expr) -> SpecExpr
    decreases e,
{
    match e {
        Expr::Literal(l, s) => SpecExpr::Literal(literal_view(l), s),
        Expr::Identifier(n, s) => SpecExpr::Identifier(n@, s),
        Expr::BinOp { op, left, right, span } => SpecExpr::BinOp {
            op,
            left: Box::new(expr_view(*left)),
            right: Box::new(expr_view(*right)),
            span,
        },
        Expr::UnaryOp { op, operand, span } => SpecExpr::UnaryOp {
            op,
            operand: Box::new(expr_view(*operand)),
            span,
        },
        Expr::Call { callee, args, span } => SpecExpr::Call {
            callee: Box::new(expr_view(*callee)),
            args: Seq::new(
                args@.len(),
                |i: int|
                    if 0 <= i < args@.len() {
                        expr_view(args@[i])
                    } else {
                        SpecExpr::Literal(SpecLiteral::Null, span)
                    },
            ),
            span,
        },
        Expr::FieldAccess { object, field, span } => SpecExpr::FieldAccess {
            object: Box::new(expr_view(*object)),
            field: field@,
            span,
        },
        Expr::Index { object, index, span } => SpecExpr::Index {
            object: Box::new(expr_view(*object)),
            index: Box::new(expr_view(*index)),
            span,
        },
        Expr::List(items, span) => SpecExpr::List(
            Seq::new(
                items@.len(),
                |i: int|
                    if 0 <= i < items@.len() {
                        expr_view(items@[i])
                    } else {
                        SpecExpr::Literal(SpecLiteral::Null, span)
                    },
            ),
            span,
        ),
        Expr::Dict(entries, span) => SpecExpr::Dict(
            Seq::new(
                entries@.len(),
                |i: int|
                    if 0 <= i < entries@.len() {
                        (expr_view(entries@[i].0), expr_view(entries@[i].1))
                    } else {
                        (SpecExpr::Literal(SpecLiteral::Null, span), SpecExpr::Literal(SpecLiteral::Null, span))
                    },
            ),
            span,
        ),
        Expr::FString(segs, span) => SpecExpr::FString(
            Seq::new(
                segs@.len(),
                |i: int|
                    if 0 <= i < segs@.len() {
                        match segs@[i] {
                            FStringSegment::Lit(t) => SpecFStringSegment::Lit(t@),
                            FStringSegment::Expr(x, f) => SpecFStringSegment::Expr(expr_view(x), opt_str_view(f)),
                        }
                    } else {
                        SpecFStringSegment::Lit(Seq::empty())
                    },
            ),
            span,
        ),
    }
}

pub open spec fn literal_view(l: Literal) -> SpecLiteral
    decreases l,
{
    match l {
        Literal::Int(i) => SpecLiteral::Int(i),
        Literal::Float(t) => SpecLiteral::Float(t@),
        Literal::Scientific(t) => SpecLiteral::Scientific(t@),
        Literal::String(t) => SpecLiteral::String(t@),
        Literal::Bool(b) => SpecLiteral::Bool(b),
        Literal::Null => SpecLiteral::Null,
        Literal::List(items) => SpecLiteral::List(
            Seq::new(
                items@.len(),
                |i: int|
                    if 0 <= i < items@.len() {
                        expr_view(items@[i])
                    } else {
                        SpecExpr::Literal(SpecLiteral::Null, Span { start: 0, end: 0 })
                    },
            ),
        ),
        Literal::Dict(entries) => SpecLiteral::Dict(
            Seq::new(
                entries@.len(),
                |i: int|
                    if 0 <= i < entries@.len() {
                        (expr_view(entries@[i].0), expr_view(entries@[i].1))
                    } else {
                        (
                            SpecExpr::Literal(SpecLiteral::Null, Span { start: 0, end: 0 }),
                            SpecExpr::Literal(SpecLiteral::Null, Span { start: 0, end: 0 }),
                        )
                    },
            ),
        ),
    }
}

impl View for Expr {
    type V = SpecExpr;

    open spec fn view(&self) -> SpecExpr {
        expr_view(*self)
    }
}

impl View for Literal {
    type V = SpecLiteral;

    open spec fn view(&self) -> SpecLiteral {
        literal_view(*self)
    }
}

/// The model of a vector of expressions, element by element.
pub open spec fn exprs_view(v: Seq<Expr>) -> Seq<SpecExpr> {
    Seq::new(v.len(), |i: int| expr_view(v[i]))
}

/// The model of an f-string segment.
pub open spec fn seg_view(s: FStringSegment) -> SpecFStringSegment {
    match s {
        FStringSegment::Lit(t) => SpecFStringSegment::Lit(t@),
        FStringSegment::Expr(x, f) => SpecFStringSegment::Expr(expr_view(x), opt_str_view(f)),
    }
}

/// The model of a vector of f-string segments, element by element.
pub open spec fn segs_view(v: Seq<FStringSegment>) -> Seq<SpecFStringSegment> {
    Seq::new(v.len(), |i: int| seg_view(v[i]))
}

impl Expr {
    pub open spec fn spec_span(&self) -> Span {
        match self {
            Expr::Literal(_, s) => *s,
            Expr::Identifier(_, s) => *s,
            Expr::BinOp { span, .. } => *span,
            Expr::UnaryOp { span, .. } => *span,
            Expr::Call { span, .. } => *span,
            Expr::FieldAccess { span, .. } => *span,
            Expr::Index { span, .. } => *span,
            Expr::List(_, s) => *s,
            Expr::Dict(_, s) => *s,
            Expr::FString(_, s) => *s,
        }
    }

    /// The span recorded on the expression node.
    #[verifier::when_used_as_spec(spec_span)]
    pub fn span(&self) -> (r: Span)
        ensures
            r == self.spec_span(),
    {
        match self {
            Expr::Literal(_, s) => *s,
            Expr::Identifier(_, s) => *s,
            Expr::BinOp { span, .. } => *span,
            Expr::UnaryOp { span, .. } => *span,
            Expr::Call { span, .. } => *span,
            Expr::FieldAccess { span, .. } => *span,
            Expr::Index { span, .. } => *span,
            Expr::List(_, s) => *s,
            Expr::Dict(_, s) => *s,
            Expr::FString(_, s) => *s,
        }
    }
}

impl SpecExpr {
    pub open spec fn span(self) -> Span {
        match self {
            SpecExpr::Literal(_, s) => s,
            SpecExpr::Identifier(_, s) => s,
            SpecExpr::BinOp { span, .. } => span,
            SpecExpr::UnaryOp { span, .. } => span,
            SpecExpr::Call { span, .. } => span,
            SpecExpr::FieldAccess { span, .. } => span,
            SpecExpr::Index { span, .. } => span,
            SpecExpr::List(_, s) => s,
            SpecExpr::Dict(_, s) => s,
            SpecExpr::FString(_, s) => s,
        }
    }
}

/// The span of an expression is the span of its model.
pub proof fn lemma_span_view(e: Expr)
    ensures
        e.spec_span() == expr_view(e).span(),
{
}


// ─── STATEMENTS ──────────────────────────────────────────────────

#[derive(Debug)]
pub struct Program {
    pub stmts: Vec<Stmt>,
    pub span: Span,
}

#[derive(Debug)]
pub enum Stmt {
    AgentDecl(AgentDecl),
    FnDecl(FnDecl),
    LetStmt(LetStmt),
    AssignStmt(AssignStmt),
    IfStmt(IfStmt),
    WhileStmt(WhileStmt),
    ForStmt(ForStmt),
    ReturnStmt(ReturnStmt),
    EffectStmt(EffectStmt),
    SendStmt(SendStmt),
    ExprStmt(ExprStmt),
}

#[derive(Debug)]
pub struct AgentDecl {
    pub name: String,
    pub version: Option<u64>,
    pub capabilities: Vec<UseDecl>,
    pub handlers: Vec<HandlerDecl>,
    pub functions: Vec<FnDecl>,
    pub error_policy: Option<ErrorPolicy>,
    pub event_policy: Option<EventPolicy>,
    pub ai_policy: Option<AiPolicy>,
    pub channels: Vec<ChannelDecl>,
    pub span: Span,
}

#[derive(Debug)]
pub struct UseDecl {
    pub capability: String,
    pub span: Span,
}

#[derive(Debug)]
pub struct HandlerDecl {
    pub event: EventPattern,
    pub priority: EventPriorityLevel,
    pub concurrent: bool,
    pub body: Block,
    pub span: Span,
}

#[derive(Debug)]
pub enum EventPattern {
    Start,
    Stop,
    Timer(Expr),
    Message(MessageTarget),
    Speech,
    Image,
    SensorChange(String),
    Network(String),
    Idle(Expr),
    Custom(String),
}

#[derive(Debug)]
pub enum MessageTarget {
    Simple(String),
    Typed { agent: String, channel: String },
}

#[derive(Debug)]
pub struct FnDecl {
    pub name: String,
    pub params: Vec<Param>,
    pub return_type: Option<TypeExpr>,
    pub body: Block,
    pub span: Span,
}

#[derive(Debug)]
pub struct Param {
    pub name: String,
    pub type_annotation: Option<TypeExpr>,
    pub span: Span,
}

#[derive(Debug)]
pub struct Block {
    pub stmts: Vec<Stmt>,
    pub span: Span,
}

#[derive(Debug)]
pub struct LetStmt {
    pub name: String,
    pub type_ann: Option<TypeExpr>,
    pub value: Expr,
    pub span: Span,
}

#[derive(Debug)]
pub struct AssignStmt {
    pub name: String,
    pub value: Expr,
    pub span: Span,
}

#[derive(Debug)]
pub struct IfStmt {
    pub condition: Expr,
    pub then_branch: Block,
    pub else_branch: Option<Box<ElseBranch>>,
    pub span: Span,
}

#[derive(Debug)]
pub enum ElseBranch {
    Block(Block),
    If(IfStmt),
}

#[derive(Debug)]
pub struct WhileStmt {
    pub condition: Expr,
    pub body: Block,
    pub span: Span,
}

#[derive(Debug)]
pub struct ForStmt {
    pub var: String,
    pub iterable: Expr,
    pub body: Block,
    pub span: Span,
}

#[derive(Debug)]
pub struct ReturnStmt {
    pub value: Option<Expr>,
    pub span: Span,
}

#[derive(Debug)]
pub struct EffectStmt {
    pub expr: Expr,
    pub span: Span,
}

#[derive(Debug)]
pub struct SendStmt {
    pub target_agent: String,
    pub channel: Option<String>,
    pub topic: Option<String>,
    pub payload: Expr,
    pub span: Span,
}

#[derive(Debug)]
pub struct ExprStmt {
    pub expr: Expr,
    pub span: Span,
}

// ─── MODEL OF STATEMENTS ─────────────────────────────────────────

pub struct SpecProgram {
    pub stmts: Seq<SpecStmt>,
    pub span: Span,
}

pub enum SpecStmt {
    AgentDecl(SpecAgentDecl),
    FnDecl(SpecFnDecl),
    LetStmt(SpecLetStmt),
    AssignStmt(SpecAssignStmt),
    IfStmt(SpecIfStmt),
    WhileStmt(SpecWhileStmt),
    ForStmt(SpecForStmt),
    ReturnStmt(SpecReturnStmt),
    EffectStmt(SpecEffectStmt),
    SendStmt(SpecSendStmt),
    ExprStmt(SpecExprStmt),
}

pub struct SpecAgentDecl {
    pub name: Seq<char>,
    pub version: Option<u64>,
    pub capabilities: Seq<SpecUseDecl>,
    pub handlers: Seq<SpecHandlerDecl>,
    pub functions: Seq<SpecFnDecl>,
    pub error_policy: Option<SpecErrorPolicy>,
    pub event_policy: Option<SpecEventPolicy>,
    pub ai_policy: Option<SpecAiPolicy>,
    pub channels: Seq<SpecChannelDecl>,
    pub span: Span,
}

pub struct SpecUseDecl {
    pub capability: Seq<char>,
    pub span: Span,
}

pub struct SpecHandlerDecl {
    pub event: SpecEventPattern,
    pub priority: EventPriorityLevel,
    pub concurrent: bool,
    pub body: SpecBlock,
    pub span: Span,
}

pub enum SpecEventPattern {
    Start,
    Stop,
    Timer(SpecExpr),
    Message(SpecMessageTarget),
    Speech,
    Image,
    SensorChange(Seq<char>),
    Network(Seq<char>),
    Idle(SpecExpr),
    Custom(Seq<char>),
}

pub enum SpecMessageTarget {
    Simple(Seq<char>),
    Typed { agent: Seq<char>, channel: Seq<char> },
}

pub struct SpecFnDecl {
    pub name: Seq<char>,
    pub params: Seq<SpecParam>,
    pub return_type: Option<SpecTypeExpr>,
    pub body: SpecBlock,
    pub span: Span,
}

pub struct SpecParam {
    pub name: Seq<char>,
    pub type_annotation: Option<SpecTypeExpr>,
    pub span: Span,
}

pub struct SpecBlock {
    pub stmts: Seq<SpecStmt>,
    pub span: Span,
}

pub struct SpecLetStmt {
    pub name: Seq<char>,
    pub type_ann: Option<SpecTypeExpr>,
    pub value: SpecExpr,
    pub span: Span,
}

pub struct SpecAssignStmt {
    pub name: Seq<char>,
    pub value: SpecExpr,
    pub span: Span,
}

pub struct SpecIfStmt {
    pub condition: SpecExpr,
    pub then_branch: SpecBlock,
    pub else_branch: Option<Box<SpecElseBranch>>,
    pub span: Span,
}

pub enum SpecElseBranch {
    Block(SpecBlock),
    If(SpecIfStmt),
}

pub struct SpecWhileStmt {
    pub condition: SpecExpr,
    pub body: SpecBlock,
    pub span: Span,
}

pub struct SpecForStmt {
    pub var: Seq<char>,
    pub iterable: SpecExpr,
    pub body: SpecBlock,
    pub span: Span,
}

pub struct SpecReturnStmt {
    pub value: Option<SpecExpr>,
    pub span: Span,
}

pub struct SpecEffectStmt {
    pub expr: SpecExpr,
    pub span: Span,
}

pub struct SpecSendStmt {
    pub target_agent: Seq<char>,
    pub channel: Option<Seq<char>>,
    pub topic: Option<Seq<char>>,
    pub payload: SpecExpr,
    pub span: Span,
}

pub struct SpecExprStmt {
    pub expr: SpecExpr,
    pub span: Span,
}

pub open spec fn opt_expr_view(e: Option<Expr>) -> Option<SpecExpr> {
    match e {
        Some(e) => Some(expr_view(e)),
        None => None,
    }
}

pub open spec fn param_view(p: Param) -> SpecParam {
    SpecParam { name: p.name@, type_annotation: opt_type_view(p.type_annotation), span: p.span }
}

/// The models of a vector of parameters, element by element.
pub open spec fn params_view(v: Seq<Param>) -> Seq<SpecParam> {
    Seq::new(v.len(), |i: int| param_view(v[i]))
}

/// The models of a vector of `use` declarations, element by element.
pub open spec fn uses_view(v: Seq<UseDecl>) -> Seq<SpecUseDecl> {
    Seq::new(v.len(), |i: int| use_view(v[i]))
}

/// The models of a vector of channel declarations, element by element.
pub open spec fn channels_view(v: Seq<ChannelDecl>) -> Seq<SpecChannelDecl> {
    Seq::new(v.len(), |i: int| v[i]@)
}

/// The models of a vector of handlers, element by element.
pub open spec fn handlers_view(v: Seq<HandlerDecl>) -> Seq<SpecHandlerDecl> {
    Seq::new(v.len(), |i: int| handler_view(v[i]))
}

/// The models of a vector of function declarations, element by element.
pub open spec fn fns_view(v: Seq<FnDecl>) -> Seq<SpecFnDecl> {
    Seq::new(v.len(), |i: int| fn_view(v[i]))
}

impl View for Param {
    type V = SpecParam;

    open spec fn view(&self) -> SpecParam {
        param_view(*self)
    }
}

impl View for UseDecl {
    type V = SpecUseDecl;

    open spec fn view(&self) -> SpecUseDecl {
        use_view(*self)
    }
}

impl View for EventPattern {
    type V = SpecEventPattern;

    open spec fn view(&self) -> SpecEventPattern {
        event_view(*self)
    }
}

impl View for MessageTarget {
    type V = SpecMessageTarget;

    open spec fn view(&self) -> SpecMessageTarget {
        target_view(*self)
    }
}

pub open spec fn use_view(u: UseDecl) -> SpecUseDecl {
    SpecUseDecl { capability: u.capability@, span: u.span }
}

pub open spec fn target_view(t: MessageTarget) -> SpecMessageTarget {
    match t {
        MessageTarget::Simple(s) => SpecMessageTarget::Simple(s@),
        MessageTarget::Typed { agent, channel } => SpecMessageTarget::Typed { agent: agent@, channel: channel@ },
    }
}

pub open spec fn event_view(e: EventPattern) -> SpecEventPattern {
    match e {
        EventPattern::Start => SpecEventPattern::Start,
        EventPattern::Stop => SpecEventPattern::Stop,
        EventPattern::Timer(x) => SpecEventPattern::Timer(expr_view(x)),
        EventPattern::Message(t) => SpecEventPattern::Message(target_view(t)),
        EventPattern::Speech => SpecEventPattern::Speech,
        EventPattern::Image => SpecEventPattern::Image,
        EventPattern::SensorChange(s) => SpecEventPattern::SensorChange(s@),
        EventPattern::Network(s) => SpecEventPattern::Network(s@),
        EventPattern::Idle(x) => SpecEventPattern::Idle(expr_view(x)),
        EventPattern::Custom(s) => SpecEventPattern::Custom(s@),
    }
}

pub open spec fn stmt_view(s: Stmt) -> SpecStmt
    decreases s,
{
    match s {
        Stmt::AgentDecl(a) => SpecStmt::AgentDecl(agent_view(a)),
        Stmt::FnDecl(f) => SpecStmt::FnDecl(fn_view(f)),
        Stmt::LetStmt(l) => SpecStmt::LetStmt(SpecLetStmt {
            name: l.name@,
            type_ann: opt_type_view(l.type_ann),
            value: expr_view(l.value),
            span: l.span,
        }),
        Stmt::AssignStmt(a) => SpecStmt::AssignStmt(SpecAssignStmt {
            name: a.name@,
            value: expr_view(a.value),
            span: a.span,
        }),
        Stmt::IfStmt(i) => SpecStmt::IfStmt(if_view(i)),
        Stmt::WhileStmt(w) => SpecStmt::WhileStmt(SpecWhileStmt {
            condition: expr_view(w.condition),
            body: block_view(w.body),
            span: w.span,
        }),
        Stmt::ForStmt(f) => SpecStmt::ForStmt(SpecForStmt {
            var: f.var@,
            iterable: expr_view(f.iterable),
            body: block_view(f.body),
            span: f.span,
        }),
        Stmt::ReturnStmt(r) => SpecStmt::ReturnStmt(SpecReturnStmt {
            value: opt_expr_view(r.value),
            span: r.span,
        }),
        Stmt::EffectStmt(e) => SpecStmt::EffectStmt(SpecEffectStmt { expr: expr_view(e.expr), span: e.span }),
        Stmt::SendStmt(s) => SpecStmt::SendStmt(SpecSendStmt {
            target_agent: s.target_agent@,
            channel: opt_str_view(s.channel),
            topic: opt_str_view(s.topic),
            payload: expr_view(s.payload),
            span: s.span,
        }),
        Stmt::ExprStmt(e) => SpecStmt::ExprStmt(SpecExprStmt { expr: expr_view(e.expr), span: e.span }),
    }
}

/// The model of a vector of statements, element by element.
pub open spec fn stmts_view(v: Seq<Stmt>) -> Seq<SpecStmt> {
    Seq::new(v.len(), |i: int| stmt_view(v[i]))
}

pub open spec fn block_view(b: Block) -> SpecBlock
    decreases b,
{
    SpecBlock {
        stmts: Seq::new(
            b.stmts@.len(),
            |i: int|
                if 0 <= i < b.stmts@.len() {
                    stmt_view(b.stmts@[i])
                } else {
                    SpecStmt::ReturnStmt(SpecReturnStmt { value: None, span: b.span })
                },
        ),
        span: b.span,
    }
}

pub open spec fn if_view(i: IfStmt) -> SpecIfStmt
    decreases i,
{
    SpecIfStmt {
        condition: expr_view(i.condition),
        then_branch: block_view(i.then_branch),
        else_branch: match i.else_branch {
            Some(b) => Some(Box::new(else_view(*b))),
            None => None,
        },
        span: i.span,
    }
}

pub open spec fn else_view(e: ElseBranch) -> SpecElseBranch
    decreases e,
{
    match e {
        ElseBranch::Block(b) => SpecElseBranch::Block(block_view(b)),
        ElseBranch::If(i) => SpecElseBranch::If(if_view(i)),
    }
}

pub open spec fn fn_view(f: FnDecl) -> SpecFnDecl
    decreases f,
{
    SpecFnDecl {
        name: f.name@,
        params: params_view(f.params@),
        return_type: opt_type_view(f.return_type),
        body: block_view(f.body),
        span: f.span,
    }
}

pub open spec fn handler_view(h: HandlerDecl) -> SpecHandlerDecl
    decreases h,
{
    SpecHandlerDecl {
        event: event_view(h.event),
        priority: h.priority,
        concurrent: h.concurrent,
        body: block_view(h.body),
        span: h.span,
    }
}

pub open spec fn agent_view(a: AgentDecl) -> SpecAgentDecl
    decreases a,
{
    SpecAgentDecl {
        name: a.name@,
        version: a.version,
        capabilities: uses_view(a.capabilities@),
        handlers: Seq::new(
            a.handlers@.len(),
            |i: int|
                if 0 <= i < a.handlers@.len() {
                    handler_view(a.handlers@[i])
                } else {
                    SpecHandlerDecl {
                        event: SpecEventPattern::Start,
                        priority: EventPriorityLevel::Normal,
                        concurrent: false,
                        body: SpecBlock { stmts: Seq::empty(), span: a.span },
                        span: a.span,
                    }
                },
        ),
        functions: Seq::new(
            a.functions@.len(),
            |i: int|
                if 0 <= i < a.functions@.len() {
                    fn_view(a.functions@[i])
                } else {
                    SpecFnDecl {
                        name: Seq::empty(),
                        params: Seq::empty(),
                        return_type: None,
                        body: SpecBlock { stmts: Seq::empty(), span: a.span },
                        span: a.span,
                    }
                },
        ),
        error_policy: match a.error_policy {
            Some(p) => Some(p@),
            None => None,
        },
        event_policy: match a.event_policy {
            Some(p) => Some(p@),
            None => None,
        },
        ai_policy: match a.ai_policy {
            Some(p) => Some(p@),
            None => None,
        },
        channels: channels_view(a.channels@),
        span: a.span,
    }
}

impl View for Stmt {
    type V = SpecStmt;

    open spec fn view(&self) -> SpecStmt {
        stmt_view(*self)
    }
}

impl View for Block {
    type V = SpecBlock;

    open spec fn view(&self) -> SpecBlock {
        block_view(*self)
    }
}

impl View for FnDecl {
    type V = SpecFnDecl;

    open spec fn view(&self) -> SpecFnDecl {
        fn_view(*self)
    }
}

impl View for HandlerDecl {
    type V = SpecHandlerDecl;

    open spec fn view(&self) -> SpecHandlerDecl {
        handler_view(*self)
    }
}

impl View for AgentDecl {
    type V = SpecAgentDecl;

    open spec fn view(&self) -> SpecAgentDecl {
        agent_view(*self)
    }
}

impl View for IfStmt {
    type V = SpecIfStmt;

    open spec fn view(&self) -> SpecIfStmt {
        if_view(*self)
    }
}

impl View for Program {
    type V = SpecProgram;

    open spec fn view(&self) -> SpecProgram {
        SpecProgram {
            stmts: Seq::new(self.stmts@.len(), |i: int| stmt_view(self.stmts@[i])),
            span: self.span,
        }
    }
}

} // verus!
