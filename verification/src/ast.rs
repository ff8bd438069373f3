//! Abstract syntax tree.
//!
//! The parser resolves no names: what a `Name` or a `Construct` denotes is
//! settled later by the resolver and the type checker.
use crate::decimal::Dec;
use crate::span::{spec_merge, Span};
use vstd::prelude::*;

verus! {

#[derive(Debug)]
pub struct Program {
    pub imports: Vec<ImportDecl>,
    pub decls: Vec<Decl>,
}

#[derive(Debug)]
pub struct ImportDecl {
    /// The parts of a dotted module name, such as `["std", "console"]`.
    pub path: Vec<String>,
    pub alias: Option<String>,
    pub span: Span,
}

#[derive(Debug)]
pub enum Decl {
    Type(TypeDecl),
    Const(ConstDecl),
    Rule(RuleDecl),
    Flow(FlowDecl),
}

#[derive(Debug)]
pub struct TypeDecl {
    pub name: String,
    pub name_span: Span,
    pub kind: TypeDeclKind,
}

#[derive(Debug)]
pub enum TypeDeclKind {
    /// Usage type: `T UserId [Text]`
    Usage(TypeExpr),
    /// Record type: `T Product { ... }`
    Record(Vec<FieldDecl>),
    /// Algebraic data type: `T Grade` with `| Ctor [Payload]` lines
    Adt(Vec<CtorDecl>),
}

#[derive(Debug)]
pub struct FieldDecl {
    pub name: String,
    pub name_span: Span,
    pub ty: TypeExpr,
}

#[derive(Debug)]
pub struct CtorDecl {
    pub name: String,
    pub name_span: Span,
    pub payload: Option<TypeExpr>,
}

#[derive(Debug)]
pub enum TypeExpr {
    /// `Price` or `std.RangeInput` (the qualifier is an import alias)
    Named { qualifier: Option<String>, name: String, span: Span },
    /// `List<T>`
    List { elem: Box<TypeExpr>, span: Span },
    /// `Void`
    Void { span: Span },
}

impl TypeExpr {
    pub open spec fn spec_span(&self) -> Span {
        match self {
            TypeExpr::Named { span, .. } => *span,
            TypeExpr::List { span, .. } => *span,
            TypeExpr::Void { span } => *span,
        }
    }

    pub fn span(&self) -> (s: Span)
        ensures
            s == self.spec_span(),
    {
        match self {
            TypeExpr::Named { span, .. } => *span,
            TypeExpr::List { span, .. } => *span,
            TypeExpr::Void { span } => *span,
        }
    }
}

#[derive(Debug)]
pub struct ConstDecl {
    pub name: String,
    pub name_span: Span,
    pub value: Expr,
}

#[derive(Debug)]
pub struct RuleDecl {
    pub name: String,
    pub name_span: Span,
    /// Parameter names: at most one for a rule with a body; declarations
    /// without a body (std.tcrf only) may have several.
    pub params: Vec<(String, Span)>,
    pub kind: RuleKind,
}

#[derive(Debug)]
pub enum RuleKind {
    /// `Input > Output [! Error]` and a body
    Normal { input: TypeExpr, output: TypeExpr, can_fail: bool, body: Block },
    /// Representation-preserving transition `Input => Output` (no body)
    Transition { input: TypeExpr, output: TypeExpr },
    /// Declaration only (no body), for the standard library declaration file
    /// std.tcrf; inputs are separated by commas (`A, List<A> > List<A>`)
    External { inputs: Vec<TypeExpr>, output: TypeExpr, can_fail: bool },
}

/// Bindings followed by a final expression: a rule body or a branch body.
#[derive(Debug)]
pub struct Block {
    pub bindings: Vec<Binding>,
    pub result: Expr,
}

#[derive(Debug)]
pub struct Binding {
    pub name: String,
    pub name_span: Span,
    pub ty: Option<TypeExpr>,
    pub value: Expr,
}

#[derive(Debug)]
pub struct FlowDecl {
    pub name: String,
    pub name_span: Span,
    pub signature: Option<FlowSignature>,
    pub steps: Vec<FlowStep>,
}

#[derive(Debug)]
pub struct FlowSignature {
    pub input: TypeExpr,
    pub output: TypeExpr,
    pub can_fail: bool,
}

#[derive(Debug)]
pub enum FlowStep {
    /// A value expression (valid as the first step only; checked by the type checker)
    Initial(Expr),
    /// A reference to a rule, flow or constant (`calculateTotal`, `std.printLine`)
    Call { path: Vec<(String, Span)>, span: Span },
    /// A match over the current value of the flow
    Match { arms: Vec<FlowMatchArm>, span: Span },
}

#[derive(Debug)]
pub struct FlowMatchArm {
    pub ctor: String,
    pub ctor_span: Span,
    pub steps: Vec<FlowStep>,
}

#[derive(Debug)]
pub enum Expr {
    IntLit(i64, Span),
    DecimalLit(Dec, Span),
    TextLit(String, Span),
    CharLit(char, Span),
    BoolLit(bool, Span),
    VoidLit(Span),
    /// A dotted chain of lower-case names (`price`, `input.values`,
    /// `std.printLine`); whether the head is a local value or an import
    /// alias is settled by the type checker.
    Name { path: Vec<(String, Span)>, span: Span },
    /// A name followed by blank-separated arguments (rule or builtin call)
    Call { path: Vec<(String, Span)>, args: Vec<Expr>, span: Span },
    /// `at list index`
    At { list: Box<Expr>, index: Box<Expr>, span: Span },
    /// `std.empty<T>`
    Empty { path: Vec<(String, Span)>, elem: TypeExpr, span: Span },
    /// `TypeName expr` (usage type) or `Ctor [payload]` (ADT); which one is
    /// settled once types are resolved.
    Construct {
        qualifier: Option<String>,
        name: String,
        name_span: Span,
        arg: Option<Box<Expr>>,
        span: Span,
    },
    /// `A from x`: representation-preserving conversion between usage types
    /// with the same inner type.
    From {
        qualifier: Option<String>,
        name: String,
        name_span: Span,
        value: Box<Expr>,
        span: Span,
    },
    /// `TypeName { field = expr ... }`
    Record {
        qualifier: Option<String>,
        name: String,
        name_span: Span,
        fields: Vec<RecordFieldInit>,
        span: Span,
    },
    /// `TypeName( elem... )`: list usage type construction; with one element
    /// it may be read as a parenthesised `Construct` once types are resolved.
    ListConstruct {
        qualifier: Option<String>,
        name: String,
        name_span: Span,
        elems: Vec<Expr>,
        span: Span,
    },
    Unary { op: UnaryOp, operand: Box<Expr>, span: Span },
    Binary { op: BinOp, left: Box<Expr>, right: Box<Expr>, span: Span },
    When { cond: Box<Expr>, then_block: Box<Block>, else_block: Box<Block>, span: Span },
    Match { scrutinee: Box<Expr>, arms: Vec<MatchArm>, span: Span },
}

#[derive(Debug)]
pub struct RecordFieldInit {
    pub name: String,
    pub name_span: Span,
    pub value: Expr,
}

#[derive(Debug)]
pub struct MatchArm {
    pub ctor: String,
    pub ctor_span: Span,
    pub binding: Option<(String, Span)>,
    pub body: Block,
}

#[derive(Debug, Clone, Copy, PartialEq, Eq, Structural)]
pub enum UnaryOp {
    Neg,
    Not,
}

#[derive(Debug, Clone, Copy, PartialEq, Eq, Structural)]
pub enum BinOp {
    Add,
    Sub,
    Mul,
    Div,
    Rem,
    Lt,
    Le,
    Gt,
    Ge,
    Eq,
    Ne,
    And,
    Or,
}

/// The text of an operator in source.
pub open spec fn spec_symbol(op: BinOp) -> Seq<char> {
    match op {
        BinOp::Add => "+"@,
        BinOp::Sub => "-"@,
        BinOp::Mul => "*"@,
        BinOp::Div => "/"@,
        BinOp::Rem => "%"@,
        BinOp::Lt => "<"@,
        BinOp::Le => "<="@,
        BinOp::Gt => ">"@,
        BinOp::Ge => ">="@,
        BinOp::Eq => "=="@,
        BinOp::Ne => "!="@,
        BinOp::And => "and"@,
        BinOp::Or => "or"@,
    }
}

impl BinOp {
    /// Is the operator arithmetic (`+ - * / %`).
    pub open spec fn is_arith(self) -> bool {
        self is Add || self is Sub || self is Mul || self is Div || self is Rem
    }

    pub fn symbol(self) -> (s: &'static str)
        ensures
            s@ == spec_symbol(self),
    {
        match self {
            BinOp::Add => "+",
            BinOp::Sub => "-",
            BinOp::Mul => "*",
            BinOp::Div => "/",
            BinOp::Rem => "%",
            BinOp::Lt => "<",
            BinOp::Le => "<=",
            BinOp::Gt => ">",
            BinOp::Ge => ">=",
            BinOp::Eq => "==",
            BinOp::Ne => "!=",
            BinOp::And => "and",
            BinOp::Or => "or",
        }
    }
}

impl Expr {
    pub open spec fn spec_span(&self) -> Span {
        match self {
            Expr::IntLit(_, s) => *s,
            Expr::DecimalLit(_, s) => *s,
            Expr::TextLit(_, s) => *s,
            Expr::CharLit(_, s) => *s,
            Expr::BoolLit(_, s) => *s,
            Expr::VoidLit(s) => *s,
            Expr::Name { span, .. } => *span,
            Expr::Call { span, .. } => *span,
            Expr::At { span, .. } => *span,
            Expr::Empty { span, .. } => *span,
            Expr::Construct { span, .. } => *span,
            Expr::From { span, .. } => *span,
            Expr::Record { span, .. } => *span,
            Expr::ListConstruct { span, .. } => *span,
            Expr::Unary { span, .. } => *span,
            Expr::Binary { span, .. } => *span,
            Expr::When { span, .. } => *span,
            Expr::Match { span, .. } => *span,
        }
    }

    pub fn span(&self) -> (s: Span)
        ensures
            s == self.spec_span(),
    {
        match self {
            Expr::IntLit(_, s) => *s,
            Expr::DecimalLit(_, s) => *s,
            Expr::TextLit(_, s) => *s,
            Expr::CharLit(_, s) => *s,
            Expr::BoolLit(_, s) => *s,
            Expr::VoidLit(s) => *s,
            Expr::Name { span, .. } => *span,
            Expr::Call { span, .. } => *span,
            Expr::At { span, .. } => *span,
            Expr::Empty { span, .. } => *span,
            Expr::Construct { span, .. } => *span,
            Expr::From { span, .. } => *span,
            Expr::Record { span, .. } => *span,
            Expr::ListConstruct { span, .. } => *span,
            Expr::Unary { span, .. } => *span,
            Expr::Binary { span, .. } => *span,
            Expr::When { span, .. } => *span,
            Expr::Match { span, .. } => *span,
        }
    }
}

} // verus!
