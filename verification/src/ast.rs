//! Abstract Syntax Tree: the semantic representation of a program, without
//! spans. Identifiers that the language server tracks carry their CST identity.
//!
//! Number literals carry the IEEE-754 bit pattern of their `f64` value.
use vstd::prelude::*;
use crate::span::CstId;

verus! {

/// A placeholder hole in partial application.
#[derive(Debug, Clone, Copy)]
pub struct Hole;

/// An identifier with its CST identity.
#[derive(Debug)]
pub struct AstIdent {
    pub name: String,
    pub cst_id: CstId,
}

/// An expression.
#[derive(Debug)]
pub enum Expression {
    Literal(Literal),
    Identifier(AstIdent),
    FunctionCall { callee: Box<Expression>, arguments: Vec<Expression>, cst_id: CstId },
    PartialCall { func: Box<Expression>, args: Vec<CallArgument> },
    Prefix { op: UnaryOp, rhs: Box<Expression> },
    Postfix { lhs: Box<Expression>, op: PostfixOp, args: Option<Vec<Expression>> },
    Infix { lhs: Box<Expression>, op: BinaryOp, rhs: Box<Expression> },
    Group(Box<Expression>),
    Loop { init_vars: Vec<(String, Expression)>, body: Block },
    Compose { lhs: Box<Expression>, rhs: Box<Expression>, reverse: bool },
    MemberAccess { object: Box<Expression>, member: AstIdent, cst_id: CstId },
    StructInit { struct_name: AstIdent, fields: Vec<(AstIdent, Expression)>, cst_id: CstId },
    FieldAccess { object: Box<Expression>, field: AstIdent, cst_id: CstId },
    Array(Vec<Expression>),
    ArrayIndex { array: Box<Expression>, indices: Vec<IndexSpec> },
    Closure { arguments: Vec<Argument>, return_type: Option<String>, body: ClosureBody },
}

/// An array index specification.
#[derive(Debug)]
pub enum IndexSpec {
    /// Single index: `arr[3]`.
    Single(Expression),
    /// Range with exclusive end: `arr[1..5]`, with an optional step.
    Range { start: Option<Expression>, end: Option<Expression>, step: Option<Expression> },
    /// Range with inclusive end: `arr[1..=5]`.
    InclusiveRange { start: Option<Expression>, end: Option<Expression> },
}

/// Unary operators.
#[derive(Debug, Clone, Copy, PartialEq, Eq, Structural)]
pub enum UnaryOp {
    Neg,
    Increment,
    Decrement,
    Not,
}

/// Postfix operators.
#[derive(Debug, Clone, Copy, PartialEq, Eq, Structural)]
pub enum PostfixOp {
    Invoke,
}

/// Binary operators.
#[derive(Debug, Clone, Copy, PartialEq, Eq, Structural)]
pub enum BinaryOp {
    Add,
    Sub,
    Mul,
    Div,
    Mod,
    Pow,
    Eq,
    Ne,
    Gt,
    Lt,
    Ge,
    Le,
    And,
    Or,
}

/// A complete program: blocks executed in sequence.
#[derive(Debug)]
pub struct Program {
    pub blocks: Vec<Block>,
}

/// A block of statements executed in sequence.
#[derive(Debug)]
pub struct Block {
    pub statements: Vec<Statement>,
}

/// A function or closure parameter and its type annotation.
#[derive(Debug)]
pub struct Argument {
    pub identifier: AstIdent,
    pub kind: String,
}

/// An argument in a call: an expression or a hole.
#[derive(Debug)]
pub enum CallArgument {
    Expr(Expression),
    Hole,
}

/// The body of a closure: one expression or a block.
#[derive(Debug)]
pub enum ClosureBody {
    Expression(Box<Expression>),
    Block(Block),
}

/// A statement.
#[derive(Debug)]
pub enum Statement {
    Mod { identifier: String },
    Let {
        identifier: AstIdent,
        type_annotation: Option<String>,
        expression: Expression,
        pub_visibility: bool,
    },
    Const { identifier: AstIdent, expression: Expression, pub_visibility: bool },
    Assign { identifier: String, expression: Expression },
    AssignIncrement { identifier: String, expression: Expression },
    AssignDecrement { identifier: String, expression: Expression },
    If { arms: Vec<(Expression, Block)>, else_block: Option<Block> },
    Match { expression: Expression, cases: Vec<(Option<Expression>, Block)> },
    FunctionDeclaration {
        identifier: AstIdent,
        arguments: Vec<Argument>,
        return_type: Option<String>,
        body: Block,
        pub_visibility: bool,
        cst_id: CstId,
    },
    Return { expression: Expression },
    Loop { init_vars: Vec<(String, Expression)>, body: Block },
    While { condition: Expression, body: Block },
    For { var_name: String, start: Expression, end: Expression, body: Block },
    Break { expression: Option<Expression> },
    Continue,
    Use { path: Vec<String>, selector: ImportSelector },
    Struct { name: String, fields: Vec<(String, String)>, pub_visibility: bool },
    Expression(Expression),
}

/// What to import from a module path.
#[derive(Debug)]
pub enum ImportSelector {
    /// `use math.utils.square;`
    Single(String),
    /// `use math.utils.{cube, pow};`
    Multiple(Vec<String>),
    /// `use math.utils.*;`
    Wildcard,
}

/// Literal values: strings, numbers (as `f64` bit patterns) and booleans.
#[derive(Debug)]
pub enum Literal {
    String(String),
    Number(u64),
    Boolean(bool),
}

} // verus!
