//! Concrete Syntax Tree: the syntax structure of parsed code with exact
//! source spans and no semantic validation.
//!
//! Number literals carry the IEEE-754 bit pattern of their `f64` value.
use vstd::prelude::*;
use crate::span::{Span, Spanned};

verus! {

/// CST representation of a complete program.
#[derive(Debug)]
pub struct CstProgram {
    pub blocks: Vec<Spanned<CstBlock>>,
}

/// CST representation of a block of statements.
#[derive(Debug)]
pub struct CstBlock {
    pub statements: Vec<Spanned<CstStatement>>,
}

/// A loop variable initialisation: `(variable, span of "=", initial value)`.
pub type CstLoopInit = (Spanned<String>, Span, Spanned<CstExpr>);

/// CST representation of statements.
#[derive(Debug)]
pub enum CstStatement {
    Mod { identifier: Spanned<String> },
    Let {
        pub_keyword: Option<Span>,
        let_keyword: Span,
        identifier: Spanned<String>,
        type_annotation: Option<Spanned<String>>,
        eq: Span,
        expression: Spanned<CstExpr>,
    },
    Const {
        pub_keyword: Option<Span>,
        const_keyword: Span,
        identifier: Spanned<String>,
        eq: Span,
        expression: Spanned<CstExpr>,
    },
    Assign { identifier: Spanned<String>, eq: Span, expression: Spanned<CstExpr> },
    AssignIncrement { identifier: Spanned<String>, op: Span, expression: Spanned<CstExpr> },
    AssignDecrement { identifier: Spanned<String>, op: Span, expression: Spanned<CstExpr> },
    If {
        if_keyword: Span,
        arms: Vec<(Spanned<CstExpr>, Spanned<CstBlock>)>,
        else_keywords: Vec<Span>,
        else_keyword: Option<Span>,
        else_block: Option<Spanned<CstBlock>>,
    },
    Match {
        match_keyword: Span,
        expression: Spanned<CstExpr>,
        cases: Vec<(Option<Spanned<CstExpr>>, Spanned<CstBlock>)>,
    },
    FunctionDeclaration {
        pub_keyword: Option<Span>,
        fn_keyword: Span,
        identifier: Spanned<String>,
        arguments: Vec<Spanned<CstArgument>>,
        return_type_arrow: Option<Spanned<ReturnTypeArrow>>,
        body: Spanned<CstBlock>,
    },
    Return { return_keyword: Span, expression: Spanned<CstExpr> },
    Loop { loop_keyword: Span, init_vars: Vec<CstLoopInit>, body: Spanned<CstBlock> },
    While { while_keyword: Span, condition: Spanned<CstExpr>, body: Spanned<CstBlock> },
    For {
        for_keyword: Span,
        var_name: Spanned<String>,
        in_keyword: Span,
        start: Spanned<CstExpr>,
        dotdot: Span,
        end: Spanned<CstExpr>,
        body: Spanned<CstBlock>,
    },
    Break { break_keyword: Span, expression: Option<Spanned<CstExpr>> },
    Continue { continue_keyword: Span },
    Use {
        use_keyword: Span,
        selector: Spanned<CstImportSelector>,
        from_keyword: Span,
        path: Vec<Spanned<String>>,
    },
    Struct {
        pub_keyword: Option<Span>,
        struct_keyword: Span,
        name: Spanned<String>,
        fields: Vec<Spanned<CstStructField>>,
    },
    Expression(Spanned<CstExpr>),
}

/// CST representation of function arguments.
#[derive(Debug)]
pub struct CstArgument {
    pub identifier: Spanned<String>,
    pub colon: Span,
    pub type_annotation: Spanned<String>,
}

/// CST representation of a return type arrow (`->` or `~>`).
#[derive(Debug)]
pub struct ReturnTypeArrow {
    pub arrow: Span,
    pub is_effectful: bool,
    pub type_annotation: Spanned<String>,
}

/// CST representation of an import selector.
#[derive(Debug)]
pub enum CstImportSelector {
    Single(Spanned<String>),
    Multiple(Vec<Spanned<String>>),
    Wildcard(Span),
}

/// CST representation of a struct field declaration.
#[derive(Debug)]
pub struct CstStructField {
    pub name: Spanned<String>,
    pub colon: Span,
    pub type_annotation: Spanned<String>,
}

/// CST representation of expressions.
#[derive(Debug)]
pub enum CstExpr {
    Literal(Spanned<CstLiteral>),
    Identifier(Spanned<String>),
    FunctionCall {
        callee: Box<Spanned<CstExpr>>,
        open_paren: Span,
        arguments: Vec<Spanned<CstCallArgument>>,
        close_paren: Span,
    },
    PartialCall {
        func: Box<Spanned<CstExpr>>,
        open_paren: Span,
        args: Vec<Spanned<CstCallArgument>>,
        close_paren: Span,
    },
    Prefix { op: Spanned<CstUnaryOp>, rhs: Box<Spanned<CstExpr>> },
    Postfix { lhs: Box<Spanned<CstExpr>>, op: Spanned<CstPostfixOp> },
    Infix { lhs: Box<Spanned<CstExpr>>, op: Spanned<CstBinaryOp>, rhs: Box<Spanned<CstExpr>> },
    Group { open_paren: Span, inner: Box<Spanned<CstExpr>>, close_paren: Span },
    Loop { loop_keyword: Span, init_vars: Vec<CstLoopInit>, body: Spanned<CstBlock> },
    Compose { lhs: Box<Spanned<CstExpr>>, op: Spanned<CstComposeOp>, rhs: Box<Spanned<CstExpr>> },
    MemberAccess { object: Box<Spanned<CstExpr>>, dots: Vec<Span>, members: Vec<Spanned<String>> },
    StructInit {
        struct_name: Spanned<String>,
        open_brace: Span,
        fields: Vec<Spanned<CstStructInitField>>,
        close_brace: Span,
    },
    FieldAccess { object: Box<Spanned<CstExpr>>, dot: Span, field: Spanned<String> },
    Array { open_bracket: Span, elements: Vec<Spanned<CstExpr>>, close_bracket: Span },
    ArrayIndex {
        array: Box<Spanned<CstExpr>>,
        open_bracket: Span,
        indices: Vec<Spanned<CstIndexSpec>>,
        close_bracket: Span,
    },
    Closure {
        fn_keyword: Span,
        open_paren: Span,
        arguments: Vec<Spanned<CstClosureArg>>,
        close_paren: Span,
        return_type_arrow: Option<Spanned<ReturnTypeArrow>>,
        arrow: Option<Span>,
        body: CstClosureBody,
    },
}

/// CST representation of literals; a number holds the bit pattern of its `f64`.
#[derive(Debug)]
pub enum CstLiteral {
    String(String),
    Number(u64),
    Boolean(bool),
}

/// CST representation of unary operators.
#[derive(Debug, Clone, Copy, PartialEq, Eq, Structural)]
pub enum CstUnaryOp {
    Neg,
    Increment,
    Decrement,
    Not,
}

/// CST representation of postfix operators.
#[derive(Debug, Clone, Copy, PartialEq, Eq, Structural)]
pub enum CstPostfixOp {
    Invoke,
}

/// CST representation of binary operators.
#[derive(Debug, Clone, Copy, PartialEq, Eq, Structural)]
pub enum CstBinaryOp {
    Add,
    Sub,
    Mul,
    Div,
    Mod,
    Pow,
    Eq,
    Ne,
    Gt,
    Lt,
    Ge,
    Le,
    And,
    Or,
}

/// CST representation of composition operators (`|>` or `<|`).
#[derive(Debug, Clone, Copy, PartialEq, Eq, Structural)]
pub enum CstComposeOp {
    Forward,
    Reverse,
}

/// CST representation of call arguments (expression or hole).
#[derive(Debug)]
pub enum CstCallArgument {
    Expr(Spanned<CstExpr>),
    Hole(Span),
}

/// CST representation of closure arguments.
#[derive(Debug)]
pub struct CstClosureArg {
    pub identifier: Spanned<String>,
    pub is_placeholder: bool,
    pub colon: Option<Span>,
    pub type_annotation: Option<Spanned<String>>,
}

/// CST representation of a closure body.
#[derive(Debug)]
pub enum CstClosureBody {
    Expression(Box<Spanned<CstExpr>>),
    Block(Spanned<CstBlock>),
}

/// CST representation of struct initialisation fields.
#[derive(Debug)]
pub struct CstStructInitField {
    pub name: Spanned<String>,
    pub colon: Span,
    pub value: Spanned<CstExpr>,
}

/// A range step: `(span of "..", step expression)`.
pub type CstRangeStep = (Span, Spanned<CstExpr>);

/// CST representation of array index specifications.
#[derive(Debug)]
pub enum CstIndexSpec {
    Single(Spanned<CstExpr>),
    Range {
        start: Option<Spanned<CstExpr>>,
        dotdot: Span,
        end: Option<Spanned<CstExpr>>,
        step: Option<CstRangeStep>,
    },
    InclusiveRange { start: Option<Spanned<CstExpr>>, dotdoteq: Span, end: Option<Spanned<CstExpr>> },
}

} // verus!
