//! Lowering from the Concrete Syntax Tree to the Abstract Syntax Tree.
//!
//! Lowering keeps the semantic content of each node, drops spans, and carries
//! the CST identity of identifiers and of the nodes the language server binds
//! to symbols. It also collects the documentation blocks of the top-level
//! declarations, keyed by declared name.
use vstd::prelude::*;
use crate::span::{Span, Spanned, CstId};
use crate::cst::{
    CstProgram, CstBlock, CstStatement, CstExpr, CstLiteral, CstUnaryOp, CstPostfixOp,
    CstBinaryOp, CstComposeOp, CstCallArgument, CstClosureBody, CstIndexSpec, CstImportSelector,
    CstLoopInit, ReturnTypeArrow,
};
use crate::ast::{
    Program, Block, Statement, Expression, Literal, UnaryOp, PostfixOp, BinaryOp, CallArgument,
    ClosureBody, IndexSpec, ImportSelector, AstIdent, Argument,
};
use crate::doc::DocBlock;

verus! {

broadcast use vstd::std_specs::vec::axiom_vec_index_decreases;

// ---------------------------------------------------------------------------
// Operators and leaves
// ---------------------------------------------------------------------------

/// The AST unary operator for a CST unary operator.
pub open spec fn spec_lower_unary(op: CstUnaryOp) -> UnaryOp {
    match op {
        CstUnaryOp::Neg => UnaryOp::Neg,
        CstUnaryOp::Increment => UnaryOp::Increment,
        CstUnaryOp::Decrement => UnaryOp::Decrement,
        CstUnaryOp::Not => UnaryOp::Not,
    }
}

/// The AST postfix operator for a CST postfix operator.
pub open spec fn spec_lower_postfix(op: CstPostfixOp) -> PostfixOp {
    match op {
        CstPostfixOp::Invoke => PostfixOp::Invoke,
    }
}

/// The AST binary operator for a CST binary operator.
pub open spec fn spec_lower_binary(op: CstBinaryOp) -> BinaryOp {
    match op {
        CstBinaryOp::Add => BinaryOp::Add,
        CstBinaryOp::Sub => BinaryOp::Sub,
        CstBinaryOp::Mul => BinaryOp::Mul,
        CstBinaryOp::Div => BinaryOp::Div,
        CstBinaryOp::Mod => BinaryOp::Mod,
        CstBinaryOp::Pow => BinaryOp::Pow,
        CstBinaryOp::Eq => BinaryOp::Eq,
        CstBinaryOp::Ne => BinaryOp::Ne,
        CstBinaryOp::Gt => BinaryOp::Gt,
        CstBinaryOp::Lt => BinaryOp::Lt,
        CstBinaryOp::Ge => BinaryOp::Ge,
        CstBinaryOp::Le => BinaryOp::Le,
        CstBinaryOp::And => BinaryOp::And,
        CstBinaryOp::Or => BinaryOp::Or,
    }
}

/// The AST literal for a CST literal.
pub open spec fn spec_lower_literal(l: CstLiteral) -> Literal {
    match l {
        CstLiteral::String(s) => Literal::String(s),
        CstLiteral::Number(n) => Literal::Number(n),
        CstLiteral::Boolean(b) => Literal::Boolean(b),
    }
}

/// `a` carries the name and the CST identity of `c`.
pub open spec fn ident_lowered(c: Spanned<String>, a: AstIdent) -> bool {
    a.name == c.node && a.cst_id == c.id
}

/// Some argument of a call is a hole.
pub open spec fn has_hole(args: Seq<Spanned<CstCallArgument>>) -> bool {
    exists|i: int| 0 <= i < args.len() && args[i].node is Hole
}

/// The text that precedes a function's return type: `"~> "` for an
/// effectful arrow, `"-> "` otherwise.
pub open spec fn arrow_text(is_effectful: bool) -> Seq<char> {
    if is_effectful {
        seq!['~', '>', ' ']
    } else {
        seq!['-', '>', ' ']
    }
}

/// The type text of a closure argument, empty when it has none.
pub open spec fn closure_arg_kind(t: Option<Spanned<String>>) -> Seq<char> {
    match t {
        Some(s) => s.node@,
        None => Seq::empty(),
    }
}

/// The type annotation text of a `let`, if any.
pub open spec fn type_annotation_text(t: Option<Spanned<String>>) -> Option<String> {
    match t {
        Some(s) => Some(s.node),
        None => None,
    }
}

/// The declared return type of a closure, if any.
pub open spec fn closure_return_type(r: Option<Spanned<ReturnTypeArrow>>) -> Option<String> {
    match r {
        Some(a) => Some(a.node.type_annotation.node),
        None => None,
    }
}

/// `a` is the lowered return type of a function with arrow `r`.
pub open spec fn fn_return_type_lowered(r: Option<Spanned<ReturnTypeArrow>>, a: Option<String>) -> bool {
    match r {
        Some(arrow) => a matches Some(s) && s@ == arrow_text(arrow.node.is_effectful)
            + arrow.node.type_annotation.node@,
        None => a is None,
    }
}

// ---------------------------------------------------------------------------
// Well-formedness: every member access names at least one member
// ---------------------------------------------------------------------------

/// Every member access in the expression names at least one member.
pub open spec fn expr_wf(c: Spanned<CstExpr>) -> bool
    decreases c,
{
    match c.node {
        CstExpr::Literal(_) => true,
        CstExpr::Identifier(_) => true,
        CstExpr::FunctionCall { callee, arguments, .. } => expr_wf(*callee) && call_args_wf(
            arguments@,
        ),
        CstExpr::PartialCall { func, args, .. } => expr_wf(*func) && call_args_wf(args@),
        CstExpr::Prefix { rhs, .. } => expr_wf(*rhs),
        CstExpr::Postfix { lhs, .. } => expr_wf(*lhs),
        CstExpr::Infix { lhs, rhs, .. } => expr_wf(*lhs) && expr_wf(*rhs),
        CstExpr::Group { inner, .. } => expr_wf(*inner),
        CstExpr::Loop { init_vars, body, .. } => init_vars_wf(init_vars@) && block_wf(body),
        CstExpr::Compose { lhs, rhs, .. } => expr_wf(*lhs) && expr_wf(*rhs),
        CstExpr::MemberAccess { object, members, .. } => members@.len() > 0 && expr_wf(*object),
        CstExpr::StructInit { fields, .. } => forall|i: int|
            0 <= i < fields@.len() ==> expr_wf(#[trigger] fields@[i].node.value),
        CstExpr::FieldAccess { object, .. } => expr_wf(*object),
        CstExpr::Array { elements, .. } => exprs_wf(elements@),
        CstExpr::ArrayIndex { array, indices, .. } => expr_wf(*array) && (forall|i: int|
            0 <= i < indices@.len() ==> index_wf(#[trigger] indices@[i].node)),
        CstExpr::Closure { body, .. } => match body {
            CstClosureBody::Expression(e) => expr_wf(*e),
            CstClosureBody::Block(b) => block_wf(b),
        },
    }
}

/// Every expression of the list is well formed.
pub open spec fn exprs_wf(cs: Seq<Spanned<CstExpr>>) -> bool
    decreases cs,
{
    forall|i: int| 0 <= i < cs.len() ==> expr_wf(#[trigger] cs[i])
}

/// Every expression argument of the list is well formed.
pub open spec fn call_args_wf(cs: Seq<Spanned<CstCallArgument>>) -> bool
    decreases cs,
{
    forall|i: int|
        0 <= i < cs.len() ==> match #[trigger] cs[i].node {
            CstCallArgument::Expr(e) => expr_wf(e),
            CstCallArgument::Hole(_) => true,
        }
}

/// Every initial value of the list is well formed.
pub open spec fn init_vars_wf(cs: Seq<CstLoopInit>) -> bool
    decreases cs,
{
    forall|i: int| 0 <= i < cs.len() ==> expr_wf(#[trigger] cs[i].2)
}

/// Every expression in the index specification is well formed.
pub open spec fn index_wf(c: CstIndexSpec) -> bool
    decreases c,
{
    match c {
        CstIndexSpec::Single(e) => expr_wf(e),
        CstIndexSpec::Range { start, end, step, .. } => (start matches Some(s) ==> expr_wf(s)) && (
        end matches Some(e) ==> expr_wf(e)) && (step matches Some(st) ==> expr_wf(st.1)),
        CstIndexSpec::InclusiveRange { start, end, .. } => (start matches Some(s) ==> expr_wf(s))
            && (end matches Some(e) ==> expr_wf(e)),
    }
}

/// Every statement of the block is well formed.
pub open spec fn block_wf(c: Spanned<CstBlock>) -> bool
    decreases c,
{
    forall|i: int| 0 <= i < c.node.statements@.len() ==> stmt_wf(#[trigger] c.node.statements@[i])
}

/// Every expression and block in the statement is well formed.
pub open spec fn stmt_wf(c: Spanned<CstStatement>) -> bool
    decreases c,
{
    match c.node {
        CstStatement::Mod { .. } => true,
        CstStatement::Let { expression, .. } => expr_wf(expression),
        CstStatement::Const { expression, .. } => expr_wf(expression),
        CstStatement::Assign { expression, .. } => expr_wf(expression),
        CstStatement::AssignIncrement { expression, .. } => expr_wf(expression),
        CstStatement::AssignDecrement { expression, .. } => expr_wf(expression),
        CstStatement::If { arms, else_block, .. } => (forall|i: int|
            0 <= i < arms@.len() ==> expr_wf(#[trigger] arms@[i].0) && block_wf(arms@[i].1)) && (
        else_block matches Some(b) ==> block_wf(b)),
        CstStatement::Match { expression, cases, .. } => expr_wf(expression) && (forall|i: int|
            0 <= i < cases@.len() ==> (#[trigger] cases@[i].0 matches Some(p) ==> expr_wf(p))
                && block_wf(cases@[i].1)),
        CstStatement::FunctionDeclaration { body, .. } => block_wf(body),
        CstStatement::Return { expression, .. } => expr_wf(expression),
        CstStatement::Loop { init_vars, body, .. } => init_vars_wf(init_vars@) && block_wf(body),
        CstStatement::While { condition, body, .. } => expr_wf(condition) && block_wf(body),
        CstStatement::For { start, end, body, .. } => expr_wf(start) && expr_wf(end) && block_wf(
            body,
        ),
        CstStatement::Break { expression, .. } => expression matches Some(e) ==> expr_wf(e),
        CstStatement::Continue { .. } => true,
        CstStatement::Use { .. } => true,
        CstStatement::Struct { .. } => true,
        CstStatement::Expression(e) => expr_wf(e),
    }
}

/// Every block of the program is well formed.
pub open spec fn program_wf(c: CstProgram) -> bool {
    forall|i: int| 0 <= i < c.blocks@.len() ==> block_wf(#[trigger] c.blocks@[i])
}

// ---------------------------------------------------------------------------
// The lowering relation: `a` is the AST that lowering builds from `c`
// ---------------------------------------------------------------------------

/// `a` is the lowering of expression `c`.
pub open spec fn expr_lowered(c: Spanned<CstExpr>, a: Expression) -> bool
    decreases c,
{
    match c.node {
        CstExpr::Literal(l) => a == Expression::Literal(spec_lower_literal(l.node)),
        CstExpr::Identifier(id) => a matches Expression::Identifier(x) && ident_lowered(id, x),
        CstExpr::FunctionCall { callee, arguments, .. } => if has_hole(arguments@) {
            a matches Expression::PartialCall { func, args } && expr_lowered(*callee, *func)
                && call_args_lowered(arguments@, args@)
        } else {
            a matches Expression::FunctionCall { callee: f, arguments: xs, cst_id } && cst_id
                == c.id && expr_lowered(*callee, *f) && plain_args_lowered(arguments@, xs@)
        },
        CstExpr::PartialCall { func, args, .. } => a matches Expression::PartialCall {
            func: f,
            args: xs,
        } && expr_lowered(*func, *f) && call_args_lowered(args@, xs@),
        CstExpr::Prefix { op, rhs } => a matches Expression::Prefix { op: o, rhs: r } && o
            == spec_lower_unary(op.node) && expr_lowered(*rhs, *r),
        CstExpr::Postfix { lhs, op } => a matches Expression::Postfix { lhs: l, op: o, args } && o
            == spec_lower_postfix(op.node) && args is None && expr_lowered(*lhs, *l),
        CstExpr::Infix { lhs, op, rhs } => a matches Expression::Infix { lhs: l, op: o, rhs: r }
            && o == spec_lower_binary(op.node) && expr_lowered(*lhs, *l) && expr_lowered(*rhs, *r),
        CstExpr::Group { inner, .. } => a matches Expression::Group(g) && expr_lowered(*inner, *g),
        CstExpr::Loop { init_vars, body, .. } => a matches Expression::Loop {
            init_vars: iv,
            body: b,
        } && init_vars_lowered(init_vars@, iv@) && block_lowered(body, b),
        CstExpr::Compose { lhs, op, rhs } => a matches Expression::Compose {
            lhs: l,
            rhs: r,
            reverse,
        } && reverse == (op.node == CstComposeOp::Reverse) && expr_lowered(*lhs, *l)
            && expr_lowered(*rhs, *r),
        CstExpr::MemberAccess { object, members, .. } => a matches Expression::MemberAccess {
            object: o,
            member: m,
            cst_id,
        } && cst_id == c.id && ident_lowered(members@.last(), m) && expr_lowered(*object, *o),
        CstExpr::StructInit { struct_name, fields, .. } => a matches Expression::StructInit {
            struct_name: n,
            fields: fs,
            cst_id,
        } && cst_id == c.id && ident_lowered(struct_name, n) && fs@.len() == fields@.len() && (
        forall|i: int|
            0 <= i < fields@.len() ==> ident_lowered(#[trigger] fields@[i].node.name, fs@[i].0)
                && expr_lowered(fields@[i].node.value, fs@[i].1)),
        CstExpr::FieldAccess { object, field, .. } => a matches Expression::FieldAccess {
            object: o,
            field: f,
            cst_id,
        } && cst_id == c.id && ident_lowered(field, f) && expr_lowered(*object, *o),
        CstExpr::Array { elements, .. } => a matches Expression::Array(xs) && exprs_lowered(
            elements@,
            xs@,
        ),
        CstExpr::ArrayIndex { array, indices, .. } => a matches Expression::ArrayIndex {
            array: arr,
            indices: is,
        } && expr_lowered(*array, *arr) && is@.len() == indices@.len() && (forall|i: int|
            0 <= i < indices@.len() ==> index_lowered(#[trigger] indices@[i].node, is@[i])),
        CstExpr::Closure { arguments, return_type_arrow, body, .. } => a matches Expression::Closure {
            arguments: xs,
            return_type,
            body: b,
        } && xs@.len() == arguments@.len() && (forall|i: int|
            0 <= i < arguments@.len() ==> ident_lowered(
                #[trigger] arguments@[i].node.identifier,
                xs@[i].identifier,
            ) && xs@[i].kind@ == closure_arg_kind(arguments@[i].node.type_annotation))
            && return_type == closure_return_type(return_type_arrow) && (match body {
            CstClosureBody::Expression(e) => b matches ClosureBody::Expression(x) && expr_lowered(
                *e,
                *x,
            ),
            CstClosureBody::Block(bl) => b matches ClosureBody::Block(x) && block_lowered(bl, x),
        }),
    }
}

/// `xs` is the element-wise lowering of `cs`.
pub open spec fn exprs_lowered(cs: Seq<Spanned<CstExpr>>, xs: Seq<Expression>) -> bool
    decreases cs,
{
    cs.len() == xs.len() && forall|i: int| 0 <= i < cs.len() ==> expr_lowered(#[trigger] cs[i], xs[i])
}

/// `xs` is the element-wise lowering of call arguments `cs`, holes included.
pub open spec fn call_args_lowered(cs: Seq<Spanned<CstCallArgument>>, xs: Seq<CallArgument>) -> bool
    decreases cs,
{
    cs.len() == xs.len() && forall|i: int|
        0 <= i < cs.len() ==> match #[trigger] cs[i].node {
            CstCallArgument::Expr(e) => xs[i] matches CallArgument::Expr(x) && expr_lowered(e, x),
            CstCallArgument::Hole(_) => xs[i] is Hole,
        }
}

/// `xs` is the element-wise lowering of call arguments `cs`, none of which is a hole.
pub open spec fn plain_args_lowered(cs: Seq<Spanned<CstCallArgument>>, xs: Seq<Expression>) -> bool
    decreases cs,
{
    cs.len() == xs.len() && forall|i: int|
        0 <= i < cs.len() ==> (#[trigger] cs[i].node matches CstCallArgument::Expr(e)
            && expr_lowered(e, xs[i]))
}

/// `xs` is the element-wise lowering of loop initialisations `cs`.
pub open spec fn init_vars_lowered(cs: Seq<CstLoopInit>, xs: Seq<(String, Expression)>) -> bool
    decreases cs,
{
    cs.len() == xs.len() && forall|i: int|
        0 <= i < cs.len() ==> xs[i].0 == (#[trigger] cs[i]).0.node && expr_lowered(cs[i].2, xs[i].1)
}

/// `a` is the lowering of index specification `c`.
pub open spec fn index_lowered(c: CstIndexSpec, a: IndexSpec) -> bool
    decreases c,
{
    match c {
        CstIndexSpec::Single(e) => a matches IndexSpec::Single(x) && expr_lowered(e, x),
        CstIndexSpec::Range { start, end, step, .. } => a matches IndexSpec::Range {
            start: s,
            end: e,
            step: st,
        } && (match start {
            Some(cs) => s matches Some(x) && expr_lowered(cs, x),
            None => s is None,
        }) && (match end {
            Some(ce) => e matches Some(x) && expr_lowered(ce, x),
            None => e is None,
        }) && (match step {
            Some(cst) => st matches Some(x) && expr_lowered(cst.1, x),
            None => st is None,
        }),
        CstIndexSpec::InclusiveRange { start, end, .. } => a matches IndexSpec::InclusiveRange {
            start: s,
            end: e,
        } && (match start {
            Some(cs) => s matches Some(x) && expr_lowered(cs, x),
            None => s is None,
        }) && (match end {
            Some(ce) => e matches Some(x) && expr_lowered(ce, x),
            None => e is None,
        }),
    }
}

/// `a` is the lowering of block `c`.
pub open spec fn block_lowered(c: Spanned<CstBlock>, a: Block) -> bool
    decreases c,
{
    a.statements@.len() == c.node.statements@.len() && forall|i: int|
        0 <= i < c.node.statements@.len() ==> stmt_lowered(
            #[trigger] c.node.statements@[i],
            a.statements@[i],
        )
}

/// `a` is the lowering of statement `c`.
pub open spec fn stmt_lowered(c: Spanned<CstStatement>, a: Statement) -> bool
    decreases c,
{
    match c.node {
        CstStatement::Mod { identifier } => a == Statement::Mod { identifier: identifier.node },
        CstStatement::Let { pub_keyword, identifier, type_annotation, expression, .. } => a matches Statement::Let {
            identifier: i,
            type_annotation: t,
            expression: e,
            pub_visibility: p,
        } && ident_lowered(identifier, i) && t == type_annotation_text(type_annotation) && p == (
        pub_keyword is Some) && expr_lowered(expression, e),
        CstStatement::Const { pub_keyword, identifier, expression, .. } => a matches Statement::Const {
            identifier: i,
            expression: e,
            pub_visibility: p,
        } && ident_lowered(identifier, i) && p == (pub_keyword is Some) && expr_lowered(
            expression,
            e,
        ),
        CstStatement::Assign { identifier, expression, .. } => a matches Statement::Assign {
            identifier: i,
            expression: e,
        } && i == identifier.node && expr_lowered(expression, e),
        CstStatement::AssignIncrement { identifier, expression, .. } => a matches Statement::AssignIncrement {
            identifier: i,
            expression: e,
        } && i == identifier.node && expr_lowered(expression, e),
        CstStatement::AssignDecrement { identifier, expression, .. } => a matches Statement::AssignDecrement {
            identifier: i,
            expression: e,
        } && i == identifier.node && expr_lowered(expression, e),
        CstStatement::If { arms, else_block, .. } => a matches Statement::If {
            arms: xs,
            else_block: eb,
        } && xs@.len() == arms@.len() && (forall|i: int|
            0 <= i < arms@.len() ==> expr_lowered(#[trigger] arms@[i].0, xs@[i].0) && block_lowered(
                arms@[i].1,
                xs@[i].1,
            )) && (match else_block {
            Some(b) => eb matches Some(x) && block_lowered(b, x),
            None => eb is None,
        }),
        CstStatement::Match { expression, cases, .. } => a matches Statement::Match {
            expression: e,
            cases: xs,
        } && expr_lowered(expression, e) && xs@.len() == cases@.len() && (forall|i: int|
            0 <= i < cases@.len() ==> match #[trigger] cases@[i].0 {
                Some(p) => xs@[i].0 matches Some(x) && expr_lowered(p, x),
                None => xs@[i].0 is None,
            } && block_lowered(cases@[i].1, xs@[i].1)),
        CstStatement::FunctionDeclaration {
            pub_keyword,
            identifier,
            arguments,
            return_type_arrow,
            body,
            ..
        } => a matches Statement::FunctionDeclaration {
            identifier: i,
            arguments: xs,
            return_type,
            body: b,
            pub_visibility: p,
            cst_id,
        } && ident_lowered(identifier, i) && xs@.len() == arguments@.len() && (forall|k: int|
            0 <= k < arguments@.len() ==> ident_lowered(
                #[trigger] arguments@[k].node.identifier,
                xs@[k].identifier,
            ) && xs@[k].kind == arguments@[k].node.type_annotation.node) && fn_return_type_lowered(
            return_type_arrow,
            return_type,
        ) && block_lowered(body, b) && p == (pub_keyword is Some) && cst_id == c.id,
        CstStatement::Return { expression, .. } => a matches Statement::Return { expression: e }
            && expr_lowered(expression, e),
        CstStatement::Loop { init_vars, body, .. } => a matches Statement::Loop {
            init_vars: iv,
            body: b,
        } && init_vars_lowered(init_vars@, iv@) && block_lowered(body, b),
        CstStatement::While { condition, body, .. } => a matches Statement::While {
            condition: e,
            body: b,
        } && expr_lowered(condition, e) && block_lowered(body, b),
        CstStatement::For { var_name, start, end, body, .. } => a matches Statement::For {
            var_name: v,
            start: s,
            end: e,
            body: b,
        } && v == var_name.node && expr_lowered(start, s) && expr_lowered(end, e) && block_lowered(
            body,
            b,
        ),
        CstStatement::Break { expression, .. } => a matches Statement::Break { expression: e }
            && (match expression {
            Some(ce) => e matches Some(x) && expr_lowered(ce, x),
            None => e is None,
        }),
        CstStatement::Continue { .. } => a is Continue,
        CstStatement::Use { selector, path, .. } => a matches Statement::Use { path: p, selector: s }
            && p@.len() == path@.len() && (forall|i: int|
            0 <= i < path@.len() ==> p@[i] == (#[trigger] path@[i]).node) && (match selector.node {
            CstImportSelector::Single(n) => s == ImportSelector::Single(n.node),
            CstImportSelector::Multiple(ns) => s matches ImportSelector::Multiple(xs) && xs@.len()
                == ns@.len() && (forall|i: int|
                0 <= i < ns@.len() ==> xs@[i] == (#[trigger] ns@[i]).node),
            CstImportSelector::Wildcard(_) => s is Wildcard,
        }),
        CstStatement::Struct { pub_keyword, name, fields, .. } => a matches Statement::Struct {
            name: n,
            fields: fs,
            pub_visibility: p,
        } && n == name.node && p == (pub_keyword is Some) && fs@.len() == fields@.len() && (forall|
            i: int,
        |
            0 <= i < fields@.len() ==> fs@[i].0 == (#[trigger] fields@[i]).node.name.node
                && fs@[i].1 == fields@[i].node.type_annotation.node),
        CstStatement::Expression(e) => a matches Statement::Expression(x) && expr_lowered(e, x),
    }
}

/// `a` is the lowering of program `c`.
pub open spec fn program_lowered(c: CstProgram, a: Program) -> bool {
    a.blocks@.len() == c.blocks@.len() && forall|i: int|
        0 <= i < c.blocks@.len() ==> block_lowered(#[trigger] c.blocks@[i], a.blocks@[i])
}

// ---------------------------------------------------------------------------
// Executable lowering
// ---------------------------------------------------------------------------

/// An AST identifier with the name and CST identity of `ident`.
pub fn make_ast_ident(ident: &Spanned<String>) -> (a: AstIdent)
    ensures
        ident_lowered(*ident, a),
{
    AstIdent { name: ident.node.clone(), cst_id: ident.id }
}

/// Lower a CST unary operator.
pub fn lower_unary_op(cst: CstUnaryOp) -> (r: UnaryOp)
    ensures
        r == spec_lower_unary(cst),
{
    match cst {
        CstUnaryOp::Neg => UnaryOp::Neg,
        CstUnaryOp::Increment => UnaryOp::Increment,
        CstUnaryOp::Decrement => UnaryOp::Decrement,
        CstUnaryOp::Not => UnaryOp::Not,
    }
}

/// Lower a CST postfix operator.
pub fn lower_postfix_op(cst: CstPostfixOp) -> (r: PostfixOp)
    ensures
        r == spec_lower_postfix(cst),
{
    match cst {
        CstPostfixOp::Invoke => PostfixOp::Invoke,
    }
}

/// Lower a CST binary operator.
pub fn lower_binary_op(cst: CstBinaryOp) -> (r: BinaryOp)
    ensures
        r == spec_lower_binary(cst),
{
    match cst {
        CstBinaryOp::Add => BinaryOp::Add,
        CstBinaryOp::Sub => BinaryOp::Sub,
        CstBinaryOp::Mul => BinaryOp::Mul,
        CstBinaryOp::Div => BinaryOp::Div,
        CstBinaryOp::Mod => BinaryOp::Mod,
        CstBinaryOp::Pow => BinaryOp::Pow,
        CstBinaryOp::Eq => BinaryOp::Eq,
        CstBinaryOp::Ne => BinaryOp::Ne,
        CstBinaryOp::Gt => BinaryOp::Gt,
        CstBinaryOp::Lt => BinaryOp::Lt,
        CstBinaryOp::Ge => BinaryOp::Ge,
        CstBinaryOp::Le => BinaryOp::Le,
        CstBinaryOp::And => BinaryOp::And,
        CstBinaryOp::Or => BinaryOp::Or,
    }
}

/// Lower a CST literal.
fn lower_literal(cst: &CstLiteral) -> (r: Literal)
    ensures
        r == spec_lower_literal(*cst),
{
    match cst {
        CstLiteral::String(s) => Literal::String(s.clone()),
        CstLiteral::Number(n) => Literal::Number(*n),
        CstLiteral::Boolean(b) => Literal::Boolean(*b),
    }
}

/// Whether some argument of a call is a hole.
fn any_hole(args: &Vec<Spanned<CstCallArgument>>) -> (b: bool)
    ensures
        b == has_hole(args@),
{
    let n = args.len();
    let mut i: usize = 0;
    while i < n
        invariant
            n == args@.len(),
            0 <= i <= n,
            forall|j: int| 0 <= j < i ==> !(args@[j].node is Hole),
        decreases n - i,
    {
        if let CstCallArgument::Hole(_) = &args[i].node {
            return true;
        }
        i += 1;
    }
    false
}

/// Lower a list of expressions.
#[verifier::loop_isolation(false)]
fn lower_exprs(cs: &Vec<Spanned<CstExpr>>) -> (xs: Vec<Expression>)
    requires
        exprs_wf(cs@),
    ensures
        exprs_lowered(cs@, xs@),
    decreases cs,
{
    let mut xs: Vec<Expression> = Vec::new();
    let n = cs.len();
    let mut i: usize = 0;
    while i < n
        invariant
            0 <= i <= n,
            xs@.len() == i,
            forall|j: int| 0 <= j < i ==> expr_lowered(#[trigger] cs@[j], xs@[j]),
        decreases n - i,
    {
        let x = lower_expr(&cs[i]);
        xs.push(x);
        i += 1;
    }
    xs
}

/// Lower call arguments, keeping holes.
#[verifier::loop_isolation(false)]
fn lower_call_args(cs: &Vec<Spanned<CstCallArgument>>) -> (xs: Vec<CallArgument>)
    requires
        call_args_wf(cs@),
    ensures
        call_args_lowered(cs@, xs@),
    decreases cs,
{
    let mut xs: Vec<CallArgument> = Vec::new();
    let n = cs.len();
    let mut i: usize = 0;
    while i < n
        invariant
            0 <= i <= n,
            xs@.len() == i,
            forall|j: int|
                0 <= j < i ==> match #[trigger] cs@[j].node {
                    CstCallArgument::Expr(e) => xs@[j] matches CallArgument::Expr(x)
                        && expr_lowered(e, x),
                    CstCallArgument::Hole(_) => xs@[j] is Hole,
                },
        decreases n - i,
    {
        match &cs[i].node {
            CstCallArgument::Expr(e) => {
                let x = lower_expr(e);
                xs.push(CallArgument::Expr(x));
            },
            CstCallArgument::Hole(_) => {
                xs.push(CallArgument::Hole);
            },
        }
        i += 1;
    }
    xs
}

/// Lower call arguments that contain no hole.
#[verifier::loop_isolation(false)]
fn lower_plain_args(cs: &Vec<Spanned<CstCallArgument>>) -> (xs: Vec<Expression>)
    requires
        call_args_wf(cs@),
        !has_hole(cs@),
    ensures
        plain_args_lowered(cs@, xs@),
    decreases cs,
{
    let mut xs: Vec<Expression> = Vec::new();
    let n = cs.len();
    let mut i: usize = 0;
    while i < n
        invariant
            0 <= i <= n,
            xs@.len() == i,
            forall|j: int|
                0 <= j < i ==> (#[trigger] cs@[j].node matches CstCallArgument::Expr(e)
                    && expr_lowered(e, xs@[j])),
        decreases n - i,
    {
        match &cs[i].node {
            CstCallArgument::Expr(e) => {
                let x = lower_expr(e);
                xs.push(x);
            },
            CstCallArgument::Hole(_) => {
                assert(has_hole(cs@));
                assert(false);
            },
        }
        i += 1;
    }
    xs
}

/// Lower loop initialisations to `(name, initial value)` pairs.
#[verifier::loop_isolation(false)]
fn lower_init_vars(cs: &Vec<CstLoopInit>) -> (xs: Vec<(String, Expression)>)
    requires
        init_vars_wf(cs@),
    ensures
        init_vars_lowered(cs@, xs@),
    decreases cs,
{
    let mut xs: Vec<(String, Expression)> = Vec::new();
    let n = cs.len();
    let mut i: usize = 0;
    while i < n
        invariant
            0 <= i <= n,
            xs@.len() == i,
            forall|j: int|
                0 <= j < i ==> xs@[j].0 == (#[trigger] cs@[j]).0.node && expr_lowered(
                    cs@[j].2,
                    xs@[j].1,
                ),
        decreases n - i,
    {
        let x = lower_expr(&cs[i].2);
        xs.push((cs[i].0.node.clone(), x));
        i += 1;
    }
    xs
}

/// Lower an optional expression.
fn lower_opt_expr(c: &Option<Spanned<CstExpr>>) -> (r: Option<Expression>)
    requires
        *c matches Some(e) ==> expr_wf(e),
    ensures
        match *c {
            Some(e) => r matches Some(x) && expr_lowered(e, x),
            None => r is None,
        },
    decreases c,
{
    match c {
        Some(e) => Some(lower_expr(e)),
        None => None,
    }
}

/// Lower a CST index specification.
fn lower_index_spec(c: &CstIndexSpec) -> (a: IndexSpec)
    requires
        index_wf(*c),
    ensures
        index_lowered(*c, a),
    decreases c,
{
    match c {
        CstIndexSpec::Single(e) => IndexSpec::Single(lower_expr(e)),
        CstIndexSpec::Range { start, end, step, .. } => {
            let s = lower_opt_expr(start);
            let e = lower_opt_expr(end);
            let st = match step {
                Some(st) => Some(lower_expr(&st.1)),
                None => None,
            };
            IndexSpec::Range { start: s, end: e, step: st }
        },
        CstIndexSpec::InclusiveRange { start, end, .. } => {
            let s = lower_opt_expr(start);
            let e = lower_opt_expr(end);
            IndexSpec::InclusiveRange { start: s, end: e }
        },
    }
}

/// Lower a CST expression.
#[verifier::loop_isolation(false)]
fn lower_expr(cst: &Spanned<CstExpr>) -> (a: Expression)
    requires
        expr_wf(*cst),
    ensures
        expr_lowered(*cst, a),
    decreases cst,
{
    match &cst.node {
        CstExpr::Literal(lit) => Expression::Literal(lower_literal(&lit.node)),
        CstExpr::Identifier(id) => Expression::Identifier(make_ast_ident(id)),
        CstExpr::FunctionCall { callee, arguments, .. } => {
            if any_hole(arguments) {
                let args = lower_call_args(arguments);
                let func = lower_expr(callee);
                Expression::PartialCall { func: Box::new(func), args }
            } else {
                let xs = lower_plain_args(arguments);
                let f = lower_expr(callee);
                Expression::FunctionCall { callee: Box::new(f), arguments: xs, cst_id: cst.id }
            }
        },
        CstExpr::PartialCall { func, args, .. } => {
            let xs = lower_call_args(args);
            let f = lower_expr(func);
            Expression::PartialCall { func: Box::new(f), args: xs }
        },
        CstExpr::Prefix { op, rhs } => {
            let r = lower_expr(rhs);
            Expression::Prefix { op: lower_unary_op(op.node), rhs: Box::new(r) }
        },
        CstExpr::Postfix { lhs, op } => {
            let l = lower_expr(lhs);
            Expression::Postfix { lhs: Box::new(l), op: lower_postfix_op(op.node), args: None }
        },
        CstExpr::Infix { lhs, op, rhs } => {
            let l = lower_expr(lhs);
            let r = lower_expr(rhs);
            Expression::Infix { lhs: Box::new(l), op: lower_binary_op(op.node), rhs: Box::new(r) }
        },
        CstExpr::Group { inner, .. } => {
            let g = lower_expr(inner);
            Expression::Group(Box::new(g))
        },
        CstExpr::Loop { init_vars, body, .. } => {
            let iv = lower_init_vars(init_vars);
            let b = lower_block(body);
            Expression::Loop { init_vars: iv, body: b }
        },
        CstExpr::Compose { lhs, op, rhs } => {
            let l = lower_expr(lhs);
            let r = lower_expr(rhs);
            let reverse = match op.node {
                CstComposeOp::Reverse => true,
                CstComposeOp::Forward => false,
            };
            Expression::Compose { lhs: Box::new(l), rhs: Box::new(r), reverse }
        },
        CstExpr::MemberAccess { object, members, .. } => {
            let last_member = &members[members.len() - 1];
            let o = lower_expr(object);
            Expression::MemberAccess {
                object: Box::new(o),
                member: make_ast_ident(last_member),
                cst_id: cst.id,
            }
        },
        CstExpr::StructInit { struct_name, fields, .. } => {
            let mut xs: Vec<(AstIdent, Expression)> = Vec::new();
            let n = fields.len();
            let mut i: usize = 0;
            while i < n
                invariant
                    0 <= i <= n,
                    n == fields@.len(),
                    xs@.len() == i,
                    forall|j: int|
                        0 <= j < i ==> ident_lowered(#[trigger] fields@[j].node.name, xs@[j].0)
                            && expr_lowered(fields@[j].node.value, xs@[j].1),
                decreases n - i,
            {
                let v = lower_expr(&fields[i].node.value);
                xs.push((make_ast_ident(&fields[i].node.name), v));
                i += 1;
            }
            Expression::StructInit {
                struct_name: make_ast_ident(struct_name),
                fields: xs,
                cst_id: cst.id,
            }
        },
        CstExpr::FieldAccess { object, field, .. } => {
            let o = lower_expr(object);
            Expression::FieldAccess { object: Box::new(o), field: make_ast_ident(field), cst_id: cst.id }
        },
        CstExpr::Array { elements, .. } => Expression::Array(lower_exprs(elements)),
        CstExpr::ArrayIndex { array, indices, .. } => {
            let mut xs: Vec<IndexSpec> = Vec::new();
            let n = indices.len();
            let mut i: usize = 0;
            while i < n
                invariant
                    0 <= i <= n,
                    n == indices@.len(),
                    xs@.len() == i,
                    forall|j: int| 0 <= j < i ==> index_lowered(#[trigger] indices@[j].node, xs@[j]),
                decreases n - i,
            {
                let x = lower_index_spec(&indices[i].node);
                xs.push(x);
                i += 1;
            }
            let arr = lower_expr(array);
            Expression::ArrayIndex { array: Box::new(arr), indices: xs }
        },
        CstExpr::Closure { arguments, return_type_arrow, body, .. } => {
            let mut xs: Vec<Argument> = Vec::new();
            let n = arguments.len();
            let mut i: usize = 0;
            while i < n
                invariant
                    0 <= i <= n,
                    n == arguments@.len(),
                    xs@.len() == i,
                    forall|j: int|
                        0 <= j < i ==> ident_lowered(
                            #[trigger] arguments@[j].node.identifier,
                            xs@[j].identifier,
                        ) && xs@[j].kind@ == closure_arg_kind(arguments@[j].node.type_annotation),
                decreases n - i,
            {
                let kind = match &arguments[i].node.type_annotation {
                    Some(t) => t.node.clone(),
                    None => String::new(),
                };
                assert(kind@ == closure_arg_kind(arguments@[i as int].node.type_annotation));
                xs.push(Argument { identifier: make_ast_ident(&arguments[i].node.identifier), kind });
                i += 1;
            }
            let return_type = match return_type_arrow {
                Some(rta) => Some(rta.node.type_annotation.node.clone()),
                None => None,
            };
            let b = match body {
                CstClosureBody::Expression(e) => ClosureBody::Expression(Box::new(lower_expr(e))),
                CstClosureBody::Block(bl) => ClosureBody::Block(lower_block(bl)),
            };
            Expression::Closure { arguments: xs, return_type, body: b }
        },
    }
}

/// Lower a CST block.
#[verifier::loop_isolation(false)]
fn lower_block(cst: &Spanned<CstBlock>) -> (a: Block)
    requires
        block_wf(*cst),
    ensures
        block_lowered(*cst, a),
    decreases cst,
{
    let mut statements: Vec<Statement> = Vec::new();
    let n = cst.node.statements.len();
    let mut i: usize = 0;
    while i < n
        invariant
            0 <= i <= n,
            n == cst.node.statements@.len(),
            statements@.len() == i,
            forall|j: int|
                0 <= j < i ==> stmt_lowered(#[trigger] cst.node.statements@[j], statements@[j]),
        decreases n - i,
    {
        let st = lower_statement(&cst.node.statements[i]);
        statements.push(st);
        i += 1;
    }
    Block { statements }
}

/// Lower a list of names to their strings.
fn lower_names(cs: &Vec<Spanned<String>>) -> (xs: Vec<String>)
    ensures
        xs@.len() == cs@.len(),
        forall|i: int| 0 <= i < cs@.len() ==> xs@[i] == (#[trigger] cs@[i]).node,
{
    let mut xs: Vec<String> = Vec::new();
    let n = cs.len();
    let mut i: usize = 0;
    while i < n
        invariant
            0 <= i <= n,
            n == cs@.len(),
            xs@.len() == i,
            forall|j: int| 0 <= j < i ==> xs@[j] == (#[trigger] cs@[j]).node,
        decreases n - i,
    {
        xs.push(cs[i].node.clone());
        i += 1;
    }
    xs
}

/// The return type text of a function: the arrow, a space and the type.
fn fn_return_type(r: &Option<Spanned<ReturnTypeArrow>>) -> (a: Option<String>)
    ensures
        fn_return_type_lowered(*r, a),
{
    match r {
        Some(rta) => {
            let mut s = String::new();
            if rta.node.is_effectful {
                proof {
                    reveal_strlit("~> ");
                }
                s.append("~> ");
            } else {
                proof {
                    reveal_strlit("-> ");
                }
                s.append("-> ");
            }
            s.append(rta.node.type_annotation.node.as_str());
            assert(s@ =~= arrow_text(rta.node.is_effectful) + rta.node.type_annotation.node@);
            Some(s)
        },
        None => None,
    }
}

/// Lower a CST statement.
#[verifier::loop_isolation(false)]
fn lower_statement(cst: &Spanned<CstStatement>) -> (a: Statement)
    requires
        stmt_wf(*cst),
    ensures
        stmt_lowered(*cst, a),
    decreases cst,
{
    match &cst.node {
        CstStatement::Mod { identifier } => Statement::Mod { identifier: identifier.node.clone() },
        CstStatement::Let { pub_keyword, identifier, type_annotation, expression, .. } => {
            let e = lower_expr(expression);
            let t = match type_annotation {
                Some(t) => Some(t.node.clone()),
                None => None,
            };
            Statement::Let {
                identifier: make_ast_ident(identifier),
                type_annotation: t,
                expression: e,
                pub_visibility: pub_keyword.is_some(),
            }
        },
        CstStatement::Const { pub_keyword, identifier, expression, .. } => {
            let e = lower_expr(expression);
            Statement::Const {
                identifier: make_ast_ident(identifier),
                expression: e,
                pub_visibility: pub_keyword.is_some(),
            }
        },
        CstStatement::Assign { identifier, expression, .. } => {
            let e = lower_expr(expression);
            Statement::Assign { identifier: identifier.node.clone(), expression: e }
        },
        CstStatement::AssignIncrement { identifier, expression, .. } => {
            let e = lower_expr(expression);
            Statement::AssignIncrement { identifier: identifier.node.clone(), expression: e }
        },
        CstStatement::AssignDecrement { identifier, expression, .. } => {
            let e = lower_expr(expression);
            Statement::AssignDecrement { identifier: identifier.node.clone(), expression: e }
        },
        CstStatement::If { arms, else_block, .. } => {
            let mut xs: Vec<(Expression, Block)> = Vec::new();
            let n = arms.len();
            let mut i: usize = 0;
            while i < n
                invariant
                    0 <= i <= n,
                    n == arms@.len(),
                    xs@.len() == i,
                    forall|j: int|
                        0 <= j < i ==> expr_lowered(#[trigger] arms@[j].0, xs@[j].0)
                            && block_lowered(arms@[j].1, xs@[j].1),
                decreases n - i,
            {
                assert(expr_wf(arms@[i as int].0));
                let b = lower_block(&arms[i].1);
                let c = lower_expr(&arms[i].0);
                xs.push((c, b));
                i += 1;
            }
            let eb = match else_block {
                Some(b) => Some(lower_block(b)),
                None => None,
            };
            Statement::If { arms: xs, else_block: eb }
        },
        CstStatement::Match { expression, cases, .. } => {
            let mut xs: Vec<(Option<Expression>, Block)> = Vec::new();
            let n = cases.len();
            let mut i: usize = 0;
            while i < n
                invariant
                    0 <= i <= n,
                    n == cases@.len(),
                    xs@.len() == i,
                    forall|j: int|
                        0 <= j < i ==> (match #[trigger] cases@[j].0 {
                            Some(p) => xs@[j].0 matches Some(x) && expr_lowered(p, x),
                            None => xs@[j].0 is None,
                        }) && block_lowered(cases@[j].1, xs@[j].1),
                decreases n - i,
            {
                assert(cases@[i as int].0 matches Some(p) ==> expr_wf(p));
                let b = lower_block(&cases[i].1);
                let p = lower_opt_expr(&cases[i].0);
                xs.push((p, b));
                i += 1;
            }
            let e = lower_expr(expression);
            Statement::Match { expression: e, cases: xs }
        },
        CstStatement::FunctionDeclaration {
            pub_keyword,
            identifier,
            arguments,
            return_type_arrow,
            body,
            ..
        } => {
            let mut xs: Vec<Argument> = Vec::new();
            let n = arguments.len();
            let mut i: usize = 0;
            while i < n
                invariant
                    0 <= i <= n,
                    n == arguments@.len(),
                    xs@.len() == i,
                    forall|k: int|
                        0 <= k < i ==> ident_lowered(
                            #[trigger] arguments@[k].node.identifier,
                            xs@[k].identifier,
                        ) && xs@[k].kind == arguments@[k].node.type_annotation.node,
                decreases n - i,
            {
                xs.push(
                    Argument {
                        identifier: make_ast_ident(&arguments[i].node.identifier),
                        kind: arguments[i].node.type_annotation.node.clone(),
                    },
                );
                i += 1;
            }
            let return_type = fn_return_type(return_type_arrow);
            let b = lower_block(body);
            Statement::FunctionDeclaration {
                identifier: make_ast_ident(identifier),
                arguments: xs,
                return_type,
                body: b,
                pub_visibility: pub_keyword.is_some(),
                cst_id: cst.id,
            }
        },
        CstStatement::Return { expression, .. } => Statement::Return {
            expression: lower_expr(expression),
        },
        CstStatement::Loop { init_vars, body, .. } => {
            let iv = lower_init_vars(init_vars);
            let b = lower_block(body);
            Statement::Loop { init_vars: iv, body: b }
        },
        CstStatement::While { condition, body, .. } => {
            let b = lower_block(body);
            let c = lower_expr(condition);
            Statement::While { condition: c, body: b }
        },
        CstStatement::For { var_name, start, end, body, .. } => {
            let b = lower_block(body);
            let s = lower_expr(start);
            let e = lower_expr(end);
            Statement::For { var_name: var_name.node.clone(), start: s, end: e, body: b }
        },
        CstStatement::Break { expression, .. } => Statement::Break {
            expression: lower_opt_expr(expression),
        },
        CstStatement::Continue { .. } => Statement::Continue,
        CstStatement::Use { selector, path, .. } => {
            let s = match &selector.node {
                CstImportSelector::Single(name) => ImportSelector::Single(name.node.clone()),
                CstImportSelector::Multiple(names) => ImportSelector::Multiple(lower_names(names)),
                CstImportSelector::Wildcard(_) => ImportSelector::Wildcard,
            };
            Statement::Use { path: lower_names(path), selector: s }
        },
        CstStatement::Struct { pub_keyword, name, fields, .. } => {
            let mut fs: Vec<(String, String)> = Vec::new();
            let n = fields.len();
            let mut i: usize = 0;
            while i < n
                invariant
                    0 <= i <= n,
                    n == fields@.len(),
                    fs@.len() == i,
                    forall|j: int|
                        0 <= j < i ==> fs@[j].0 == (#[trigger] fields@[j]).node.name.node
                            && fs@[j].1 == fields@[j].node.type_annotation.node,
                decreases n - i,
            {
                fs.push(
                    (fields[i].node.name.node.clone(), fields[i].node.type_annotation.node.clone()),
                );
                i += 1;
            }
            Statement::Struct {
                name: name.node.clone(),
                fields: fs,
                pub_visibility: pub_keyword.is_some(),
            }
        },
        CstStatement::Expression(e) => Statement::Expression(lower_expr(e)),
    }
}

// ---------------------------------------------------------------------------
// Documentation of top-level declarations
// ---------------------------------------------------------------------------

/// The documentation recorded for `span`: the last entry with that span, as a
/// map would hold it after inserting the entries in order.
pub open spec fn doc_lookup(docs: Seq<(Span, DocBlock)>, span: Span) -> Option<DocBlock>
    decreases docs.len(),
{
    if docs.len() == 0 {
        None
    } else if docs.last().0 == span {
        Some(docs.last().1)
    } else {
        doc_lookup(docs.drop_last(), span)
    }
}

/// The declared name of a statement whose documentation is kept: modules,
/// `let`, `const`, functions and structs.
pub open spec fn stmt_doc_key(c: CstStatement) -> Option<Spanned<String>> {
    match c {
        CstStatement::Mod { identifier } => Some(identifier),
        CstStatement::Let { identifier, .. } => Some(identifier),
        CstStatement::Const { identifier, .. } => Some(identifier),
        CstStatement::FunctionDeclaration { identifier, .. } => Some(identifier),
        CstStatement::Struct { name, .. } => Some(name),
        _ => None,
    }
}

/// The documentation of one statement, keyed by its declared name.
pub open spec fn stmt_doc(c: CstStatement, docs: Seq<(Span, DocBlock)>) -> Seq<(Seq<char>, DocBlock)> {
    match stmt_doc_key(c) {
        Some(k) => match doc_lookup(docs, k.span) {
            Some(d) => seq![(k.node@, d)],
            None => Seq::empty(),
        },
        None => Seq::empty(),
    }
}

/// The documentation of a list of statements, in order.
pub open spec fn stmts_docs(stmts: Seq<Spanned<CstStatement>>, docs: Seq<(Span, DocBlock)>) -> Seq<
    (Seq<char>, DocBlock),
>
    decreases stmts.len(),
{
    if stmts.len() == 0 {
        Seq::empty()
    } else {
        stmts_docs(stmts.drop_last(), docs) + stmt_doc(stmts.last().node, docs)
    }
}

/// The documentation of the top-level statements of a list of blocks, in order.
pub open spec fn blocks_docs(blocks: Seq<Spanned<CstBlock>>, docs: Seq<(Span, DocBlock)>) -> Seq<
    (Seq<char>, DocBlock),
>
    decreases blocks.len(),
{
    if blocks.len() == 0 {
        Seq::empty()
    } else {
        blocks_docs(blocks.drop_last(), docs) + stmts_docs(blocks.last().node.statements@, docs)
    }
}

/// The collected pairs `out` hold the names and documentation of `expected`.
pub open spec fn docs_match(out: Seq<(String, DocBlock)>, expected: Seq<(Seq<char>, DocBlock)>) -> bool {
    out.len() == expected.len() && forall|i: int|
        0 <= i < out.len() ==> (#[trigger] out[i]).0@ == expected[i].0 && out[i].1.same_as(
            &expected[i].1,
        )
}

/// Matching lists concatenate into matching lists.
proof fn lemma_docs_match_concat(
    a1: Seq<(String, DocBlock)>,
    e1: Seq<(Seq<char>, DocBlock)>,
    a2: Seq<(String, DocBlock)>,
    e2: Seq<(Seq<char>, DocBlock)>,
)
    requires
        docs_match(a1, e1),
        docs_match(a2, e2),
    ensures
        docs_match(a1 + a2, e1 + e2),
{
    assert forall|i: int| 0 <= i < (a1 + a2).len() implies (#[trigger] (a1 + a2)[i]).0@ == (e1
        + e2)[i].0 && (a1 + a2)[i].1.same_as(&(e1 + e2)[i].1) by {
        if i < a1.len() {
            assert((a1 + a2)[i] == a1[i]);
        } else {
            assert((a1 + a2)[i] == a2[i - a1.len()]);
        }
    }
}

/// A copy of the documentation recorded for `span`.
fn find_doc(docs: &Vec<(Span, DocBlock)>, span: Span) -> (r: Option<DocBlock>)
    ensures
        match (r, doc_lookup(docs@, span)) {
            (Some(a), Some(b)) => a.same_as(&b),
            (None, None) => true,
            _ => false,
        },
{
    let mut i = docs.len();
    assert(docs@.subrange(0, i as int) =~= docs@);
    while i > 0
        invariant
            i <= docs@.len(),
            doc_lookup(docs@, span) == doc_lookup(docs@.subrange(0, i as int), span),
        decreases i,
    {
        assert(docs@.subrange(0, i as int).drop_last() =~= docs@.subrange(0, i - 1));
        if docs[i - 1].0 == span {
            return Some(docs[i - 1].1.copy());
        }
        i -= 1;
    }
    None
}

/// Append the documentation of the statements of a block to `out`.
fn collect_block_docs(
    block: &Spanned<CstBlock>,
    docs: &Vec<(Span, DocBlock)>,
    out: &mut Vec<(String, DocBlock)>,
)
    ensures
        final(out)@.len() >= old(out)@.len(),
        final(out)@.subrange(0, old(out)@.len() as int) == old(out)@,
        docs_match(
            final(out)@.subrange(old(out)@.len() as int, final(out)@.len() as int),
            stmts_docs(block.node.statements@, docs@),
        ),
{
    let ghost start = out@.len();
    let stmts = &block.node.statements;
    let n = stmts.len();
    let mut i: usize = 0;
    while i < n
        invariant
            0 <= i <= n,
            n == stmts@.len(),
            start == old(out)@.len(),
            out@.len() >= start,
            out@.subrange(0, start as int) == old(out)@,
            docs_match(
                out@.subrange(start as int, out@.len() as int),
                stmts_docs(stmts@.subrange(0, i as int), docs@),
            ),
        decreases n - i,
    {
        let ghost before = out@;
        assert(stmts@.subrange(0, i + 1).drop_last() =~= stmts@.subrange(0, i as int));
        let key: Option<&Spanned<String>> = match &stmts[i].node {
            CstStatement::Mod { identifier } => Some(identifier),
            CstStatement::Let { identifier, .. } => Some(identifier),
            CstStatement::Const { identifier, .. } => Some(identifier),
            CstStatement::FunctionDeclaration { identifier, .. } => Some(identifier),
            CstStatement::Struct { name, .. } => Some(name),
            _ => None,
        };
        if let Some(k) = key {
            if let Some(d) = find_doc(docs, k.span) {
                out.push((k.node.clone(), d));
            }
        }
        assert(out@.subrange(0, start as int) =~= old(out)@);
        assert(out@.subrange(start as int, out@.len() as int) =~= before.subrange(
            start as int,
            before.len() as int,
        ) + out@.subrange(before.len() as int, out@.len() as int));
        proof {
            assert(docs_match(
                out@.subrange(before.len() as int, out@.len() as int),
                stmt_doc(stmts@[i as int].node, docs@),
            ));
            lemma_docs_match_concat(
                before.subrange(start as int, before.len() as int),
                stmts_docs(stmts@.subrange(0, i as int), docs@),
                out@.subrange(before.len() as int, out@.len() as int),
                stmt_doc(stmts@[i as int].node, docs@),
            );
        }
        i += 1;
    }
    assert(stmts@.subrange(0, n as int) =~= stmts@);
}

/// Lower a CST program to an AST program, together with the documentation of
/// the top-level declarations keyed by declared name (in order; for a name
/// declared twice, the later entry is the one a map would keep).
///
/// `cst_docs` holds the documentation blocks keyed by declaration span; for a
/// span listed twice the later entry counts. Every member access in the
/// program must name at least one member.
pub fn lower_cst_to_ast(cst: CstProgram, cst_docs: Vec<(Span, DocBlock)>) -> (r: Result<
    (Program, Vec<(String, DocBlock)>),
    String,
>)
    requires
        program_wf(cst),
    ensures
        r matches Ok((p, d)) && program_lowered(cst, p) && docs_match(
            d@,
            blocks_docs(cst.blocks@, cst_docs@),
        ),
{
    let mut blocks: Vec<Block> = Vec::new();
    let mut docs_by_name: Vec<(String, DocBlock)> = Vec::new();
    let n = cst.blocks.len();
    let mut i: usize = 0;
    while i < n
        invariant
            0 <= i <= n,
            n == cst.blocks@.len(),
            program_wf(cst),
            blocks@.len() == i,
            forall|j: int| 0 <= j < i ==> block_lowered(#[trigger] cst.blocks@[j], blocks@[j]),
            docs_match(docs_by_name@, blocks_docs(cst.blocks@.subrange(0, i as int), cst_docs@)),
        decreases n - i,
    {
        let ghost before = docs_by_name@;
        assert(block_wf(cst.blocks@[i as int]));
        let b = lower_block(&cst.blocks[i]);
        collect_block_docs(&cst.blocks[i], &cst_docs, &mut docs_by_name);
        assert(cst.blocks@.subrange(0, i + 1).drop_last() =~= cst.blocks@.subrange(0, i as int));
        assert(docs_by_name@ =~= before + docs_by_name@.subrange(
            before.len() as int,
            docs_by_name@.len() as int,
        ));
        proof {
            lemma_docs_match_concat(
                before,
                blocks_docs(cst.blocks@.subrange(0, i as int), cst_docs@),
                docs_by_name@.subrange(before.len() as int, docs_by_name@.len() as int),
                stmts_docs(cst.blocks@[i as int].node.statements@, cst_docs@),
            );
        }
        blocks.push(b);
        i += 1;
    }
    assert(cst.blocks@.subrange(0, n as int) =~= cst.blocks@);
    Ok((Program { blocks }, docs_by_name))
}

} // verus!
