//! Source spans of CST nodes, collected for the language server: the span of
//! each node by its CST identity, and the spans of each identifier by name.
use vstd::prelude::*;
use std::collections::HashMap;
use crate::span::{Span, Spanned};
use crate::hir::HirSpan;
use crate::cst::{
    CstProgram, CstBlock, CstStatement, CstExpr, CstCallArgument, CstIndexSpec, CstClosureBody,
    CstClosureArg, CstArgument, CstStructField, CstLoopInit, CstStructInitField, CstImportSelector,
    ReturnTypeArrow,
};

verus! {

broadcast use {vstd::std_specs::vec::axiom_vec_index_decreases, vstd::std_specs::hash::group_hash_axioms};

/// The identity and span of a node.
pub open spec fn entry<T>(s: Spanned<T>) -> (u32, Span) {
    (s.id.0, s.span)
}

/// The span of a name.
pub open spec fn name_nodes(n: Spanned<String>) -> Seq<(u32, Span)> {
    seq![entry(n)]
}

/// The span of an optional name.
pub open spec fn opt_name_nodes(n: Option<Spanned<String>>) -> Seq<(u32, Span)> {
    match n {
        Some(x) => seq![entry(x)],
        None => Seq::empty(),
    }
}

/// The spans of an optional return type arrow: the arrow, then its type.
pub open spec fn arrow_nodes(a: Option<Spanned<ReturnTypeArrow>>) -> Seq<(u32, Span)> {
    match a {
        Some(x) => seq![entry(x), entry(x.node.type_annotation)],
        None => Seq::empty(),
    }
}

/// The spans of every node of an expression, in visiting order: its own,
/// then those of its parts from left to right: sub-expressions, operators,
/// literals, names, arguments, fields, index specifications and blocks.
pub open spec fn expr_nodes(e: Spanned<CstExpr>) -> Seq<(u32, Span)>
    decreases e, 0nat,
{
    seq![entry(e)] + match e.node {
        CstExpr::Literal(l) => seq![entry(l)],
        CstExpr::Identifier(n) => seq![entry(n)],
        CstExpr::FunctionCall { callee, arguments, .. } => expr_nodes(*callee) + call_args_nodes(arguments@),
        CstExpr::PartialCall { func, args, .. } => expr_nodes(*func) + call_args_nodes(args@),
        CstExpr::Prefix { op, rhs } => seq![entry(op)] + expr_nodes(*rhs),
        CstExpr::Postfix { lhs, op } => expr_nodes(*lhs) + seq![entry(op)],
        CstExpr::Infix { lhs, op, rhs } => expr_nodes(*lhs) + seq![entry(op)] + expr_nodes(*rhs),
        CstExpr::Group { inner, .. } => expr_nodes(*inner),
        CstExpr::Loop { init_vars, body, .. } => inits_nodes(init_vars@) + block_nodes(body),
        CstExpr::Compose { lhs, op, rhs } => expr_nodes(*lhs) + seq![entry(op)] + expr_nodes(*rhs),
        CstExpr::MemberAccess { object, members, .. } => expr_nodes(*object) + names_nodes(members@),
        CstExpr::StructInit { struct_name, fields, .. } => seq![entry(struct_name)] + init_fields_nodes(fields@),
        CstExpr::FieldAccess { object, field, .. } => expr_nodes(*object) + seq![entry(field)],
        CstExpr::Array { elements, .. } => exprs_nodes(elements@),
        CstExpr::ArrayIndex { array, indices, .. } => expr_nodes(*array) + indices_nodes(indices@),
        CstExpr::Closure { arguments, return_type_arrow, body, .. } => closure_args_nodes(arguments@)
            + arrow_nodes(return_type_arrow) + match body {
            CstClosureBody::Expression(b) => expr_nodes(*b),
            CstClosureBody::Block(blk) => block_nodes(blk),
        },
    }
}

/// The spans of an optional expression.
pub open spec fn opt_nodes(e: Option<Spanned<CstExpr>>) -> Seq<(u32, Span)>
    decreases e, 0nat,
{
    match e {
        Some(x) => expr_nodes(x),
        None => Seq::empty(),
    }
}

/// The spans of a call argument: its own, then its expression's.
pub open spec fn call_arg_nodes(a: Spanned<CstCallArgument>) -> Seq<(u32, Span)>
    decreases a, 0nat,
{
    seq![entry(a)] + match a.node {
        CstCallArgument::Expr(e) => expr_nodes(e),
        CstCallArgument::Hole(_) => Seq::empty(),
    }
}

/// The spans of an index specification: its own, then those of its
/// expressions (start, end and step of a range).
pub open spec fn index_nodes(i: Spanned<CstIndexSpec>) -> Seq<(u32, Span)>
    decreases i, 0nat,
{
    seq![entry(i)] + match i.node {
        CstIndexSpec::Single(e) => expr_nodes(e),
        CstIndexSpec::Range { start, end, step, .. } => opt_nodes(start) + opt_nodes(end) + match step {
            Some(st) => expr_nodes(st.1),
            None => Seq::empty(),
        },
        CstIndexSpec::InclusiveRange { start, end, .. } => opt_nodes(start) + opt_nodes(end),
    }
}

/// The spans of a loop variable initialisation: the variable, then its
/// initial value.
pub open spec fn init_nodes(init: CstLoopInit) -> Seq<(u32, Span)>
    decreases init, 0nat,
{
    seq![entry(init.0)] + expr_nodes(init.2)
}

/// The spans of a struct literal field: its own, its name, then its value.
pub open spec fn init_field_nodes(f: Spanned<CstStructInitField>) -> Seq<(u32, Span)>
    decreases f, 0nat,
{
    seq![entry(f), entry(f.node.name)] + expr_nodes(f.node.value)
}

/// The spans of a closure argument: its own, its name, then its type.
pub open spec fn closure_arg_nodes(a: Spanned<CstClosureArg>) -> Seq<(u32, Span)> {
    seq![entry(a), entry(a.node.identifier)] + opt_name_nodes(a.node.type_annotation)
}

/// The spans of a function argument: its own, its name, then its type.
pub open spec fn fn_arg_nodes(a: Spanned<CstArgument>) -> Seq<(u32, Span)> {
    seq![entry(a), entry(a.node.identifier), entry(a.node.type_annotation)]
}

/// The spans of a struct field declaration: its own, its name, then its type.
pub open spec fn struct_field_nodes(f: Spanned<CstStructField>) -> Seq<(u32, Span)> {
    seq![entry(f), entry(f.node.name), entry(f.node.type_annotation)]
}

/// The spans of an import selector: its own, then the names it selects.
pub open spec fn selector_nodes(s: Spanned<CstImportSelector>) -> Seq<(u32, Span)> {
    seq![entry(s)] + match s.node {
        CstImportSelector::Single(n) => seq![entry(n)],
        CstImportSelector::Multiple(ns) => names_nodes(ns@),
        CstImportSelector::Wildcard(_) => Seq::empty(),
    }
}

/// The spans of an `if` arm: its condition, then its block.
pub open spec fn arm_nodes(arm: (Spanned<CstExpr>, Spanned<CstBlock>)) -> Seq<(u32, Span)>
    decreases arm, 0nat,
{
    expr_nodes(arm.0) + block_nodes(arm.1)
}

/// The spans of a `match` case: its pattern, then its block.
pub open spec fn case_nodes(case: (Option<Spanned<CstExpr>>, Spanned<CstBlock>)) -> Seq<(u32, Span)>
    decreases case, 0nat,
{
    opt_nodes(case.0) + block_nodes(case.1)
}

/// The spans of an optional block.
pub open spec fn opt_block_nodes(b: Option<Spanned<CstBlock>>) -> Seq<(u32, Span)>
    decreases b, 0nat,
{
    match b {
        Some(x) => block_nodes(x),
        None => Seq::empty(),
    }
}

/// The spans of every node inside a statement, in visiting order.
pub open spec fn stmt_body_nodes(s: CstStatement) -> Seq<(u32, Span)>
    decreases s, 0nat,
{
    match s {
        CstStatement::Mod { identifier } => seq![entry(identifier)],
        CstStatement::Let { identifier, type_annotation, expression, .. } => seq![entry(identifier)]
            + opt_name_nodes(type_annotation) + expr_nodes(expression),
        CstStatement::Const { identifier, expression, .. } => seq![entry(identifier)] + expr_nodes(expression),
        CstStatement::Assign { identifier, expression, .. } => seq![entry(identifier)] + expr_nodes(expression),
        CstStatement::AssignIncrement { identifier, expression, .. } => seq![entry(identifier)] + expr_nodes(
            expression,
        ),
        CstStatement::AssignDecrement { identifier, expression, .. } => seq![entry(identifier)] + expr_nodes(
            expression,
        ),
        CstStatement::If { arms, else_block, .. } => arms_nodes(arms@) + opt_block_nodes(else_block),
        CstStatement::Match { expression, cases, .. } => expr_nodes(expression) + cases_nodes(cases@),
        CstStatement::FunctionDeclaration { identifier, arguments, return_type_arrow, body, .. } => seq![
            entry(identifier),
        ] + fn_args_nodes(arguments@) + arrow_nodes(return_type_arrow) + block_nodes(body),
        CstStatement::Return { expression, .. } => expr_nodes(expression),
        CstStatement::Loop { init_vars, body, .. } => inits_nodes(init_vars@) + block_nodes(body),
        CstStatement::While { condition, body, .. } => expr_nodes(condition) + block_nodes(body),
        CstStatement::For { var_name, start, end, body, .. } => seq![entry(var_name)] + expr_nodes(start)
            + expr_nodes(end) + block_nodes(body),
        CstStatement::Break { expression, .. } => opt_nodes(expression),
        CstStatement::Continue { .. } => Seq::empty(),
        CstStatement::Use { selector, path, .. } => selector_nodes(selector) + names_nodes(path@),
        CstStatement::Struct { name, fields, .. } => seq![entry(name)] + struct_fields_nodes(fields@),
        CstStatement::Expression(e) => expr_nodes(e),
    }
}

/// The spans of a statement: its own, then those of every node inside it.
pub open spec fn stmt_nodes(s: Spanned<CstStatement>) -> Seq<(u32, Span)>
    decreases s, 0nat,
{
    seq![entry(s)] + stmt_body_nodes(s.node)
}

/// The spans of a block: its own, then those of its statements.
pub open spec fn block_nodes(b: Spanned<CstBlock>) -> Seq<(u32, Span)>
    decreases b, 0nat,
{
    seq![entry(b)] + stmts_nodes(b.node.statements@)
}

/// The spans of a list of names.
pub open spec fn names_nodes(xs: Seq<Spanned<String>>) -> Seq<(u32, Span)>
    decreases xs, 0nat,
{
    if xs.len() == 0 {
        Seq::empty()
    } else {
        name_nodes(xs[0]) + names_nodes(xs.drop_first())
    }
}

/// The spans of a list of expressions.
pub open spec fn exprs_nodes(xs: Seq<Spanned<CstExpr>>) -> Seq<(u32, Span)>
    decreases xs, 0nat,
{
    if xs.len() == 0 {
        Seq::empty()
    } else {
        expr_nodes(xs[0]) + exprs_nodes(xs.drop_first())
    }
}

/// The spans of call arguments.
pub open spec fn call_args_nodes(xs: Seq<Spanned<CstCallArgument>>) -> Seq<(u32, Span)>
    decreases xs, 0nat,
{
    if xs.len() == 0 {
        Seq::empty()
    } else {
        call_arg_nodes(xs[0]) + call_args_nodes(xs.drop_first())
    }
}

/// The spans of index specifications.
pub open spec fn indices_nodes(xs: Seq<Spanned<CstIndexSpec>>) -> Seq<(u32, Span)>
    decreases xs, 0nat,
{
    if xs.len() == 0 {
        Seq::empty()
    } else {
        index_nodes(xs[0]) + indices_nodes(xs.drop_first())
    }
}

/// The spans of loop variable initialisations.
pub open spec fn inits_nodes(xs: Seq<CstLoopInit>) -> Seq<(u32, Span)>
    decreases xs, 0nat,
{
    if xs.len() == 0 {
        Seq::empty()
    } else {
        init_nodes(xs[0]) + inits_nodes(xs.drop_first())
    }
}

/// The spans of the fields of a struct literal.
pub open spec fn init_fields_nodes(xs: Seq<Spanned<CstStructInitField>>) -> Seq<(u32, Span)>
    decreases xs, 0nat,
{
    if xs.len() == 0 {
        Seq::empty()
    } else {
        init_field_nodes(xs[0]) + init_fields_nodes(xs.drop_first())
    }
}

/// The spans of closure arguments.
pub open spec fn closure_args_nodes(xs: Seq<Spanned<CstClosureArg>>) -> Seq<(u32, Span)>
    decreases xs, 0nat,
{
    if xs.len() == 0 {
        Seq::empty()
    } else {
        closure_arg_nodes(xs[0]) + closure_args_nodes(xs.drop_first())
    }
}

/// The spans of function arguments.
pub open spec fn fn_args_nodes(xs: Seq<Spanned<CstArgument>>) -> Seq<(u32, Span)>
    decreases xs, 0nat,
{
    if xs.len() == 0 {
        Seq::empty()
    } else {
        fn_arg_nodes(xs[0]) + fn_args_nodes(xs.drop_first())
    }
}

/// The spans of struct field declarations.
pub open spec fn struct_fields_nodes(xs: Seq<Spanned<CstStructField>>) -> Seq<(u32, Span)>
    decreases xs, 0nat,
{
    if xs.len() == 0 {
        Seq::empty()
    } else {
        struct_field_nodes(xs[0]) + struct_fields_nodes(xs.drop_first())
    }
}

/// The spans of the arms of an `if`.
pub open spec fn arms_nodes(xs: Seq<(Spanned<CstExpr>, Spanned<CstBlock>)>) -> Seq<(u32, Span)>
    decreases xs, 0nat,
{
    if xs.len() == 0 {
        Seq::empty()
    } else {
        arm_nodes(xs[0]) + arms_nodes(xs.drop_first())
    }
}

/// The spans of the cases of a `match`.
pub open spec fn cases_nodes(xs: Seq<(Option<Spanned<CstExpr>>, Spanned<CstBlock>)>) -> Seq<(u32, Span)>
    decreases xs, 0nat,
{
    if xs.len() == 0 {
        Seq::empty()
    } else {
        case_nodes(xs[0]) + cases_nodes(xs.drop_first())
    }
}

/// The spans of a list of statements.
pub open spec fn stmts_nodes(xs: Seq<Spanned<CstStatement>>) -> Seq<(u32, Span)>
    decreases xs, 0nat,
{
    if xs.len() == 0 {
        Seq::empty()
    } else {
        stmt_nodes(xs[0]) + stmts_nodes(xs.drop_first())
    }
}

/// The spans of a list of blocks.
pub open spec fn blocks_nodes(xs: Seq<Spanned<CstBlock>>) -> Seq<(u32, Span)>
    decreases xs, 0nat,
{
    if xs.len() == 0 {
        Seq::empty()
    } else {
        block_nodes(xs[0]) + blocks_nodes(xs.drop_first())
    }
}

/// The spans of every node of a program, in visiting order: each block's
/// own, then those of every node inside it.
pub open spec fn program_nodes(cst: CstProgram) -> Seq<(u32, Span)> {
    blocks_nodes(cst.blocks@)
}

/// A map after the entries are inserted in order; a later entry for an
/// identity replaces an earlier one.
pub open spec fn insert_all(m: Map<u32, Span>, es: Seq<(u32, Span)>) -> Map<u32, Span>
    decreases es.len(),
{
    if es.len() == 0 {
        m
    } else {
        insert_all(m, es.drop_last()).insert(es.last().0, es.last().1)
    }
}

/// No other entry has the identity of entry `i`.
pub open spec fn id_unique(es: Seq<(u32, Span)>, i: int) -> bool {
    forall|j: int| 0 <= j < es.len() && j != i ==> es[j].0 != es[i].0
}

/// Some entry has the identity `k`.
pub open spec fn has_id(es: Seq<(u32, Span)>, k: u32) -> bool {
    exists|i: int| 0 <= i < es.len() && es[i].0 == k
}

/// An identity that no entry has keeps what it had when the entries are
/// inserted.
pub proof fn lemma_insert_all_absent(m: Map<u32, Span>, es: Seq<(u32, Span)>, k: u32)
    requires
        !has_id(es, k),
    ensures
        insert_all(m, es).contains_key(k) == m.contains_key(k),
        m.contains_key(k) ==> insert_all(m, es)[k] == m[k],
    decreases es.len(),
{
    if es.len() > 0 {
        let init = es.drop_last();
        assert(es[es.len() - 1].0 != k);
        assert(!has_id(init, k)) by {
            assert forall|i: int| 0 <= i < init.len() implies init[i].0 != k by {
                assert(init[i] == es[i]);
            }
        }
        lemma_insert_all_absent(m, init, k);
    }
}

/// Every entry's identity is in the map after the entries are inserted, and
/// an identity that only one entry has maps to that entry's span.
pub proof fn lemma_insert_all_present(m: Map<u32, Span>, es: Seq<(u32, Span)>, i: int)
    requires
        0 <= i < es.len(),
    ensures
        insert_all(m, es).contains_key(es[i].0),
        id_unique(es, i) ==> insert_all(m, es)[es[i].0] == es[i].1,
    decreases es.len(),
{
    let init = es.drop_last();
    if i < es.len() - 1 {
        assert(init[i] == es[i]);
        lemma_insert_all_present(m, init, i);
        if id_unique(es, i) {
            assert(es[es.len() - 1].0 != es[i].0);
            assert forall|j: int| 0 <= j < init.len() && j != i implies init[j].0 != init[i].0 by {
                assert(init[j] == es[j]);
            }
        }
    }
}

/// What inserting entries does: every entry's identity is in the map; an
/// identity that only one entry has maps to that entry's span; an identity
/// that no entry has keeps what it had.
pub proof fn lemma_insert_all(m: Map<u32, Span>, es: Seq<(u32, Span)>)
    ensures
        forall|i: int| 0 <= i < es.len() ==> insert_all(m, es).contains_key(#[trigger] es[i].0),
        forall|i: int|
            0 <= i < es.len() && id_unique(es, i) ==> insert_all(m, es)[#[trigger] es[i].0] == es[i].1,
        forall|k: u32|
            !has_id(es, k) ==> (#[trigger] insert_all(m, es).contains_key(k) == m.contains_key(k) && (
            m.contains_key(k) ==> insert_all(m, es)[k] == m[k])),
{
    assert forall|i: int| 0 <= i < es.len() implies insert_all(m, es).contains_key(#[trigger] es[i].0)
        && (id_unique(es, i) ==> insert_all(m, es)[es[i].0] == es[i].1) by {
        lemma_insert_all_present(m, es, i);
    }
    assert forall|k: u32| !has_id(es, k) implies (#[trigger] insert_all(m, es).contains_key(k)
        == m.contains_key(k) && (m.contains_key(k) ==> insert_all(m, es)[k] == m[k])) by {
        lemma_insert_all_absent(m, es, k);
    }
}

// ---------------------------------------------------------------------------
// Walking the tree
// ---------------------------------------------------------------------------

/// Appends the span of a name.
fn walk_name(n: &Spanned<String>, out: &mut Vec<(u32, Span)>)
    ensures
        final(out)@ == old(out)@ + name_nodes(*n),
{
    out.push((n.id.0, n.span));
}

/// Appends the span of an optional name.
fn walk_opt_name(n: &Option<Spanned<String>>, out: &mut Vec<(u32, Span)>)
    ensures
        final(out)@ == old(out)@ + opt_name_nodes(*n),
{
    match n {
        Some(x) => out.push((x.id.0, x.span)),
        None => {},
    }
    assert(out@ =~= old(out)@ + opt_name_nodes(*n));
}

/// Appends the spans of an optional return type arrow.
fn walk_arrow(a: &Option<Spanned<ReturnTypeArrow>>, out: &mut Vec<(u32, Span)>)
    ensures
        final(out)@ == old(out)@ + arrow_nodes(*a),
{
    match a {
        Some(x) => {
            out.push((x.id.0, x.span));
            out.push((x.node.type_annotation.id.0, x.node.type_annotation.span));
        },
        None => {},
    }
    assert(out@ =~= old(out)@ + arrow_nodes(*a));
}

/// Appends the spans of every node of an expression.
fn walk_expr(e: &Spanned<CstExpr>, out: &mut Vec<(u32, Span)>)
    ensures
        final(out)@ == old(out)@ + expr_nodes(*e),
    decreases e, 0nat,
{
    let ghost before = out@;
    out.push((e.id.0, e.span));
    match &e.node {
        CstExpr::Literal(l) => {
            out.push((l.id.0, l.span));
        },
        CstExpr::Identifier(n) => {
            out.push((n.id.0, n.span));
        },
        CstExpr::FunctionCall { callee, arguments, .. } => {
            walk_expr(callee, out);
            walk_call_args(arguments, out);
        },
        CstExpr::PartialCall { func, args, .. } => {
            walk_expr(func, out);
            walk_call_args(args, out);
        },
        CstExpr::Prefix { op, rhs } => {
            out.push((op.id.0, op.span));
            walk_expr(rhs, out);
        },
        CstExpr::Postfix { lhs, op } => {
            walk_expr(lhs, out);
            out.push((op.id.0, op.span));
        },
        CstExpr::Infix { lhs, op, rhs } => {
            walk_expr(lhs, out);
            out.push((op.id.0, op.span));
            walk_expr(rhs, out);
        },
        CstExpr::Group { inner, .. } => {
            walk_expr(inner, out);
        },
        CstExpr::Loop { init_vars, body, .. } => {
            walk_inits(init_vars, out);
            walk_block(body, out);
        },
        CstExpr::Compose { lhs, op, rhs } => {
            walk_expr(lhs, out);
            out.push((op.id.0, op.span));
            walk_expr(rhs, out);
        },
        CstExpr::MemberAccess { object, members, .. } => {
            walk_expr(object, out);
            walk_names(members, out);
        },
        CstExpr::StructInit { struct_name, fields, .. } => {
            out.push((struct_name.id.0, struct_name.span));
            walk_init_fields(fields, out);
        },
        CstExpr::FieldAccess { object, field, .. } => {
            walk_expr(object, out);
            out.push((field.id.0, field.span));
        },
        CstExpr::Array { elements, .. } => {
            walk_exprs(elements, out);
        },
        CstExpr::ArrayIndex { array, indices, .. } => {
            walk_expr(array, out);
            walk_indices(indices, out);
        },
        CstExpr::Closure { arguments, return_type_arrow, body, .. } => {
            walk_closure_args(arguments, out);
            walk_arrow(return_type_arrow, out);
            match body {
                CstClosureBody::Expression(b) => {
                    walk_expr(b, out);
                },
                CstClosureBody::Block(blk) => {
                    walk_block(blk, out);
                },
            }
        },
    }
    assert(out@ =~= before + expr_nodes(*e));
}

/// Appends the spans of an optional expression.
fn walk_opt(e: &Option<Spanned<CstExpr>>, out: &mut Vec<(u32, Span)>)
    ensures
        final(out)@ == old(out)@ + opt_nodes(*e),
    decreases e, 0nat,
{
    match e {
        Some(x) => {
            walk_expr(x, out);
        },
        None => {
            assert(out@ =~= old(out)@ + opt_nodes(*e));
        },
    }
}

/// Appends the spans of a call argument.
fn walk_call_arg(a: &Spanned<CstCallArgument>, out: &mut Vec<(u32, Span)>)
    ensures
        final(out)@ == old(out)@ + call_arg_nodes(*a),
    decreases a, 0nat,
{
    let ghost before = out@;
    out.push((a.id.0, a.span));
    match &a.node {
        CstCallArgument::Expr(e) => {
            walk_expr(e, out);
        },
        CstCallArgument::Hole(_) => {},
    }
    assert(out@ =~= before + call_arg_nodes(*a));
}

/// Appends the spans of an index specification.
fn walk_index(i: &Spanned<CstIndexSpec>, out: &mut Vec<(u32, Span)>)
    ensures
        final(out)@ == old(out)@ + index_nodes(*i),
    decreases i, 0nat,
{
    let ghost before = out@;
    out.push((i.id.0, i.span));
    match &i.node {
        CstIndexSpec::Single(e) => {
            walk_expr(e, out);
        },
        CstIndexSpec::Range { start, end, step, .. } => {
            walk_opt(start, out);
            walk_opt(end, out);
            match step {
                Some(st) => {
                    walk_expr(&st.1, out);
                },
                None => {},
            }
        },
        CstIndexSpec::InclusiveRange { start, end, .. } => {
            walk_opt(start, out);
            walk_opt(end, out);
        },
    }
    assert(out@ =~= before + index_nodes(*i));
}

/// Appends the spans of a loop variable initialisation.
fn walk_init(init: &CstLoopInit, out: &mut Vec<(u32, Span)>)
    ensures
        final(out)@ == old(out)@ + init_nodes(*init),
    decreases init, 0nat,
{
    let ghost before = out@;
    out.push((init.0.id.0, init.0.span));
    walk_expr(&init.2, out);
    assert(out@ =~= before + init_nodes(*init));
}

/// Appends the spans of a struct literal field.
fn walk_init_field(f: &Spanned<CstStructInitField>, out: &mut Vec<(u32, Span)>)
    ensures
        final(out)@ == old(out)@ + init_field_nodes(*f),
    decreases f, 0nat,
{
    let ghost before = out@;
    out.push((f.id.0, f.span));
    out.push((f.node.name.id.0, f.node.name.span));
    walk_expr(&f.node.value, out);
    assert(out@ =~= before + init_field_nodes(*f));
}

/// Appends the spans of a closure argument.
fn walk_closure_arg(a: &Spanned<CstClosureArg>, out: &mut Vec<(u32, Span)>)
    ensures
        final(out)@ == old(out)@ + closure_arg_nodes(*a),
{
    let ghost before = out@;
    out.push((a.id.0, a.span));
    out.push((a.node.identifier.id.0, a.node.identifier.span));
    walk_opt_name(&a.node.type_annotation, out);
    assert(out@ =~= before + closure_arg_nodes(*a));
}

/// Appends the spans of a function argument.
fn walk_fn_arg(a: &Spanned<CstArgument>, out: &mut Vec<(u32, Span)>)
    ensures
        final(out)@ == old(out)@ + fn_arg_nodes(*a),
{
    let ghost before = out@;
    out.push((a.id.0, a.span));
    out.push((a.node.identifier.id.0, a.node.identifier.span));
    out.push((a.node.type_annotation.id.0, a.node.type_annotation.span));
    assert(out@ =~= before + fn_arg_nodes(*a));
}

/// Appends the spans of a struct field declaration.
fn walk_struct_field(f: &Spanned<CstStructField>, out: &mut Vec<(u32, Span)>)
    ensures
        final(out)@ == old(out)@ + struct_field_nodes(*f),
{
    let ghost before = out@;
    out.push((f.id.0, f.span));
    out.push((f.node.name.id.0, f.node.name.span));
    out.push((f.node.type_annotation.id.0, f.node.type_annotation.span));
    assert(out@ =~= before + struct_field_nodes(*f));
}

/// Appends the spans of an import selector.
fn walk_selector(s: &Spanned<CstImportSelector>, out: &mut Vec<(u32, Span)>)
    ensures
        final(out)@ == old(out)@ + selector_nodes(*s),
{
    let ghost before = out@;
    out.push((s.id.0, s.span));
    match &s.node {
        CstImportSelector::Single(n) => {
            out.push((n.id.0, n.span));
        },
        CstImportSelector::Multiple(ns) => {
            walk_names(ns, out);
        },
        CstImportSelector::Wildcard(_) => {},
    }
    assert(out@ =~= before + selector_nodes(*s));
}

/// Appends the spans of an `if` arm.
fn walk_arm(arm: &(Spanned<CstExpr>, Spanned<CstBlock>), out: &mut Vec<(u32, Span)>)
    ensures
        final(out)@ == old(out)@ + arm_nodes(*arm),
    decreases arm, 0nat,
{
    let ghost before = out@;
    walk_expr(&arm.0, out);
    walk_block(&arm.1, out);
    assert(out@ =~= before + arm_nodes(*arm));
}

/// Appends the spans of a `match` case.
fn walk_case(case: &(Option<Spanned<CstExpr>>, Spanned<CstBlock>), out: &mut Vec<(u32, Span)>)
    ensures
        final(out)@ == old(out)@ + case_nodes(*case),
    decreases case, 0nat,
{
    let ghost before = out@;
    walk_opt(&case.0, out);
    walk_block(&case.1, out);
    assert(out@ =~= before + case_nodes(*case));
}

/// Appends the spans of an optional block.
fn walk_opt_block(b: &Option<Spanned<CstBlock>>, out: &mut Vec<(u32, Span)>)
    ensures
        final(out)@ == old(out)@ + opt_block_nodes(*b),
    decreases b, 0nat,
{
    match b {
        Some(x) => {
            walk_block(x, out);
        },
        None => {
            assert(out@ =~= old(out)@ + opt_block_nodes(*b));
        },
    }
}

/// Appends the spans of every node inside a statement.
fn walk_stmt_body(s: &CstStatement, out: &mut Vec<(u32, Span)>)
    ensures
        final(out)@ == old(out)@ + stmt_body_nodes(*s),
    decreases s, 0nat,
{
    let ghost before = out@;
    match s {
        CstStatement::Mod { identifier } => {
            out.push((identifier.id.0, identifier.span));
        },
        CstStatement::Let { identifier, type_annotation, expression, .. } => {
            out.push((identifier.id.0, identifier.span));
            walk_opt_name(type_annotation, out);
            walk_expr(expression, out);
        },
        CstStatement::Const { identifier, expression, .. } => {
            out.push((identifier.id.0, identifier.span));
            walk_expr(expression, out);
        },
        CstStatement::Assign { identifier, expression, .. } => {
            out.push((identifier.id.0, identifier.span));
            walk_expr(expression, out);
        },
        CstStatement::AssignIncrement { identifier, expression, .. } => {
            out.push((identifier.id.0, identifier.span));
            walk_expr(expression, out);
        },
        CstStatement::AssignDecrement { identifier, expression, .. } => {
            out.push((identifier.id.0, identifier.span));
            walk_expr(expression, out);
        },
        CstStatement::If { arms, else_block, .. } => {
            walk_arms(arms, out);
            walk_opt_block(else_block, out);
        },
        CstStatement::Match { expression, cases, .. } => {
            walk_expr(expression, out);
            walk_cases(cases, out);
        },
        CstStatement::FunctionDeclaration { identifier, arguments, return_type_arrow, body, .. } => {
            out.push((identifier.id.0, identifier.span));
            walk_fn_args(arguments, out);
            walk_arrow(return_type_arrow, out);
            walk_block(body, out);
        },
        CstStatement::Return { expression, .. } => {
            walk_expr(expression, out);
        },
        CstStatement::Loop { init_vars, body, .. } => {
            walk_inits(init_vars, out);
            walk_block(body, out);
        },
        CstStatement::While { condition, body, .. } => {
            walk_expr(condition, out);
            walk_block(body, out);
        },
        CstStatement::For { var_name, start, end, body, .. } => {
            out.push((var_name.id.0, var_name.span));
            walk_expr(start, out);
            walk_expr(end, out);
            walk_block(body, out);
        },
        CstStatement::Break { expression, .. } => {
            walk_opt(expression, out);
        },
        CstStatement::Continue { .. } => {},
        CstStatement::Use { selector, path, .. } => {
            walk_selector(selector, out);
            walk_names(path, out);
        },
        CstStatement::Struct { name, fields, .. } => {
            out.push((name.id.0, name.span));
            walk_struct_fields(fields, out);
        },
        CstStatement::Expression(e) => {
            walk_expr(e, out);
        },
    }
    assert(out@ =~= before + stmt_body_nodes(*s));
}

/// Appends the spans of a statement.
fn walk_stmt(s: &Spanned<CstStatement>, out: &mut Vec<(u32, Span)>)
    ensures
        final(out)@ == old(out)@ + stmt_nodes(*s),
    decreases s, 0nat,
{
    let ghost before = out@;
    out.push((s.id.0, s.span));
    walk_stmt_body(&s.node, out);
    assert(out@ =~= before + stmt_nodes(*s));
}

/// Appends the spans of a block.
fn walk_block(b: &Spanned<CstBlock>, out: &mut Vec<(u32, Span)>)
    ensures
        final(out)@ == old(out)@ + block_nodes(*b),
    decreases b, 0nat,
{
    let ghost before = out@;
    out.push((b.id.0, b.span));
    walk_stmts(&b.node.statements, out);
    assert(out@ =~= before + block_nodes(*b));
}

/// Appends the spans of a list of names.
fn walk_names(xs: &Vec<Spanned<String>>, out: &mut Vec<(u32, Span)>)
    ensures
        final(out)@ == old(out)@ + names_nodes(xs@),
{
    let m = xs.len();
    let mut i: usize = 0;
    assert(xs@.subrange(0, m as int) =~= xs@);
    while i < m
        invariant
            m == xs@.len(),
            0 <= i <= m,
            out@ + names_nodes(xs@.subrange(i as int, m as int)) == old(out)@ + names_nodes(xs@),
        decreases m - i,
    {
        let ghost before = out@;
        let ghost sub = xs@.subrange(i as int, m as int);
        assert(sub.drop_first() =~= xs@.subrange(i + 1, m as int));
        assert(sub[0] == xs@[i as int]);
        walk_name(&xs[i], out);
        let ghost part = name_nodes(xs@[i as int]);
        assert(out@ =~= before + part);
        proof {
            vstd::seq_lib::lemma_concat_associative(
                before,
                part,
                names_nodes(xs@.subrange(i + 1, m as int)),
            );
        }
        i += 1;
    }
    assert(out@ =~= out@ + names_nodes(xs@.subrange(m as int, m as int)));
}

/// Appends the spans of a list of expressions.
fn walk_exprs(xs: &Vec<Spanned<CstExpr>>, out: &mut Vec<(u32, Span)>)
    ensures
        final(out)@ == old(out)@ + exprs_nodes(xs@),
    decreases xs@, 0nat,
{
    let m = xs.len();
    let mut i: usize = 0;
    assert(xs@.subrange(0, m as int) =~= xs@);
    while i < m
        invariant
            m == xs@.len(),
            0 <= i <= m,
            out@ + exprs_nodes(xs@.subrange(i as int, m as int)) == old(out)@ + exprs_nodes(xs@),
        decreases m - i,
    {
        let ghost before = out@;
        let ghost sub = xs@.subrange(i as int, m as int);
        assert(sub.drop_first() =~= xs@.subrange(i + 1, m as int));
        assert(sub[0] == xs@[i as int]);
        walk_expr(&xs[i], out);
        let ghost part = expr_nodes(xs@[i as int]);
        assert(out@ =~= before + part);
        proof {
            vstd::seq_lib::lemma_concat_associative(
                before,
                part,
                exprs_nodes(xs@.subrange(i + 1, m as int)),
            );
        }
        i += 1;
    }
    assert(out@ =~= out@ + exprs_nodes(xs@.subrange(m as int, m as int)));
}

/// Appends the spans of call arguments.
fn walk_call_args(xs: &Vec<Spanned<CstCallArgument>>, out: &mut Vec<(u32, Span)>)
    ensures
        final(out)@ == old(out)@ + call_args_nodes(xs@),
    decreases xs@, 0nat,
{
    let m = xs.len();
    let mut i: usize = 0;
    assert(xs@.subrange(0, m as int) =~= xs@);
    while i < m
        invariant
            m == xs@.len(),
            0 <= i <= m,
            out@ + call_args_nodes(xs@.subrange(i as int, m as int)) == old(out)@ + call_args_nodes(xs@),
        decreases m - i,
    {
        let ghost before = out@;
        let ghost sub = xs@.subrange(i as int, m as int);
        assert(sub.drop_first() =~= xs@.subrange(i + 1, m as int));
        assert(sub[0] == xs@[i as int]);
        walk_call_arg(&xs[i], out);
        let ghost part = call_arg_nodes(xs@[i as int]);
        assert(out@ =~= before + part);
        proof {
            vstd::seq_lib::lemma_concat_associative(
                before,
                part,
                call_args_nodes(xs@.subrange(i + 1, m as int)),
            );
        }
        i += 1;
    }
    assert(out@ =~= out@ + call_args_nodes(xs@.subrange(m as int, m as int)));
}

/// Appends the spans of index specifications.
fn walk_indices(xs: &Vec<Spanned<CstIndexSpec>>, out: &mut Vec<(u32, Span)>)
    ensures
        final(out)@ == old(out)@ + indices_nodes(xs@),
    decreases xs@, 0nat,
{
    let m = xs.len();
    let mut i: usize = 0;
    assert(xs@.subrange(0, m as int) =~= xs@);
    while i < m
        invariant
            m == xs@.len(),
            0 <= i <= m,
            out@ + indices_nodes(xs@.subrange(i as int, m as int)) == old(out)@ + indices_nodes(xs@),
        decreases m - i,
    {
        let ghost before = out@;
        let ghost sub = xs@.subrange(i as int, m as int);
        assert(sub.drop_first() =~= xs@.subrange(i + 1, m as int));
        assert(sub[0] == xs@[i as int]);
        walk_index(&xs[i], out);
        let ghost part = index_nodes(xs@[i as int]);
        assert(out@ =~= before + part);
        proof {
            vstd::seq_lib::lemma_concat_associative(
                before,
                part,
                indices_nodes(xs@.subrange(i + 1, m as int)),
            );
        }
        i += 1;
    }
    assert(out@ =~= out@ + indices_nodes(xs@.subrange(m as int, m as int)));
}

/// Appends the spans of loop variable initialisations.
fn walk_inits(xs: &Vec<CstLoopInit>, out: &mut Vec<(u32, Span)>)
    ensures
        final(out)@ == old(out)@ + inits_nodes(xs@),
    decreases xs@, 0nat,
{
    let m = xs.len();
    let mut i: usize = 0;
    assert(xs@.subrange(0, m as int) =~= xs@);
    while i < m
        invariant
            m == xs@.len(),
            0 <= i <= m,
            out@ + inits_nodes(xs@.subrange(i as int, m as int)) == old(out)@ + inits_nodes(xs@),
        decreases m - i,
    {
        let ghost before = out@;
        let ghost sub = xs@.subrange(i as int, m as int);
        assert(sub.drop_first() =~= xs@.subrange(i + 1, m as int));
        assert(sub[0] == xs@[i as int]);
        walk_init(&xs[i], out);
        let ghost part = init_nodes(xs@[i as int]);
        assert(out@ =~= before + part);
        proof {
            vstd::seq_lib::lemma_concat_associative(
                before,
                part,
                inits_nodes(xs@.subrange(i + 1, m as int)),
            );
        }
        i += 1;
    }
    assert(out@ =~= out@ + inits_nodes(xs@.subrange(m as int, m as int)));
}

/// Appends the spans of the fields of a struct literal.
fn walk_init_fields(xs: &Vec<Spanned<CstStructInitField>>, out: &mut Vec<(u32, Span)>)
    ensures
        final(out)@ == old(out)@ + init_fields_nodes(xs@),
    decreases xs@, 0nat,
{
    let m = xs.len();
    let mut i: usize = 0;
    assert(xs@.subrange(0, m as int) =~= xs@);
    while i < m
        invariant
            m == xs@.len(),
            0 <= i <= m,
            out@ + init_fields_nodes(xs@.subrange(i as int, m as int)) == old(out)@ + init_fields_nodes(xs@),
        decreases m - i,
    {
        let ghost before = out@;
        let ghost sub = xs@.subrange(i as int, m as int);
        assert(sub.drop_first() =~= xs@.subrange(i + 1, m as int));
        assert(sub[0] == xs@[i as int]);
        walk_init_field(&xs[i], out);
        let ghost part = init_field_nodes(xs@[i as int]);
        assert(out@ =~= before + part);
        proof {
            vstd::seq_lib::lemma_concat_associative(
                before,
                part,
                init_fields_nodes(xs@.subrange(i + 1, m as int)),
            );
        }
        i += 1;
    }
    assert(out@ =~= out@ + init_fields_nodes(xs@.subrange(m as int, m as int)));
}

/// Appends the spans of closure arguments.
fn walk_closure_args(xs: &Vec<Spanned<CstClosureArg>>, out: &mut Vec<(u32, Span)>)
    ensures
        final(out)@ == old(out)@ + closure_args_nodes(xs@),
{
    let m = xs.len();
    let mut i: usize = 0;
    assert(xs@.subrange(0, m as int) =~= xs@);
    while i < m
        invariant
            m == xs@.len(),
            0 <= i <= m,
            out@ + closure_args_nodes(xs@.subrange(i as int, m as int)) == old(out)@ + closure_args_nodes(xs@),
        decreases m - i,
    {
        let ghost before = out@;
        let ghost sub = xs@.subrange(i as int, m as int);
        assert(sub.drop_first() =~= xs@.subrange(i + 1, m as int));
        assert(sub[0] == xs@[i as int]);
        walk_closure_arg(&xs[i], out);
        let ghost part = closure_arg_nodes(xs@[i as int]);
        assert(out@ =~= before + part);
        proof {
            vstd::seq_lib::lemma_concat_associative(
                before,
                part,
                closure_args_nodes(xs@.subrange(i + 1, m as int)),
            );
        }
        i += 1;
    }
    assert(out@ =~= out@ + closure_args_nodes(xs@.subrange(m as int, m as int)));
}

/// Appends the spans of function arguments.
fn walk_fn_args(xs: &Vec<Spanned<CstArgument>>, out: &mut Vec<(u32, Span)>)
    ensures
        final(out)@ == old(out)@ + fn_args_nodes(xs@),
{
    let m = xs.len();
    let mut i: usize = 0;
    assert(xs@.subrange(0, m as int) =~= xs@);
    while i < m
        invariant
            m == xs@.len(),
            0 <= i <= m,
            out@ + fn_args_nodes(xs@.subrange(i as int, m as int)) == old(out)@ + fn_args_nodes(xs@),
        decreases m - i,
    {
        let ghost before = out@;
        let ghost sub = xs@.subrange(i as int, m as int);
        assert(sub.drop_first() =~= xs@.subrange(i + 1, m as int));
        assert(sub[0] == xs@[i as int]);
        walk_fn_arg(&xs[i], out);
        let ghost part = fn_arg_nodes(xs@[i as int]);
        assert(out@ =~= before + part);
        proof {
            vstd::seq_lib::lemma_concat_associative(
                before,
                part,
                fn_args_nodes(xs@.subrange(i + 1, m as int)),
            );
        }
        i += 1;
    }
    assert(out@ =~= out@ + fn_args_nodes(xs@.subrange(m as int, m as int)));
}

/// Appends the spans of struct field declarations.
fn walk_struct_fields(xs: &Vec<Spanned<CstStructField>>, out: &mut Vec<(u32, Span)>)
    ensures
        final(out)@ == old(out)@ + struct_fields_nodes(xs@),
{
    let m = xs.len();
    let mut i: usize = 0;
    assert(xs@.subrange(0, m as int) =~= xs@);
    while i < m
        invariant
            m == xs@.len(),
            0 <= i <= m,
            out@ + struct_fields_nodes(xs@.subrange(i as int, m as int)) == old(out)@ + struct_fields_nodes(xs@),
        decreases m - i,
    {
        let ghost before = out@;
        let ghost sub = xs@.subrange(i as int, m as int);
        assert(sub.drop_first() =~= xs@.subrange(i + 1, m as int));
        assert(sub[0] == xs@[i as int]);
        walk_struct_field(&xs[i], out);
        let ghost part = struct_field_nodes(xs@[i as int]);
        assert(out@ =~= before + part);
        proof {
            vstd::seq_lib::lemma_concat_associative(
                before,
                part,
                struct_fields_nodes(xs@.subrange(i + 1, m as int)),
            );
        }
        i += 1;
    }
    assert(out@ =~= out@ + struct_fields_nodes(xs@.subrange(m as int, m as int)));
}

/// Appends the spans of the arms of an `if`.
fn walk_arms(xs: &Vec<(Spanned<CstExpr>, Spanned<CstBlock>)>, out: &mut Vec<(u32, Span)>)
    ensures
        final(out)@ == old(out)@ + arms_nodes(xs@),
    decreases xs@, 0nat,
{
    let m = xs.len();
    let mut i: usize = 0;
    assert(xs@.subrange(0, m as int) =~= xs@);
    while i < m
        invariant
            m == xs@.len(),
            0 <= i <= m,
            out@ + arms_nodes(xs@.subrange(i as int, m as int)) == old(out)@ + arms_nodes(xs@),
        decreases m - i,
    {
        let ghost before = out@;
        let ghost sub = xs@.subrange(i as int, m as int);
        assert(sub.drop_first() =~= xs@.subrange(i + 1, m as int));
        assert(sub[0] == xs@[i as int]);
        walk_arm(&xs[i], out);
        let ghost part = arm_nodes(xs@[i as int]);
        assert(out@ =~= before + part);
        proof {
            vstd::seq_lib::lemma_concat_associative(
                before,
                part,
                arms_nodes(xs@.subrange(i + 1, m as int)),
            );
        }
        i += 1;
    }
    assert(out@ =~= out@ + arms_nodes(xs@.subrange(m as int, m as int)));
}

/// Appends the spans of the cases of a `match`.
fn walk_cases(xs: &Vec<(Option<Spanned<CstExpr>>, Spanned<CstBlock>)>, out: &mut Vec<(u32, Span)>)
    ensures
        final(out)@ == old(out)@ + cases_nodes(xs@),
    decreases xs@, 0nat,
{
    let m = xs.len();
    let mut i: usize = 0;
    assert(xs@.subrange(0, m as int) =~= xs@);
    while i < m
        invariant
            m == xs@.len(),
            0 <= i <= m,
            out@ + cases_nodes(xs@.subrange(i as int, m as int)) == old(out)@ + cases_nodes(xs@),
        decreases m - i,
    {
        let ghost before = out@;
        let ghost sub = xs@.subrange(i as int, m as int);
        assert(sub.drop_first() =~= xs@.subrange(i + 1, m as int));
        assert(sub[0] == xs@[i as int]);
        walk_case(&xs[i], out);
        let ghost part = case_nodes(xs@[i as int]);
        assert(out@ =~= before + part);
        proof {
            vstd::seq_lib::lemma_concat_associative(
                before,
                part,
                cases_nodes(xs@.subrange(i + 1, m as int)),
            );
        }
        i += 1;
    }
    assert(out@ =~= out@ + cases_nodes(xs@.subrange(m as int, m as int)));
}

/// Appends the spans of a list of statements.
fn walk_stmts(xs: &Vec<Spanned<CstStatement>>, out: &mut Vec<(u32, Span)>)
    ensures
        final(out)@ == old(out)@ + stmts_nodes(xs@),
    decreases xs@, 0nat,
{
    let m = xs.len();
    let mut i: usize = 0;
    assert(xs@.subrange(0, m as int) =~= xs@);
    while i < m
        invariant
            m == xs@.len(),
            0 <= i <= m,
            out@ + stmts_nodes(xs@.subrange(i as int, m as int)) == old(out)@ + stmts_nodes(xs@),
        decreases m - i,
    {
        let ghost before = out@;
        let ghost sub = xs@.subrange(i as int, m as int);
        assert(sub.drop_first() =~= xs@.subrange(i + 1, m as int));
        assert(sub[0] == xs@[i as int]);
        walk_stmt(&xs[i], out);
        let ghost part = stmt_nodes(xs@[i as int]);
        assert(out@ =~= before + part);
        proof {
            vstd::seq_lib::lemma_concat_associative(
                before,
                part,
                stmts_nodes(xs@.subrange(i + 1, m as int)),
            );
        }
        i += 1;
    }
    assert(out@ =~= out@ + stmts_nodes(xs@.subrange(m as int, m as int)));
}

/// Appends the spans of a list of blocks.
fn walk_blocks(xs: &Vec<Spanned<CstBlock>>, out: &mut Vec<(u32, Span)>)
    ensures
        final(out)@ == old(out)@ + blocks_nodes(xs@),
    decreases xs@, 0nat,
{
    let m = xs.len();
    let mut i: usize = 0;
    assert(xs@.subrange(0, m as int) =~= xs@);
    while i < m
        invariant
            m == xs@.len(),
            0 <= i <= m,
            out@ + blocks_nodes(xs@.subrange(i as int, m as int)) == old(out)@ + blocks_nodes(xs@),
        decreases m - i,
    {
        let ghost before = out@;
        let ghost sub = xs@.subrange(i as int, m as int);
        assert(sub.drop_first() =~= xs@.subrange(i + 1, m as int));
        assert(sub[0] == xs@[i as int]);
        walk_block(&xs[i], out);
        let ghost part = block_nodes(xs@[i as int]);
        assert(out@ =~= before + part);
        proof {
            vstd::seq_lib::lemma_concat_associative(
                before,
                part,
                blocks_nodes(xs@.subrange(i + 1, m as int)),
            );
        }
        i += 1;
    }
    assert(out@ =~= out@ + blocks_nodes(xs@.subrange(m as int, m as int)));
}

/// Inserts the entries into the map, in order.
fn insert_entries(entries: &Vec<(u32, Span)>, span_map: &mut HashMap<u32, Span>)
    ensures
        final(span_map)@ == insert_all(old(span_map)@, entries@),
{
    let m = entries.len();
    let mut i: usize = 0;
    while i < m
        invariant
            m == entries@.len(),
            0 <= i <= m,
            span_map@ == insert_all(old(span_map)@, entries@.subrange(0, i as int)),
        decreases m - i,
    {
        assert(entries@.subrange(0, i + 1).drop_last() =~= entries@.subrange(0, i as int));
        span_map.insert(entries[i].0, entries[i].1);
        i += 1;
    }
    assert(entries@.subrange(0, m as int) =~= entries@);
}

/// Records the spans of every node of the program by CST identity.
fn record_all_spans(cst: &CstProgram, span_map: &mut HashMap<u32, Span>)
    ensures
        final(span_map)@ == insert_all(old(span_map)@, program_nodes(*cst)),
        forall|i: int|
            0 <= i < program_nodes(*cst).len()
                ==> final(span_map)@.contains_key(#[trigger] program_nodes(*cst)[i].0),
        forall|i: int|
            0 <= i < program_nodes(*cst).len() && id_unique(program_nodes(*cst), i)
                ==> final(span_map)@[#[trigger] program_nodes(*cst)[i].0]
                == program_nodes(*cst)[i].1,
        forall|k: u32|
            !has_id(program_nodes(*cst), k) ==> (#[trigger] final(span_map)@.contains_key(k)
                == old(span_map)@.contains_key(k) && (old(span_map)@.contains_key(k)
                ==> final(span_map)@[k] == old(span_map)@[k])),
{
    let mut entries: Vec<(u32, Span)> = Vec::new();
    walk_blocks(&cst.blocks, &mut entries);
    assert(entries@ =~= program_nodes(*cst));
    insert_entries(&entries, span_map);
    proof {
        lemma_insert_all(old(span_map)@, program_nodes(*cst));
    }
}

/// Records the span of every CST node of the program by its identity:
/// blocks, statements, expressions, operators, literals, names, arguments,
/// fields, index specifications and import selectors. Every node's identity
/// is in the map afterwards, with the node's span when no other node shares
/// the identity; identities of no node keep what they had.
pub fn collect_cst_spans(cst: &CstProgram, span_map: &mut HashMap<u32, Span>)
    ensures
        final(span_map)@ == insert_all(old(span_map)@, program_nodes(*cst)),
        forall|i: int|
            0 <= i < program_nodes(*cst).len()
                ==> final(span_map)@.contains_key(#[trigger] program_nodes(*cst)[i].0),
        forall|i: int|
            0 <= i < program_nodes(*cst).len() && id_unique(program_nodes(*cst), i)
                ==> final(span_map)@[#[trigger] program_nodes(*cst)[i].0]
                == program_nodes(*cst)[i].1,
        forall|k: u32|
            !has_id(program_nodes(*cst), k) ==> (#[trigger] final(span_map)@.contains_key(k)
                == old(span_map)@.contains_key(k) && (old(span_map)@.contains_key(k)
                ==> final(span_map)@[k] == old(span_map)@[k])),
{
    record_all_spans(cst, span_map);
}

/// Records the span of every CST node of the program by its identity, for
/// the semantic index: as `collect_cst_spans`.
pub fn collect_index_cst_spans(cst: &CstProgram, span_map: &mut HashMap<u32, Span>)
    ensures
        final(span_map)@ == insert_all(old(span_map)@, program_nodes(*cst)),
        forall|i: int|
            0 <= i < program_nodes(*cst).len()
                ==> final(span_map)@.contains_key(#[trigger] program_nodes(*cst)[i].0),
        forall|i: int|
            0 <= i < program_nodes(*cst).len() && id_unique(program_nodes(*cst), i)
                ==> final(span_map)@[#[trigger] program_nodes(*cst)[i].0]
                == program_nodes(*cst)[i].1,
        forall|k: u32|
            !has_id(program_nodes(*cst), k) ==> (#[trigger] final(span_map)@.contains_key(k)
                == old(span_map)@.contains_key(k) && (old(span_map)@.contains_key(k)
                ==> final(span_map)@[k] == old(span_map)@[k])),
{
    record_all_spans(cst, span_map);
}

// ---------------------------------------------------------------------------
// Identifier spans
// ---------------------------------------------------------------------------

/// An identifier occurrence: the name with its range.
pub open spec fn occurrence(name: Spanned<String>) -> (String, HirSpan) {
    (name.node, HirSpan { start: name.span.start as usize, end: name.span.end as usize })
}

/// The identifier occurrences in an expression, in visiting order. Literals
/// and partial calls contribute none; closures contribute their body only.
pub open spec fn expr_idents(e: Spanned<CstExpr>) -> Seq<(String, HirSpan)>
    decreases e, 0nat,
{
    match e.node {
        CstExpr::Identifier(name) => seq![occurrence(name)],
        CstExpr::FunctionCall { callee, arguments, .. } => expr_idents(*callee) + call_args_idents(
            arguments@,
        ),
        CstExpr::Infix { lhs, rhs, .. } => expr_idents(*lhs) + expr_idents(*rhs),
        CstExpr::Prefix { rhs, .. } => expr_idents(*rhs),
        CstExpr::Postfix { lhs, .. } => expr_idents(*lhs),
        CstExpr::MemberAccess { object, .. } => expr_idents(*object),
        CstExpr::FieldAccess { object, .. } => expr_idents(*object),
        CstExpr::ArrayIndex { array, indices, .. } => expr_idents(*array) + indices_idents(indices@),
        CstExpr::Compose { lhs, rhs, .. } => expr_idents(*lhs) + expr_idents(*rhs),
        CstExpr::Group { inner, .. } => expr_idents(*inner),
        CstExpr::Loop { init_vars, body, .. } => inits_idents(init_vars@) + block_idents(
            body.node.statements@,
        ),
        CstExpr::StructInit { fields, .. } => field_values_idents(fields@),
        CstExpr::Array { elements, .. } => exprs_idents(elements@),
        CstExpr::Closure { body, .. } => match body {
            CstClosureBody::Expression(b) => expr_idents(*b),
            CstClosureBody::Block(blk) => block_idents(blk.node.statements@),
        },
        _ => Seq::empty(),
    }
}

/// The identifier occurrences in a list of expressions.
pub open spec fn exprs_idents(es: Seq<Spanned<CstExpr>>) -> Seq<(String, HirSpan)>
    decreases es, 0nat,
{
    if es.len() == 0 {
        Seq::empty()
    } else {
        expr_idents(es[0]) + exprs_idents(es.drop_first())
    }
}

/// The identifier occurrences in call arguments.
pub open spec fn call_args_idents(args: Seq<Spanned<CstCallArgument>>) -> Seq<(String, HirSpan)>
    decreases args, 0nat,
{
    if args.len() == 0 {
        Seq::empty()
    } else {
        (match args[0].node {
            CstCallArgument::Expr(e) => expr_idents(e),
            CstCallArgument::Hole(_) => Seq::empty(),
        }) + call_args_idents(args.drop_first())
    }
}

/// The identifier occurrences in an optional expression.
pub open spec fn opt_idents(e: Option<Spanned<CstExpr>>) -> Seq<(String, HirSpan)>
    decreases e, 0nat,
{
    match e {
        Some(x) => expr_idents(x),
        None => Seq::empty(),
    }
}

/// The identifier occurrences in index specifications, steps included.
pub open spec fn indices_idents(idx: Seq<Spanned<CstIndexSpec>>) -> Seq<(String, HirSpan)>
    decreases idx, 0nat,
{
    if idx.len() == 0 {
        Seq::empty()
    } else {
        (match idx[0].node {
            CstIndexSpec::Single(e) => expr_idents(e),
            CstIndexSpec::Range { start, end, step, .. } => opt_idents(start) + opt_idents(end)
                + match step {
                Some(st) => expr_idents(st.1),
                None => Seq::empty(),
            },
            CstIndexSpec::InclusiveRange { start, end, .. } => opt_idents(start) + opt_idents(end),
        }) + indices_idents(idx.drop_first())
    }
}

/// The identifier occurrences in loop initial values (not the variables).
pub open spec fn inits_idents(inits: Seq<CstLoopInit>) -> Seq<(String, HirSpan)>
    decreases inits, 0nat,
{
    if inits.len() == 0 {
        Seq::empty()
    } else {
        expr_idents(inits[0].2) + inits_idents(inits.drop_first())
    }
}

/// The identifier occurrences in the values of a struct literal.
pub open spec fn field_values_idents(fields: Seq<Spanned<crate::cst::CstStructInitField>>) -> Seq<
    (String, HirSpan),
>
    decreases fields, 0nat,
{
    if fields.len() == 0 {
        Seq::empty()
    } else {
        expr_idents(fields[0].node.value) + field_values_idents(fields.drop_first())
    }
}

/// The identifier occurrences in a nested block: in the expressions of its
/// expression statements, declarations and assignments only.
pub open spec fn block_idents(ss: Seq<Spanned<CstStatement>>) -> Seq<(String, HirSpan)>
    decreases ss, 0nat,
{
    if ss.len() == 0 {
        Seq::empty()
    } else {
        (match ss[0].node {
            CstStatement::Expression(e) => expr_idents(e),
            CstStatement::Let { expression, .. } => expr_idents(expression),
            CstStatement::Const { expression, .. } => expr_idents(expression),
            CstStatement::Assign { expression, .. } => expr_idents(expression),
            CstStatement::AssignIncrement { expression, .. } => expr_idents(expression),
            CstStatement::AssignDecrement { expression, .. } => expr_idents(expression),
            _ => Seq::empty(),
        }) + block_idents(ss.drop_first())
    }
}

/// The identifier occurrences in a top-level statement: the names that
/// `let`, assignments and function declarations introduce, and those in the
/// expressions and nested blocks of control flow.
pub open spec fn top_stmt_idents(s: CstStatement) -> Seq<(String, HirSpan)> {
    match s {
        CstStatement::Let { identifier, expression, .. } => seq![occurrence(identifier)] + expr_idents(
            expression,
        ),
        CstStatement::Assign { identifier, expression, .. } => seq![occurrence(identifier)]
            + expr_idents(expression),
        CstStatement::FunctionDeclaration { identifier, body, .. } => seq![occurrence(identifier)]
            + block_idents(body.node.statements@),
        CstStatement::If { arms, else_block, .. } => arms_idents(arms@) + match else_block {
            Some(b) => block_idents(b.node.statements@),
            None => Seq::empty(),
        },
        CstStatement::Match { expression, cases, .. } => expr_idents(expression) + cases_idents(
            cases@,
        ),
        CstStatement::Return { expression, .. } => expr_idents(expression),
        CstStatement::Break { expression, .. } => opt_idents(expression),
        CstStatement::Loop { init_vars, body, .. } => inits_idents(init_vars@) + block_idents(
            body.node.statements@,
        ),
        CstStatement::While { condition, body, .. } => expr_idents(condition) + block_idents(
            body.node.statements@,
        ),
        CstStatement::For { start, end, body, .. } => expr_idents(start) + expr_idents(end)
            + block_idents(body.node.statements@),
        CstStatement::Expression(e) => expr_idents(e),
        _ => Seq::empty(),
    }
}

/// The identifier occurrences in the arms of a top-level `if`.
pub open spec fn arms_idents(arms: Seq<(Spanned<CstExpr>, Spanned<CstBlock>)>) -> Seq<(String, HirSpan)>
    decreases arms.len(),
{
    if arms.len() == 0 {
        Seq::empty()
    } else {
        expr_idents(arms[0].0) + block_idents(arms[0].1.node.statements@) + arms_idents(
            arms.drop_first(),
        )
    }
}

/// The identifier occurrences in the cases of a top-level `match`.
pub open spec fn cases_idents(cases: Seq<(Option<Spanned<CstExpr>>, Spanned<CstBlock>)>) -> Seq<
    (String, HirSpan),
>
    decreases cases.len(),
{
    if cases.len() == 0 {
        Seq::empty()
    } else {
        opt_idents(cases[0].0) + block_idents(cases[0].1.node.statements@) + cases_idents(
            cases.drop_first(),
        )
    }
}

/// The identifier occurrences in the statements of the top-level blocks.
pub open spec fn top_stmts_idents(ss: Seq<Spanned<CstStatement>>) -> Seq<(String, HirSpan)>
    decreases ss.len(),
{
    if ss.len() == 0 {
        Seq::empty()
    } else {
        top_stmt_idents(ss[0].node) + top_stmts_idents(ss.drop_first())
    }
}

/// The identifier occurrences in a program, in visiting order.
pub open spec fn program_idents(blocks: Seq<Spanned<CstBlock>>) -> Seq<(String, HirSpan)>
    decreases blocks.len(),
{
    if blocks.len() == 0 {
        Seq::empty()
    } else {
        top_stmts_idents(blocks[0].node.statements@) + program_idents(blocks.drop_first())
    }
}

/// The ranges of the occurrences named `name`, in order.
pub open spec fn spans_named(occ: Seq<(String, HirSpan)>, name: Seq<char>) -> Seq<HirSpan>
    decreases occ.len(),
{
    if occ.len() == 0 {
        Seq::empty()
    } else {
        spans_named(occ.drop_last(), name) + if occ.last().0@ == name {
            seq![occ.last().1]
        } else {
            Seq::empty()
        }
    }
}

/// Some occurrence is named `name`.
pub open spec fn occurs(occ: Seq<(String, HirSpan)>, name: Seq<char>) -> bool {
    exists|j: int| 0 <= j < occ.len() && (#[trigger] occ[j]).0@ == name
}

/// Some group is named `name`.
pub open spec fn named_in(groups: Seq<(String, Vec<HirSpan>)>, name: Seq<char>) -> bool {
    exists|i: int| 0 <= i < groups.len() && (#[trigger] groups[i]).0@ == name
}

/// `groups` holds each name of the occurrences once, with the ranges of its
/// occurrences in order.
pub open spec fn groups_occurrences(groups: Seq<(String, Vec<HirSpan>)>, occ: Seq<(String, HirSpan)>) -> bool {
    &&& forall|i: int, k: int| 0 <= i < k < groups.len() ==> groups[i].0@ != groups[k].0@
    &&& forall|i: int| 0 <= i < groups.len() ==> occurs(occ, #[trigger] groups[i].0@)
    &&& forall|j: int| 0 <= j < occ.len() ==> named_in(groups, (#[trigger] occ[j]).0@)
    &&& forall|i: int| 0 <= i < groups.len() ==> (#[trigger] groups[i]).1@ == spans_named(occ, groups[i].0@)
}

/// Appends an identifier occurrence.
fn push_occurrence(name: &Spanned<String>, out: &mut Vec<(String, HirSpan)>)
    ensures
        final(out)@ == old(out)@.push(occurrence(*name)),
{
    out.push((name.node.clone(), HirSpan::new(name.span.start as usize, name.span.end as usize)));
}

/// Appends the identifier occurrences in an expression.
fn idents_expr(e: &Spanned<CstExpr>, out: &mut Vec<(String, HirSpan)>)
    ensures
        final(out)@ == old(out)@ + expr_idents(*e),
    decreases e, 1nat,
{
    let ghost before = out@;
    match &e.node {
        CstExpr::Identifier(name) => {
            push_occurrence(name, out);
        },
        CstExpr::FunctionCall { callee, arguments, .. } => {
            idents_expr(callee, out);
            idents_call_args(arguments, out);
        },
        CstExpr::Infix { lhs, rhs, .. } => {
            idents_expr(lhs, out);
            idents_expr(rhs, out);
        },
        CstExpr::Prefix { rhs, .. } => {
            idents_expr(rhs, out);
        },
        CstExpr::Postfix { lhs, .. } => {
            idents_expr(lhs, out);
        },
        CstExpr::MemberAccess { object, .. } => {
            idents_expr(object, out);
        },
        CstExpr::FieldAccess { object, .. } => {
            idents_expr(object, out);
        },
        CstExpr::ArrayIndex { array, indices, .. } => {
            idents_expr(array, out);
            idents_indices(indices, out);
        },
        CstExpr::Compose { lhs, rhs, .. } => {
            idents_expr(lhs, out);
            idents_expr(rhs, out);
        },
        CstExpr::Group { inner, .. } => {
            idents_expr(inner, out);
        },
        CstExpr::Loop { init_vars, body, .. } => {
            idents_inits(init_vars, out);
            idents_block(&body.node.statements, out);
        },
        CstExpr::StructInit { fields, .. } => {
            idents_field_values(fields, out);
        },
        CstExpr::Array { elements, .. } => {
            idents_exprs(elements, out);
        },
        CstExpr::Closure { body, .. } => match body {
            CstClosureBody::Expression(b) => {
                idents_expr(b, out);
            },
            CstClosureBody::Block(blk) => {
                idents_block(&blk.node.statements, out);
            },
        },
        _ => {},
    }
    assert(out@ =~= before + expr_idents(*e));
}

/// Appends the identifier occurrences in an optional expression.
fn idents_opt(e: &Option<Spanned<CstExpr>>, out: &mut Vec<(String, HirSpan)>)
    ensures
        final(out)@ == old(out)@ + opt_idents(*e),
    decreases e, 1nat,
{
    match e {
        Some(x) => {
            idents_expr(x, out);
        },
        None => {
            assert(out@ =~= old(out)@ + opt_idents(*e));
        },
    }
}

/// Appends the identifier occurrences in a list of expressions.
fn idents_exprs(xs: &Vec<Spanned<CstExpr>>, out: &mut Vec<(String, HirSpan)>)
    ensures
        final(out)@ == old(out)@ + exprs_idents(xs@),
    decreases xs@, 0nat,
{
    let m = xs.len();
    let mut i: usize = 0;
    assert(xs@.subrange(0, m as int) =~= xs@);
    while i < m
        invariant
            m == xs@.len(),
            0 <= i <= m,
            out@ + exprs_idents(xs@.subrange(i as int, m as int)) == old(out)@ + exprs_idents(xs@),
        decreases m - i,
    {
        let ghost before = out@;
        let ghost sub = xs@.subrange(i as int, m as int);
        assert(sub.drop_first() =~= xs@.subrange(i + 1, m as int));
        assert(sub[0] == xs@[i as int]);
        let ghost part = expr_idents(xs@[i as int]);
        idents_expr(&xs[i], out);
        assert(out@ =~= before + part);
        proof {
            vstd::seq_lib::lemma_concat_associative(before, part, exprs_idents(xs@.subrange(i + 1, m as int)));
        }
        i += 1;
    }
    assert(out@ =~= out@ + exprs_idents(xs@.subrange(m as int, m as int)));
}

/// Appends the identifier occurrences in call arguments.
fn idents_call_args(xs: &Vec<Spanned<CstCallArgument>>, out: &mut Vec<(String, HirSpan)>)
    ensures
        final(out)@ == old(out)@ + call_args_idents(xs@),
    decreases xs@, 0nat,
{
    let m = xs.len();
    let mut i: usize = 0;
    assert(xs@.subrange(0, m as int) =~= xs@);
    while i < m
        invariant
            m == xs@.len(),
            0 <= i <= m,
            out@ + call_args_idents(xs@.subrange(i as int, m as int)) == old(out)@ + call_args_idents(xs@),
        decreases m - i,
    {
        let ghost before = out@;
        let ghost sub = xs@.subrange(i as int, m as int);
        assert(sub.drop_first() =~= xs@.subrange(i + 1, m as int));
        assert(sub[0] == xs@[i as int]);
        let ghost part = match xs@[i as int].node {
            CstCallArgument::Expr(e) => expr_idents(e),
            CstCallArgument::Hole(_) => Seq::empty(),
        };
        match &xs[i].node {
            CstCallArgument::Expr(e) => {
                idents_expr(e, out);
            },
            CstCallArgument::Hole(_) => {},
        }
        assert(out@ =~= before + part);
        proof {
            vstd::seq_lib::lemma_concat_associative(before, part, call_args_idents(xs@.subrange(i + 1, m as int)));
        }
        i += 1;
    }
    assert(out@ =~= out@ + call_args_idents(xs@.subrange(m as int, m as int)));
}

/// Appends the identifier occurrences in index specifications.
fn idents_indices(xs: &Vec<Spanned<CstIndexSpec>>, out: &mut Vec<(String, HirSpan)>)
    ensures
        final(out)@ == old(out)@ + indices_idents(xs@),
    decreases xs@, 0nat,
{
    let m = xs.len();
    let mut i: usize = 0;
    assert(xs@.subrange(0, m as int) =~= xs@);
    while i < m
        invariant
            m == xs@.len(),
            0 <= i <= m,
            out@ + indices_idents(xs@.subrange(i as int, m as int)) == old(out)@ + indices_idents(xs@),
        decreases m - i,
    {
        let ghost before = out@;
        let ghost sub = xs@.subrange(i as int, m as int);
        assert(sub.drop_first() =~= xs@.subrange(i + 1, m as int));
        assert(sub[0] == xs@[i as int]);
        let ghost part = match xs@[i as int].node {
            CstIndexSpec::Single(e) => expr_idents(e),
            CstIndexSpec::Range { start, end, step, .. } => opt_idents(start) + opt_idents(end)
                + match step {
                Some(st) => expr_idents(st.1),
                None => Seq::empty(),
            },
            CstIndexSpec::InclusiveRange { start, end, .. } => opt_idents(start) + opt_idents(end),
        };
        match &xs[i].node {
            CstIndexSpec::Single(e) => {
                idents_expr(e, out);
            },
            CstIndexSpec::Range { start, end, step, .. } => {
                idents_opt(start, out);
                idents_opt(end, out);
                match step {
                    Some(st) => idents_expr(&st.1, out),
                    None => {},
                }
            },
            CstIndexSpec::InclusiveRange { start, end, .. } => {
                idents_opt(start, out);
                idents_opt(end, out);
            },
        }
        assert(out@ =~= before + part);
        proof {
            vstd::seq_lib::lemma_concat_associative(before, part, indices_idents(xs@.subrange(i + 1, m as int)));
        }
        i += 1;
    }
    assert(out@ =~= out@ + indices_idents(xs@.subrange(m as int, m as int)));
}

/// Appends the identifier occurrences in loop initial values.
fn idents_inits(xs: &Vec<CstLoopInit>, out: &mut Vec<(String, HirSpan)>)
    ensures
        final(out)@ == old(out)@ + inits_idents(xs@),
    decreases xs@, 0nat,
{
    let m = xs.len();
    let mut i: usize = 0;
    assert(xs@.subrange(0, m as int) =~= xs@);
    while i < m
        invariant
            m == xs@.len(),
            0 <= i <= m,
            out@ + inits_idents(xs@.subrange(i as int, m as int)) == old(out)@ + inits_idents(xs@),
        decreases m - i,
    {
        let ghost before = out@;
        let ghost sub = xs@.subrange(i as int, m as int);
        assert(sub.drop_first() =~= xs@.subrange(i + 1, m as int));
        assert(sub[0] == xs@[i as int]);
        let ghost part = expr_idents(xs@[i as int].2);
        idents_expr(&xs[i].2, out);
        assert(out@ =~= before + part);
        proof {
            vstd::seq_lib::lemma_concat_associative(before, part, inits_idents(xs@.subrange(i + 1, m as int)));
        }
        i += 1;
    }
    assert(out@ =~= out@ + inits_idents(xs@.subrange(m as int, m as int)));
}

/// Appends the identifier occurrences in the values of a struct literal.
fn idents_field_values(xs: &Vec<Spanned<crate::cst::CstStructInitField>>, out: &mut Vec<(String, HirSpan)>)
    ensures
        final(out)@ == old(out)@ + field_values_idents(xs@),
    decreases xs@, 0nat,
{
    let m = xs.len();
    let mut i: usize = 0;
    assert(xs@.subrange(0, m as int) =~= xs@);
    while i < m
        invariant
            m == xs@.len(),
            0 <= i <= m,
            out@ + field_values_idents(xs@.subrange(i as int, m as int)) == old(out)@ + field_values_idents(xs@),
        decreases m - i,
    {
        let ghost before = out@;
        let ghost sub = xs@.subrange(i as int, m as int);
        assert(sub.drop_first() =~= xs@.subrange(i + 1, m as int));
        assert(sub[0] == xs@[i as int]);
        let ghost part = expr_idents(xs@[i as int].node.value);
        idents_expr(&xs[i].node.value, out);
        assert(out@ =~= before + part);
        proof {
            vstd::seq_lib::lemma_concat_associative(before, part, field_values_idents(xs@.subrange(i + 1, m as int)));
        }
        i += 1;
    }
    assert(out@ =~= out@ + field_values_idents(xs@.subrange(m as int, m as int)));
}

/// Appends the identifier occurrences in a nested block.
fn idents_block(xs: &Vec<Spanned<CstStatement>>, out: &mut Vec<(String, HirSpan)>)
    ensures
        final(out)@ == old(out)@ + block_idents(xs@),
    decreases xs@, 0nat,
{
    let m = xs.len();
    let mut i: usize = 0;
    assert(xs@.subrange(0, m as int) =~= xs@);
    while i < m
        invariant
            m == xs@.len(),
            0 <= i <= m,
            out@ + block_idents(xs@.subrange(i as int, m as int)) == old(out)@ + block_idents(xs@),
        decreases m - i,
    {
        let ghost before = out@;
        let ghost sub = xs@.subrange(i as int, m as int);
        assert(sub.drop_first() =~= xs@.subrange(i + 1, m as int));
        assert(sub[0] == xs@[i as int]);
        let ghost part = match xs@[i as int].node {
            CstStatement::Expression(e) => expr_idents(e),
            CstStatement::Let { expression, .. } => expr_idents(expression),
            CstStatement::Const { expression, .. } => expr_idents(expression),
            CstStatement::Assign { expression, .. } => expr_idents(expression),
            CstStatement::AssignIncrement { expression, .. } => expr_idents(expression),
            CstStatement::AssignDecrement { expression, .. } => expr_idents(expression),
            _ => Seq::empty(),
        };
        match &xs[i].node {
            CstStatement::Expression(e) => idents_expr(e, out),
            CstStatement::Let { expression, .. } => idents_expr(expression, out),
            CstStatement::Const { expression, .. } => idents_expr(expression, out),
            CstStatement::Assign { expression, .. } => idents_expr(expression, out),
            CstStatement::AssignIncrement { expression, .. } => idents_expr(expression, out),
            CstStatement::AssignDecrement { expression, .. } => idents_expr(expression, out),
            _ => {},
        }
        assert(out@ =~= before + part);
        proof {
            vstd::seq_lib::lemma_concat_associative(before, part, block_idents(xs@.subrange(i + 1, m as int)));
        }
        i += 1;
    }
    assert(out@ =~= out@ + block_idents(xs@.subrange(m as int, m as int)));
}

/// Appends the identifier occurrences in the arms of a top-level `if`.
fn idents_arms(xs: &Vec<(Spanned<CstExpr>, Spanned<CstBlock>)>, out: &mut Vec<(String, HirSpan)>)
    ensures
        final(out)@ == old(out)@ + arms_idents(xs@),
    decreases xs@, 0nat,
{
    let m = xs.len();
    let mut i: usize = 0;
    assert(xs@.subrange(0, m as int) =~= xs@);
    while i < m
        invariant
            m == xs@.len(),
            0 <= i <= m,
            out@ + arms_idents(xs@.subrange(i as int, m as int)) == old(out)@ + arms_idents(xs@),
        decreases m - i,
    {
        let ghost before = out@;
        let ghost sub = xs@.subrange(i as int, m as int);
        assert(sub.drop_first() =~= xs@.subrange(i + 1, m as int));
        assert(sub[0] == xs@[i as int]);
        let ghost part = expr_idents(xs@[i as int].0) + block_idents(xs@[i as int].1.node.statements@);
        idents_expr(&xs[i].0, out);
        idents_block(&xs[i].1.node.statements, out);
        assert(out@ =~= before + part);
        proof {
            vstd::seq_lib::lemma_concat_associative(before, part, arms_idents(xs@.subrange(i + 1, m as int)));
        }
        i += 1;
    }
    assert(out@ =~= out@ + arms_idents(xs@.subrange(m as int, m as int)));
}

/// Appends the identifier occurrences in the cases of a top-level `match`.
fn idents_cases(xs: &Vec<(Option<Spanned<CstExpr>>, Spanned<CstBlock>)>, out: &mut Vec<(String, HirSpan)>)
    ensures
        final(out)@ == old(out)@ + cases_idents(xs@),
    decreases xs@, 0nat,
{
    let m = xs.len();
    let mut i: usize = 0;
    assert(xs@.subrange(0, m as int) =~= xs@);
    while i < m
        invariant
            m == xs@.len(),
            0 <= i <= m,
            out@ + cases_idents(xs@.subrange(i as int, m as int)) == old(out)@ + cases_idents(xs@),
        decreases m - i,
    {
        let ghost before = out@;
        let ghost sub = xs@.subrange(i as int, m as int);
        assert(sub.drop_first() =~= xs@.subrange(i + 1, m as int));
        assert(sub[0] == xs@[i as int]);
        let ghost part = opt_idents(xs@[i as int].0) + block_idents(xs@[i as int].1.node.statements@);
        idents_opt(&xs[i].0, out);
        idents_block(&xs[i].1.node.statements, out);
        assert(out@ =~= before + part);
        proof {
            vstd::seq_lib::lemma_concat_associative(before, part, cases_idents(xs@.subrange(i + 1, m as int)));
        }
        i += 1;
    }
    assert(out@ =~= out@ + cases_idents(xs@.subrange(m as int, m as int)));
}

/// Appends the identifier occurrences in a top-level statement.
fn idents_top_stmt(s: &CstStatement, out: &mut Vec<(String, HirSpan)>)
    ensures
        final(out)@ == old(out)@ + top_stmt_idents(*s),
{
    let ghost before = out@;
    match s {
        CstStatement::Let { identifier, expression, .. } => {
            push_occurrence(identifier, out);
            idents_expr(expression, out);
        },
        CstStatement::Assign { identifier, expression, .. } => {
            push_occurrence(identifier, out);
            idents_expr(expression, out);
        },
        CstStatement::FunctionDeclaration { identifier, body, .. } => {
            push_occurrence(identifier, out);
            idents_block(&body.node.statements, out);
        },
        CstStatement::If { arms, else_block, .. } => {
            idents_arms(arms, out);
            match else_block {
                Some(b) => idents_block(&b.node.statements, out),
                None => {},
            }
        },
        CstStatement::Match { expression, cases, .. } => {
            idents_expr(expression, out);
            idents_cases(cases, out);
        },
        CstStatement::Return { expression, .. } => {
            idents_expr(expression, out);
        },
        CstStatement::Break { expression, .. } => {
            idents_opt(expression, out);
        },
        CstStatement::Loop { init_vars, body, .. } => {
            idents_inits(init_vars, out);
            idents_block(&body.node.statements, out);
        },
        CstStatement::While { condition, body, .. } => {
            idents_expr(condition, out);
            idents_block(&body.node.statements, out);
        },
        CstStatement::For { start, end, body, .. } => {
            idents_expr(start, out);
            idents_expr(end, out);
            idents_block(&body.node.statements, out);
        },
        CstStatement::Expression(e) => {
            idents_expr(e, out);
        },
        _ => {},
    }
    assert(out@ =~= before + top_stmt_idents(*s));
}

/// The identifier occurrences of a program, in visiting order.
fn program_occurrences(cst: &CstProgram) -> (out: Vec<(String, HirSpan)>)
    ensures
        out@ == program_idents(cst.blocks@),
{
    let mut out: Vec<(String, HirSpan)> = Vec::new();
    let blocks = &cst.blocks;
    let m = blocks.len();
    let mut i: usize = 0;
    assert(blocks@.subrange(0, m as int) =~= blocks@);
    while i < m
        invariant
            m == blocks@.len(),
            0 <= i <= m,
            out@ + program_idents(blocks@.subrange(i as int, m as int)) == program_idents(blocks@),
        decreases m - i,
    {
        let ghost before = out@;
        let ghost sub = blocks@.subrange(i as int, m as int);
        assert(sub.drop_first() =~= blocks@.subrange(i + 1, m as int));
        assert(sub[0] == blocks@[i as int]);
        let ss = &blocks[i].node.statements;
        let n = ss.len();
        let mut k: usize = 0;
        assert(ss@.subrange(0, n as int) =~= ss@);
        while k < n
            invariant
                n == ss@.len(),
                0 <= k <= n,
                out@ + top_stmts_idents(ss@.subrange(k as int, n as int)) == before + top_stmts_idents(
                    ss@,
                ),
            decreases n - k,
        {
            let ghost b2 = out@;
            let ghost sub2 = ss@.subrange(k as int, n as int);
            assert(sub2.drop_first() =~= ss@.subrange(k + 1, n as int));
            assert(sub2[0] == ss@[k as int]);
            idents_top_stmt(&ss[k].node, &mut out);
            proof {
                vstd::seq_lib::lemma_concat_associative(
                    b2,
                    top_stmt_idents(ss@[k as int].node),
                    top_stmts_idents(ss@.subrange(k + 1, n as int)),
                );
            }
            k += 1;
        }
        assert(out@ =~= out@ + top_stmts_idents(ss@.subrange(n as int, n as int)));
        proof {
            vstd::seq_lib::lemma_concat_associative(
                before,
                top_stmts_idents(blocks@[i as int].node.statements@),
                program_idents(blocks@.subrange(i + 1, m as int)),
            );
        }
        i += 1;
    }
    assert(out@ =~= out@ + program_idents(blocks@.subrange(m as int, m as int)));
    out
}

/// No occurrence of a prefix is named `name`, so none of its ranges is.
proof fn lemma_spans_named_absent(occ: Seq<(String, HirSpan)>, name: Seq<char>)
    requires
        forall|j: int| 0 <= j < occ.len() ==> (#[trigger] occ[j]).0@ != name,
    ensures
        spans_named(occ, name) == Seq::<HirSpan>::empty(),
    decreases occ.len(),
{
    if occ.len() > 0 {
        lemma_spans_named_absent(occ.drop_last(), name);
    }
}

/// The ranges of the occurrences named `name`.
fn ranges_named(occ: &Vec<(String, HirSpan)>, name: &String) -> (r: Vec<HirSpan>)
    ensures
        r@ == spans_named(occ@, name@),
{
    let mut r: Vec<HirSpan> = Vec::new();
    let n = occ.len();
    let mut j: usize = 0;
    while j < n
        invariant
            n == occ@.len(),
            0 <= j <= n,
            r@ == spans_named(occ@.subrange(0, j as int), name@),
        decreases n - j,
    {
        assert(occ@.subrange(0, j + 1).drop_last() =~= occ@.subrange(0, j as int));
        if occ[j].0 == *name {
            r.push(occ[j].1);
        }
        assert(r@ =~= spans_named(occ@.subrange(0, j + 1), name@));
        j += 1;
    }
    assert(occ@.subrange(0, n as int) =~= occ@);
    r
}

/// Whether `name` is among the first `k` group names.
fn has_group(groups: &Vec<(String, Vec<HirSpan>)>, name: &String) -> (r: bool)
    ensures
        r == named_in(groups@, name@),
{
    let n = groups.len();
    let mut i: usize = 0;
    while i < n
        invariant
            n == groups@.len(),
            0 <= i <= n,
            forall|q: int| 0 <= q < i ==> (#[trigger] groups@[q]).0@ != name@,
        decreases n - i,
    {
        if groups[i].0 == *name {
            return true;
        }
        i += 1;
    }
    false
}

/// Groups identifier occurrences by name: each name once, in order of its
/// first occurrence, with the ranges of its occurrences in order.
pub fn group_occurrences(occ: &Vec<(String, HirSpan)>) -> (groups: Vec<(String, Vec<HirSpan>)>)
    ensures
        groups_occurrences(groups@, occ@),
{
    let mut groups: Vec<(String, Vec<HirSpan>)> = Vec::new();
    let n = occ.len();
    let mut j: usize = 0;
    while j < n
        invariant
            n == occ@.len(),
            0 <= j <= n,
            forall|i: int, k: int| 0 <= i < k < groups@.len() ==> groups@[i].0@ != groups@[k].0@,
            forall|i: int| 0 <= i < groups@.len() ==> occurs(occ@, #[trigger] groups@[i].0@),
            forall|q: int| 0 <= q < j ==> named_in(groups@, (#[trigger] occ@[q]).0@),
            forall|i: int| 0 <= i < groups@.len() ==> (#[trigger] groups@[i]).1@ == spans_named(occ@, groups@[i].0@),
        decreases n - j,
    {
        if !has_group(&groups, &occ[j].0) {
            let ranges = ranges_named(occ, &occ[j].0);
            let ghost old_groups = groups@;
            groups.push((occ[j].0.clone(), ranges));
            proof {
                assert(occurs(occ@, occ@[j as int].0@));
                assert forall|q: int| 0 <= q <= j implies named_in(groups@, (#[trigger] occ@[q]).0@) by {
                    if q < j {
                        let i = choose|i: int| 0 <= i < old_groups.len() && (#[trigger] old_groups[i]).0@ == occ@[q].0@;
                        assert(groups@[i] == old_groups[i]);
                    } else {
                        assert(groups@[old_groups.len() as int].0@ == occ@[q].0@);
                    }
                }
            }
        }
        j += 1;
    }
    groups
}

/// The ranges of every identifier in the program, by name: the names that
/// top-level `let`, assignments and function declarations introduce and the
/// identifiers used in expressions, with the ranges of their occurrences in
/// visiting order.
pub fn extract_cst_identifier_spans(cst: &CstProgram) -> (r: Vec<(String, Vec<HirSpan>)>)
    ensures
        groups_occurrences(r@, program_idents(cst.blocks@)),
{
    let occ = program_occurrences(cst);
    group_occurrences(&occ)
}

} // verus!
