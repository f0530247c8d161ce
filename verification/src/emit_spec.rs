//! What the bytecode emitter produces, stated over the HIR.
//!
//! `*_len` gives the number of instructions a node compiles to; `*_code`
//! gives the instructions themselves, placed at a given position, since jump
//! targets are absolute. A statement's code also depends on the innermost
//! enclosing loop: where `break` and `continue` jump, and the slot a `break`
//! stores its value in.
use vstd::prelude::*;
use crate::ast::{BinaryOp, UnaryOp};
use crate::hir::{
    HirAst, HirBlock, HirExpression, HirStmt, HirVar, ValueKind, ReducerType, function_index,
    var_index, constant_index, struct_index, name_index, import_lookup,
};
use crate::opcode::OpCode;
use crate::chars::{trim_start, trim_end};

verus! {

broadcast use vstd::std_specs::vec::axiom_vec_index_decreases;

/// The slot a `match` keeps its subject in.
pub const MATCH_SLOT: u32 = 999999;
/// The slot a `sum` or `reduce` keeps its accumulator in.
pub const ACC_SLOT: u32 = 999998;
/// The slot a `sum` or `reduce` keeps the current element in.
pub const ELEM_SLOT: u32 = 999997;
/// The slot a `sum` or `reduce` keeps its iterator in.
pub const ITER_SLOT: u32 = 999996;
/// The slot a `sum` or `reduce` keeps the "more elements" flag in.
pub const HAS_MORE_SLOT: u32 = 999995;
/// The bit pattern of `-999999999.0`, which marks an absent slice bound.
pub const NONE_SENTINEL: u64 = 0xc1cd_cd64_ff80_0000;
/// The bit pattern of `1.0`.
pub const ONE_BITS: u64 = 0x3ff0_0000_0000_0000;
/// The bit pattern of `0.0`.
pub const ZERO_BITS: u64 = 0;

/// The innermost loop around the code being emitted: where it starts, the
/// instruction after it (where `break` jumps), the slot a `break` value goes
/// to, and where `continue` jumps.
#[derive(Debug, Clone, Copy)]
pub struct LoopInfo {
    pub start: usize,
    pub end: usize,
    pub break_slot: Option<u32>,
    pub continue_target: usize,
}

/// The break slot of the innermost loop, if any.
pub open spec fn slot_of(ctx: Option<LoopInfo>) -> Option<u32> {
    match ctx {
        Some(c) => c.break_slot,
        None => None,
    }
}

/// One instruction when `slot` is set, none otherwise.
pub open spec fn slot_count(slot: Option<u32>) -> nat {
    if slot is Some { 1 } else { 0 }
}

/// `LdVar(slot)` when `slot` is set.
pub open spec fn load_slot(slot: Option<u32>) -> Seq<OpCode> {
    match slot {
        Some(s) => seq![OpCode::LdVar(s)],
        None => Seq::empty(),
    }
}

/// `StVar(slot)` when `slot` is set.
pub open spec fn store_slot(slot: Option<u32>) -> Seq<OpCode> {
    match slot {
        Some(s) => seq![OpCode::StVar(s)],
        None => Seq::empty(),
    }
}

// ---------------------------------------------------------------------------
// Static facts about expressions
// ---------------------------------------------------------------------------

/// The first scope that declares variable `id`, with the variable's place in it.
pub open spec fn first_scope_var(scopes: Seq<Vec<HirVar>>, id: u32) -> Option<(int, int)>
    decreases scopes.len(),
{
    if scopes.len() == 0 {
        None
    } else {
        match first_scope_var(scopes.drop_last(), id) {
            Some(sk) => Some(sk),
            None => match var_index(scopes.last()@, id) {
                Some(k) => Some((scopes.len() - 1, k)),
                None => None,
            },
        }
    }
}

/// The expression is known, before running, to produce a number.
pub open spec fn is_static_number(e: HirExpression, p: HirAst) -> bool
    decreases e,
{
    match e {
        HirExpression::Number(_) => true,
        HirExpression::Identifier(v) => match first_scope_var(p.scopes@, v) {
            Some(sk) => p.scopes@[sk.0]@[sk.1].kind is Number,
            None => false,
        },
        HirExpression::Constant(c) => match constant_index(p.constants@, c) {
            Some(k) => p.constants@[k].kind is Number,
            None => false,
        },
        HirExpression::Binary { lhs, rhs, operator } => match operator {
            BinaryOp::Add | BinaryOp::Sub | BinaryOp::Mul | BinaryOp::Div | BinaryOp::Pow => {
                is_static_number(*lhs, p) && is_static_number(*rhs, p)
            },
            _ => false,
        },
        _ => false,
    }
}

/// The code of `c` with ASCII upper case letters made lower case.
pub open spec fn ascii_lower_code(c: char) -> u32 {
    if 'A' <= c && c <= 'Z' {
        (c as u32 + 32) as u32
    } else {
        c as u32
    }
}

/// The characters of `unknown`.
pub open spec fn unknown_text() -> Seq<char> {
    seq!['u', 'n', 'k', 'n', 'o', 'w', 'n']
}

/// `s` is `unknown`, ignoring ASCII case.
pub open spec fn is_unknown_text(s: Seq<char>) -> bool {
    s.len() == 7 && forall|i: int| 0 <= i < 7 ==> ascii_lower_code(#[trigger] s[i]) == unknown_text()[i] as u32
}

/// An arrow `~>` starts at `i`.
pub open spec fn arrow_at(t: Seq<char>, i: int) -> bool {
    0 <= i && i + 1 < t.len() && t[i] == '~' && t[i + 1] == '>'
}

/// A thunk type `param ~> return` whose return type, after its first arrow
/// and with white space trimmed, reads `unknown` in any ASCII case.
pub open spec fn returns_nothing(t: Seq<char>) -> bool {
    exists|i: int|
        #![trigger arrow_at(t, i)]
        arrow_at(t, i) && (forall|j: int| 0 <= j < i ==> !arrow_at(t, j)) && is_unknown_text(
            trim_end(trim_start(t.subrange(i + 2, t.len() as int))),
        )
}

/// Function `fid` is known and returns nothing.
pub open spec fn returns_unknown(p: HirAst, fid: u32) -> bool {
    match function_index(p.functions@, fid) {
        Some(k) => p.functions@[k].return_type is Unknown,
        None => false,
    }
}

/// In some scope, the first variable with id `v` holds a thunk that returns nothing.
pub open spec fn thunk_var_returns_nothing(p: HirAst, v: u32) -> bool {
    exists|s: int|
        0 <= s < p.scopes@.len() && match #[trigger] var_index(p.scopes@[s]@, v) {
            Some(k) => p.scopes@[s]@[k].kind matches ValueKind::Thunk(t) && returns_nothing(t@),
            None => false,
        }
}

/// The expression leaves no value on the stack.
pub open spec fn is_void(e: HirExpression, p: HirAst) -> bool {
    match e {
        HirExpression::FunctionCall { function_id, invoke, .. } => invoke && returns_unknown(
            p,
            function_id,
        ),
        HirExpression::PostfixInvoke { operand, .. } => match *operand {
            HirExpression::FunctionCall { function_id, .. } => returns_unknown(p, function_id),
            HirExpression::Identifier(v) => thunk_var_returns_nothing(p, v),
            _ => false,
        },
        _ => false,
    }
}

/// The function imported under `name` by the first module whose imports hold
/// that name for a known function.
pub open spec fn import_resolution(
    mods: Seq<(String, Vec<(String, u32)>)>,
    p: HirAst,
    name: Seq<char>,
) -> Option<u32>
    decreases mods.len(),
{
    if mods.len() == 0 {
        None
    } else {
        match import_lookup(mods[0].1@, name) {
            Some(f) => if function_index(p.functions@, f) is Some {
                Some(f)
            } else {
                import_resolution(mods.drop_first(), p, name)
            },
            None => import_resolution(mods.drop_first(), p, name),
        }
    }
}

/// The imported function that variable `v` names: the variable is looked up
/// scope by scope, and its name among the imports.
pub open spec fn scopes_resolution(scopes: Seq<Vec<HirVar>>, p: HirAst, v: u32) -> Option<u32>
    decreases scopes.len(),
{
    if scopes.len() == 0 {
        None
    } else {
        match var_index(scopes[0]@, v) {
            Some(k) => match import_resolution(p.module_imports@, p, scopes[0]@[k].name@) {
                Some(f) => Some(f),
                None => scopes_resolution(scopes.drop_first(), p, v),
            },
            None => scopes_resolution(scopes.drop_first(), p, v),
        }
    }
}

/// The imported function that variable `v` names, if any.
pub open spec fn resolved_function(p: HirAst, v: u32) -> Option<u32> {
    scopes_resolution(p.scopes@, p, v)
}

/// The index of the last field initialiser named `name`.
pub open spec fn last_field_index(fields: Seq<(String, HirExpression)>, name: Seq<char>) -> Option<int>
    decreases fields.len(),
{
    if fields.len() == 0 {
        None
    } else if fields.last().0@ == name {
        Some(fields.len() - 1)
    } else {
        last_field_index(fields.drop_last(), name)
    }
}

/// The index of field `name` in the first struct that has such a field.
pub open spec fn field_position(structs: Seq<crate::hir::HirStructDef>, name: Seq<char>) -> Option<int>
    decreases structs.len(),
{
    if structs.len() == 0 {
        None
    } else {
        match name_index(structs[0].fields@, name) {
            Some(i) => Some(i),
            None => field_position(structs.drop_first(), name),
        }
    }
}

/// The function a `fold` combines with.
pub open spec fn fold_function(args: Seq<HirExpression>, p: HirAst) -> u32 {
    match args[1] {
        HirExpression::Closure { function_id } => function_id,
        HirExpression::FunctionCall { function_id, .. } => function_id,
        HirExpression::Identifier(v) => resolved_function(p, v)->Some_0,
        _ => 0,
    }
}

/// The function a `reduce` combines with.
pub open spec fn reduce_function(args: Seq<HirExpression>, p: HirAst) -> u32 {
    match args[0] {
        HirExpression::FunctionCall { function_id, .. } => function_id,
        HirExpression::Identifier(v) => resolved_function(p, v)->Some_0,
        _ => 0,
    }
}

/// Bit `i` is set when argument `i` is bound.
pub open spec fn bound_mask(bound: Seq<Option<HirExpression>>) -> u64
    decreases bound.len(),
{
    if bound.len() == 0 {
        0
    } else if bound.last() is Some {
        bound_mask(bound.drop_last()) | (1u64 << ((bound.len() - 1) as u64))
    } else {
        bound_mask(bound.drop_last())
    }
}

/// The number of holes.
pub open spec fn hole_count(bound: Seq<Option<HirExpression>>) -> nat
    decreases bound.len(),
{
    if bound.len() == 0 {
        0
    } else {
        hole_count(bound.drop_last()) + if bound.last() is None { 1nat } else { 0 }
    }
}

/// The instruction of a binary operator; `numeric` when both operands are
/// known to be numbers.
pub open spec fn binary_op_code(op: BinaryOp, numeric: bool) -> OpCode {
    match op {
        BinaryOp::Add => if numeric { OpCode::AddNum } else { OpCode::Add },
        BinaryOp::Sub => if numeric { OpCode::SubNum } else { OpCode::Sub },
        BinaryOp::Mul => if numeric { OpCode::MulNum } else { OpCode::Mul },
        BinaryOp::Div => OpCode::Div,
        BinaryOp::Mod => OpCode::Mod,
        BinaryOp::Pow => OpCode::Pow,
        BinaryOp::Eq => OpCode::Eq,
        BinaryOp::Ne => OpCode::Ne,
        BinaryOp::Gt => OpCode::Gt,
        BinaryOp::Lt => OpCode::Lt,
        BinaryOp::Ge => OpCode::Ge,
        BinaryOp::Le => OpCode::Le,
        BinaryOp::And => OpCode::And,
        BinaryOp::Or => OpCode::Or,
    }
}

/// A comparison operator.
pub open spec fn is_comparison(op: BinaryOp) -> bool {
    op is Eq || op is Ne || op is Gt || op is Lt || op is Ge || op is Le
}

/// The loop body starts with `if (cond) { break [value]; }` and nothing else
/// in that `if`.
pub open spec fn is_guarded_loop(body: HirBlock) -> bool {
    &&& body.statements@.len() > 0
    &&& body.statements@[0] matches HirStmt::If { arms, else_block }
    &&& arms@.len() == 1
    &&& else_block.statements@.len() == 0
    &&& arms@[0].1.statements@.len() == 1
    &&& arms@[0].1.statements@[0] is Break
}

// ---------------------------------------------------------------------------
// Lengths
// ---------------------------------------------------------------------------

/// The number of instructions an expression compiles to.
pub open spec fn expr_len(e: HirExpression, p: HirAst) -> nat
    decreases e, 0nat,
{
    match e {
        HirExpression::Number(_) => 1,
        HirExpression::String(_) => 1,
        HirExpression::Boolean(_) => 1,
        HirExpression::Identifier(_) => 1,
        HirExpression::Constant(_) => 1,
        HirExpression::Closure { .. } => 1,
        HirExpression::Binary { lhs, rhs, .. } => expr_len(*lhs, p) + expr_len(*rhs, p) + 1,
        HirExpression::Unary { operand, .. } => expr_len(*operand, p) + 1,
        HirExpression::FunctionCall { args, invoke, .. } => exprs_len(args@, p) + 2 + if invoke {
            1nat
        } else {
            0
        },
        HirExpression::PartialCall { bound, .. } => bound_len(bound@, p) + 1,
        HirExpression::PostfixInvoke { operand, args } => match args {
            Some(list) => exprs_len(list@, p) + expr_len(*operand, p) + 2,
            None => match *operand {
                HirExpression::PostfixInvoke { operand: inner, args: Some(inner_list) } => {
                    exprs_len(inner_list@, p) + expr_len(*inner, p) + 2 + if *inner is Identifier {
                        0nat
                    } else {
                        1
                    }
                },
                HirExpression::PartialCall { .. } => expr_len(*operand, p),
                HirExpression::FunctionCall { invoke, .. } => expr_len(*operand, p) + if invoke {
                    0nat
                } else {
                    1
                },
                _ => expr_len(*operand, p) + 1,
            },
        },
        HirExpression::ComposeThunk { first, second } => expr_len(*second, p) + expr_len(*first, p)
            + 1,
        HirExpression::Loop { init_vars, body, break_slot } => inits_len(init_vars@, p) + stmts_len(
            body.statements@,
            p,
            break_slot,
        ) + 1 + slot_count(break_slot),
        HirExpression::Array(es) => exprs_len(es@, p) + 1,
        HirExpression::ArrayIndex { array, index } => expr_len(*array, p) + expr_len(*index, p) + 1,
        HirExpression::ArraySlice { array, start, end, step, .. } => expr_len(*array, p) + match start {
            Some(b) => expr_len(*b, p),
            None => 1nat,
        } + match end {
            Some(b) => expr_len(*b, p),
            None => 1nat,
        } + match step {
            Some(b) => expr_len(*b, p),
            None => 1nat,
        } + 2,
        HirExpression::Reducer { array, reducer_type, reducer_args } => expr_len(*array, p) + (if *array
            is ComposeThunk {
            1nat
        } else {
            0
        }) + match reducer_type {
            ReducerType::Mapping | ReducerType::Filter => (if reducer_args@.len() == 1 {
                if reducer_args@[0] is Closure {
                    1nat
                } else {
                    expr_len(reducer_args@[0], p)
                }
            } else {
                0
            }) + 1,
            ReducerType::Fold => (if reducer_args@.len() >= 1 {
                expr_len(reducer_args@[0], p)
            } else {
                0
            }) + 2,
            ReducerType::Sum => 16,
            ReducerType::Reduce => 22,
        },
        HirExpression::StructInit { struct_name, fields } => match struct_index(
            p.structs@,
            struct_name@,
        ) {
            Some(k) => field_values_len(p.structs@[k].fields@, fields@, p) + 1,
            None => 1,
        },
        HirExpression::FieldAccess { base, .. } => expr_len(*base, p) + 1,
    }
}

/// The number of instructions a list of expressions compiles to.
pub open spec fn exprs_len(es: Seq<HirExpression>, p: HirAst) -> nat
    decreases es, 0nat,
{
    if es.len() == 0 {
        0
    } else {
        expr_len(es[0], p) + exprs_len(es.drop_first(), p)
    }
}

/// The number of instructions the bound arguments of a partial call compile to.
pub open spec fn bound_len(bound: Seq<Option<HirExpression>>, p: HirAst) -> nat
    decreases bound, 0nat,
{
    if bound.len() == 0 {
        0
    } else {
        bound_len(bound.drop_last(), p) + match bound.last() {
            Some(e) => expr_len(e, p),
            None => 0,
        }
    }
}

/// The number of instructions loop variable initialisations compile to.
pub open spec fn inits_len(inits: Seq<(u32, HirExpression)>, p: HirAst) -> nat
    decreases inits, 0nat,
{
    if inits.len() == 0 {
        0
    } else {
        expr_len(inits[0].1, p) + 1 + inits_len(inits.drop_first(), p)
    }
}

/// The number of instructions the field values of a struct literal compile
/// to, taken in the order of the struct's declared fields `names`.
pub open spec fn field_values_len(
    names: Seq<String>,
    fields: Seq<(String, HirExpression)>,
    p: HirAst,
) -> nat
    decreases fields, names.len(),
{
    if names.len() == 0 {
        0
    } else {
        (match last_field_index(fields, names[0]@) {
            Some(j) => if 0 <= j < fields.len() {
                expr_len(fields[j].1, p)
            } else {
                0
            },
            None => 0,
        }) + field_values_len(names.drop_first(), fields, p)
    }
}

/// The number of instructions a `match` pattern test compiles to.
pub open spec fn pattern_len(pat: HirExpression, p: HirAst) -> nat
    decreases pat, 1nat,
{
    match pat {
        HirExpression::Binary { lhs, rhs, operator } => if is_comparison(operator) {
            expr_len(*rhs, p) + 1
        } else if operator is And || operator is Or {
            pattern_len(*lhs, p) + 1 + pattern_len(*rhs, p) + 1
        } else {
            expr_len(pat, p)
        },
        _ => expr_len(pat, p),
    }
}

/// A `match` case tests its pattern as a pattern, not by equality.
pub open spec fn tests_as_pattern(pat: HirExpression) -> bool {
    pat matches HirExpression::Binary { operator, .. } && (is_comparison(operator) || operator is And
        || operator is Or)
}

/// The number of instructions that test a case's pattern against the subject.
pub open spec fn case_test_len(pat: HirExpression, p: HirAst) -> nat
    decreases pat, 2nat,
{
    if tests_as_pattern(pat) {
        pattern_len(pat, p)
    } else {
        expr_len(pat, p) + 1
    }
}

/// The number of instructions before a case's block.
pub open spec fn case_header_len(pat: Option<HirExpression>, p: HirAst) -> nat
    decreases pat, 3nat,
{
    match pat {
        Some(e) => case_test_len(e, p) + 2,
        None => 0,
    }
}

/// The number of instructions a statement compiles to, inside a loop whose
/// break slot is `slot`.
pub open spec fn stmt_len(s: HirStmt, p: HirAst, slot: Option<u32>) -> nat
    decreases s, 0nat,
{
    match s {
        HirStmt::Assign { value, .. } => expr_len(value, p) + 1,
        HirStmt::AssignIncrement { value, .. } => expr_len(value, p) + 3,
        HirStmt::AssignDecrement { value, .. } => expr_len(value, p) + 3,
        HirStmt::If { arms, else_block } => arms_len(arms@, p, slot) + stmts_len(
            else_block.statements@,
            p,
            slot,
        ),
        HirStmt::Match { expression, cases } => expr_len(expression, p) + 1 + cases_len(
            cases@,
            p,
            slot,
        ),
        HirStmt::Return { value } => match value {
            HirExpression::FunctionCall { args, invoke, .. } => if invoke {
                exprs_len(args@, p) + 3
            } else {
                expr_len(value, p) + 1
            },
            _ => expr_len(value, p) + 1,
        },
        HirStmt::Loop { init_vars, body, break_slot } => inits_len(init_vars@, p) + loop_body_len(
            body,
            p,
            break_slot,
        ),
        HirStmt::Break { value } => (match value {
            Some(v) => expr_len(v, p) + slot_count(slot),
            None => 0,
        }) + 1,
        HirStmt::Continue => 1,
        HirStmt::Expression(e) => if e matches HirExpression::Constant(c) && c == 0 {
            0
        } else {
            expr_len(e, p) + if is_void(e, p) {
                0nat
            } else {
                1
            }
        },
        HirStmt::Nop => 0,
    }
}

/// The number of instructions the body of a loop statement compiles to,
/// with its jumps and the load of its value.
pub open spec fn loop_body_len(body: HirBlock, p: HirAst, break_slot: Option<u32>) -> nat
    decreases body, 0nat,
{
    if is_guarded_loop(body) {
        match body.statements@[0] {
            HirStmt::If { arms, .. } => match arms@[0].1.statements@[0] {
                HirStmt::Break { value } => expr_len(arms@[0].0, p) + 1 + stmts_len(
                    body.statements@.drop_first(),
                    p,
                    break_slot,
                ) + 1 + match value {
                    Some(v) => expr_len(v, p) + slot_count(break_slot),
                    None => 0,
                } + 1 + slot_count(break_slot),
                _ => 0,
            },
            _ => 0,
        }
    } else {
        stmts_len(body.statements@, p, break_slot) + 1 + slot_count(break_slot)
    }
}

/// The number of instructions a list of statements compiles to.
pub open spec fn stmts_len(ss: Seq<HirStmt>, p: HirAst, slot: Option<u32>) -> nat
    decreases ss, 0nat,
{
    if ss.len() == 0 {
        0
    } else {
        stmt_len(ss[0], p, slot) + stmts_len(ss.drop_first(), p, slot)
    }
}

/// The number of instructions the arms of an `if` compile to.
pub open spec fn arms_len(arms: Seq<(HirExpression, HirBlock)>, p: HirAst, slot: Option<u32>) -> nat
    decreases arms, 0nat,
{
    if arms.len() == 0 {
        0
    } else {
        expr_len(arms[0].0, p) + 1 + stmts_len(arms[0].1.statements@, p, slot) + 1 + arms_len(
            arms.drop_first(),
            p,
            slot,
        )
    }
}

/// The number of instructions the cases of a `match` compile to.
pub open spec fn cases_len(
    cases: Seq<(Option<HirExpression>, HirBlock)>,
    p: HirAst,
    slot: Option<u32>,
) -> nat
    decreases cases, 0nat,
{
    if cases.len() == 0 {
        0
    } else {
        case_header_len(cases[0].0, p) + stmts_len(cases[0].1.statements@, p, slot) + 1 + cases_len(
            cases.drop_first(),
            p,
            slot,
        )
    }
}

// ---------------------------------------------------------------------------
// Code
// ---------------------------------------------------------------------------

/// The instructions of a `sum` after its array, placed at `at`: walk the
/// array with an iterator, adding each element to an accumulator.
pub open spec fn sum_code(at: int) -> Seq<OpCode> {
    let loop_start = at + 4;
    let loop_end = loop_start + 11;
    seq![
        OpCode::ArrayIter,
        OpCode::LdNum(ZERO_BITS),
        OpCode::StVar(ACC_SLOT),
        OpCode::StVar(ITER_SLOT),
        OpCode::LdVar(ITER_SLOT),
        OpCode::ArrayNext,
        OpCode::StVar(HAS_MORE_SLOT),
        OpCode::StVar(ELEM_SLOT),
        OpCode::LdVar(ACC_SLOT),
        OpCode::LdVar(ELEM_SLOT),
        OpCode::Add,
        OpCode::StVar(ACC_SLOT),
        OpCode::LdVar(HAS_MORE_SLOT),
        OpCode::JmpIfFalse(loop_end as usize),
        OpCode::Jmp(loop_start as usize),
        OpCode::LdVar(ACC_SLOT),
    ]
}

/// The instructions of a `reduce` with function `f` after its array, placed
/// at `at`: the first element starts the accumulator, then each element is
/// combined into it.
pub open spec fn reduce_code(at: int, f: u32) -> Seq<OpCode> {
    let loop_start = at + 8;
    let loop_end = loop_start + 13;
    seq![
        OpCode::ArrayIter,
        OpCode::StVar(ITER_SLOT),
        OpCode::LdVar(ITER_SLOT),
        OpCode::ArrayNext,
        OpCode::StVar(HAS_MORE_SLOT),
        OpCode::StVar(ACC_SLOT),
        OpCode::LdVar(HAS_MORE_SLOT),
        OpCode::JmpIfFalse(loop_start as usize),
        OpCode::LdVar(ITER_SLOT),
        OpCode::ArrayNext,
        OpCode::StVar(HAS_MORE_SLOT),
        OpCode::StVar(ELEM_SLOT),
        OpCode::LdVar(ACC_SLOT),
        OpCode::LdVar(ELEM_SLOT),
        OpCode::LdFunc(f),
        OpCode::Thunk(2),
        OpCode::Invoke,
        OpCode::StVar(ACC_SLOT),
        OpCode::LdVar(HAS_MORE_SLOT),
        OpCode::JmpIfFalse(loop_end as usize),
        OpCode::Jmp(loop_start as usize),
        OpCode::LdVar(ACC_SLOT),
    ]
}

/// The instructions an expression compiles to, placed at `at`.
pub open spec fn expr_code(e: HirExpression, at: int, p: HirAst) -> Seq<OpCode>
    decreases e, 0nat,
{
    match e {
        HirExpression::Number(n) => seq![OpCode::LdNum(n)],
        HirExpression::String(s) => seq![OpCode::LdStr(s)],
        HirExpression::Boolean(b) => seq![OpCode::LdBool(b)],
        HirExpression::Identifier(v) => seq![OpCode::LdVar(v)],
        HirExpression::Constant(c) => seq![OpCode::LdConst(c)],
        HirExpression::Closure { function_id } => seq![OpCode::LdFunc(function_id)],
        HirExpression::Binary { lhs, rhs, operator } => expr_code(*lhs, at, p) + expr_code(
            *rhs,
            at + expr_len(*lhs, p),
            p,
        ) + seq![binary_op_code(operator, is_static_number(*lhs, p) && is_static_number(*rhs, p))],
        HirExpression::Unary { operand, operator } => expr_code(*operand, at, p) + seq![
            if operator is Neg {
                OpCode::Neg
            } else {
                OpCode::Not
            },
        ],
        HirExpression::FunctionCall { function_id, args, invoke } => exprs_code(args@, at, p) + seq![
            OpCode::LdFunc(function_id),
            OpCode::Thunk(args@.len() as u32),
        ] + if invoke {
            seq![OpCode::Invoke]
        } else {
            Seq::empty()
        },
        HirExpression::PartialCall { func_id, bound } => bound_code(bound@, at, p) + seq![
            OpCode::MakePartial {
                func_id,
                bound_mask: bound_mask(bound@),
                hole_count: hole_count(bound@) as u32,
            },
        ],
        HirExpression::PostfixInvoke { operand, args } => match args {
            Some(list) => exprs_code(list@, at, p) + expr_code(*operand, at + exprs_len(list@, p), p)
                + seq![OpCode::Thunk(list@.len() as u32), OpCode::Invoke],
            None => match *operand {
                HirExpression::PostfixInvoke { operand: inner, args: Some(inner_list) } => exprs_code(
                    inner_list@,
                    at,
                    p,
                ) + expr_code(*inner, at + exprs_len(inner_list@, p), p) + seq![
                    OpCode::Thunk(inner_list@.len() as u32),
                ] + (if *inner is Identifier {
                    Seq::empty()
                } else {
                    seq![OpCode::Invoke]
                }) + seq![OpCode::Invoke],
                HirExpression::PartialCall { .. } => expr_code(*operand, at, p),
                HirExpression::FunctionCall { invoke, .. } => expr_code(*operand, at, p) + if invoke {
                    Seq::empty()
                } else {
                    seq![OpCode::Invoke]
                },
                _ => expr_code(*operand, at, p) + seq![OpCode::Invoke],
            },
        },
        HirExpression::ComposeThunk { first, second } => expr_code(*second, at, p) + expr_code(
            *first,
            at + expr_len(*second, p),
            p,
        ) + seq![OpCode::ComposeThunk],
        HirExpression::Loop { init_vars, body, break_slot } => {
            let start = at + inits_len(init_vars@, p);
            let end = start + stmts_len(body.statements@, p, break_slot) + 1;
            let ctx = LoopInfo {
                start: start as usize,
                end: end as usize,
                break_slot,
                continue_target: start as usize,
            };
            inits_code(init_vars@, at, p) + stmts_code(body.statements@, start, Some(ctx), p) + seq![
                OpCode::Jmp(start as usize),
            ] + load_slot(break_slot)
        },
        HirExpression::Array(es) => exprs_code(es@, at, p) + seq![OpCode::MakeArray(es@.len() as u32)],
        HirExpression::ArrayIndex { array, index } => expr_code(*array, at, p) + expr_code(
            *index,
            at + expr_len(*array, p),
            p,
        ) + seq![OpCode::ArrayIndex],
        HirExpression::ArraySlice { array, start, end, step, inclusive_end } => {
            let p1 = at + expr_len(*array, p);
            let p2 = p1 + match start {
                Some(b) => expr_len(*b, p),
                None => 1nat,
            };
            let p3 = p2 + match end {
                Some(b) => expr_len(*b, p),
                None => 1nat,
            };
            expr_code(*array, at, p) + match start {
                Some(b) => expr_code(*b, p1, p),
                None => seq![OpCode::LdNum(NONE_SENTINEL)],
            } + match end {
                Some(b) => expr_code(*b, p2, p),
                None => seq![OpCode::LdNum(NONE_SENTINEL)],
            } + match step {
                Some(b) => expr_code(*b, p3, p),
                None => seq![OpCode::LdNum(NONE_SENTINEL)],
            } + seq![
                OpCode::LdNum(
                    if inclusive_end {
                        ONE_BITS
                    } else {
                        ZERO_BITS
                    },
                ),
                OpCode::ArraySlice,
            ]
        },
        HirExpression::Reducer { array, reducer_type, reducer_args } => {
            let pre = expr_code(*array, at, p) + if *array is ComposeThunk {
                seq![OpCode::Invoke]
            } else {
                Seq::empty()
            };
            let pos = at + expr_len(*array, p) + if *array is ComposeThunk {
                1nat
            } else {
                0
            };
            pre + match reducer_type {
                ReducerType::Mapping | ReducerType::Filter => (if reducer_args@.len() == 1 {
                    match reducer_args@[0] {
                        HirExpression::Closure { function_id } => seq![OpCode::LdFunc(function_id)],
                        _ => expr_code(reducer_args@[0], pos, p),
                    }
                } else {
                    Seq::empty()
                }) + seq![
                    if reducer_type is Mapping {
                        OpCode::ArrayMap
                    } else {
                        OpCode::ArrayFilter
                    },
                ],
                ReducerType::Fold => (if reducer_args@.len() >= 1 {
                    expr_code(reducer_args@[0], pos, p)
                } else {
                    Seq::empty()
                }) + seq![
                    OpCode::LdFunc(fold_function(reducer_args@, p)),
                    OpCode::ArrayFold,
                ],
                ReducerType::Sum => sum_code(pos),
                ReducerType::Reduce => reduce_code(pos, reduce_function(reducer_args@, p)),
            }
        },
        HirExpression::StructInit { struct_name, fields } => match struct_index(
            p.structs@,
            struct_name@,
        ) {
            Some(k) => field_values_code(p.structs@[k].fields@, fields@, at, p) + seq![
                OpCode::MakeStruct {
                    type_id: p.structs@[k].type_id,
                    field_count: p.structs@[k].fields@.len() as u32,
                },
            ],
            None => Seq::empty(),
        },
        HirExpression::FieldAccess { base, field_name } => expr_code(*base, at, p) + seq![
            OpCode::GetField(
                match field_position(p.structs@, field_name@) {
                    Some(i) => i as u32,
                    None => 0,
                },
            ),
        ],
    }
}

/// The instructions of a list of expressions, one after the other.
pub open spec fn exprs_code(es: Seq<HirExpression>, at: int, p: HirAst) -> Seq<OpCode>
    decreases es, 0nat,
{
    if es.len() == 0 {
        Seq::empty()
    } else {
        expr_code(es[0], at, p) + exprs_code(es.drop_first(), at + expr_len(es[0], p), p)
    }
}

/// The instructions of the bound arguments of a partial call, last first.
pub open spec fn bound_code(bound: Seq<Option<HirExpression>>, at: int, p: HirAst) -> Seq<OpCode>
    decreases bound, 0nat,
{
    if bound.len() == 0 {
        Seq::empty()
    } else {
        match bound.last() {
            Some(e) => expr_code(e, at, p) + bound_code(bound.drop_last(), at + expr_len(e, p), p),
            None => bound_code(bound.drop_last(), at, p),
        }
    }
}

/// The instructions that initialise loop variables.
pub open spec fn inits_code(inits: Seq<(u32, HirExpression)>, at: int, p: HirAst) -> Seq<OpCode>
    decreases inits, 0nat,
{
    if inits.len() == 0 {
        Seq::empty()
    } else {
        expr_code(inits[0].1, at, p) + seq![OpCode::StVar(inits[0].0)] + inits_code(
            inits.drop_first(),
            at + expr_len(inits[0].1, p) + 1,
            p,
        )
    }
}

/// The instructions of a struct literal's field values, in the order of the
/// declared fields `names`; each name takes the last initialiser given for it.
pub open spec fn field_values_code(
    names: Seq<String>,
    fields: Seq<(String, HirExpression)>,
    at: int,
    p: HirAst,
) -> Seq<OpCode>
    decreases fields, names.len(),
{
    if names.len() == 0 {
        Seq::empty()
    } else {
        match last_field_index(fields, names[0]@) {
            Some(j) => if 0 <= j < fields.len() {
                expr_code(fields[j].1, at, p) + field_values_code(
                    names.drop_first(),
                    fields,
                    at + expr_len(fields[j].1, p),
                    p,
                )
            } else {
                field_values_code(names.drop_first(), fields, at, p)
            },
            None => field_values_code(names.drop_first(), fields, at, p),
        }
    }
}

/// The instructions that test a `match` pattern against the subject, which
/// is on the stack: a comparison supplies only its right side; `&&` and `||`
/// test both sides, reloading the subject in between.
pub open spec fn pattern_code(pat: HirExpression, at: int, p: HirAst) -> Seq<OpCode>
    decreases pat, 1nat,
{
    match pat {
        HirExpression::Binary { lhs, rhs, operator } => if is_comparison(operator) {
            expr_code(*rhs, at, p) + seq![binary_op_code(operator, false)]
        } else if operator is And || operator is Or {
            pattern_code(*lhs, at, p) + seq![OpCode::LdVar(MATCH_SLOT)] + pattern_code(
                *rhs,
                at + pattern_len(*lhs, p) + 1,
                p,
            ) + seq![binary_op_code(operator, false)]
        } else {
            expr_code(pat, at, p)
        },
        _ => expr_code(pat, at, p),
    }
}

/// The instructions that test a case's pattern against the subject.
pub open spec fn case_test_code(pat: HirExpression, at: int, p: HirAst) -> Seq<OpCode>
    decreases pat, 2nat,
{
    if tests_as_pattern(pat) {
        pattern_code(pat, at, p)
    } else {
        expr_code(pat, at, p) + seq![OpCode::Eq]
    }
}

/// The instructions a statement compiles to, placed at `at`, inside the loop
/// `ctx`.
pub open spec fn stmt_code(s: HirStmt, at: int, ctx: Option<LoopInfo>, p: HirAst) -> Seq<OpCode>
    decreases s, 0nat,
{
    match s {
        HirStmt::Assign { slot, value } => expr_code(value, at, p) + seq![OpCode::StVar(slot)],
        HirStmt::AssignIncrement { slot, value } => seq![OpCode::LdVar(slot)] + expr_code(
            value,
            at + 1,
            p,
        ) + seq![OpCode::Add, OpCode::StVar(slot)],
        HirStmt::AssignDecrement { slot, value } => seq![OpCode::LdVar(slot)] + expr_code(
            value,
            at + 1,
            p,
        ) + seq![OpCode::Sub, OpCode::StVar(slot)],
        HirStmt::If { arms, else_block } => {
            let alen = arms_len(arms@, p, slot_of(ctx));
            let end = at + alen + stmts_len(else_block.statements@, p, slot_of(ctx));
            arms_code(arms@, at, end, ctx, p) + stmts_code(else_block.statements@, at + alen, ctx, p)
        },
        HirStmt::Match { expression, cases } => {
            let cases_at = at + expr_len(expression, p) + 1;
            let end = cases_at + cases_len(cases@, p, slot_of(ctx));
            expr_code(expression, at, p) + seq![OpCode::StVar(MATCH_SLOT)] + cases_code(
                cases@,
                cases_at,
                end,
                ctx,
                p,
            )
        },
        HirStmt::Return { value } => match value {
            HirExpression::FunctionCall { function_id, args, invoke } => if invoke {
                exprs_code(args@, at, p) + seq![
                    OpCode::LdFunc(function_id),
                    OpCode::Thunk(args@.len() as u32),
                    OpCode::RetInvoke,
                ]
            } else {
                expr_code(value, at, p) + seq![OpCode::Ret]
            },
            _ => expr_code(value, at, p) + seq![OpCode::Ret],
        },
        HirStmt::Loop { init_vars, body, break_slot } => inits_code(init_vars@, at, p) + loop_body_code(
            body,
            at + inits_len(init_vars@, p),
            break_slot,
            p,
        ),
        HirStmt::Break { value } => match ctx {
            Some(c) => (match value {
                Some(v) => expr_code(v, at, p) + store_slot(c.break_slot),
                None => Seq::empty(),
            }) + seq![OpCode::Jmp(c.end)],
            None => Seq::empty(),
        },
        HirStmt::Continue => match ctx {
            Some(c) => seq![OpCode::Jmp(c.continue_target)],
            None => Seq::empty(),
        },
        HirStmt::Expression(e) => if e matches HirExpression::Constant(c) && c == 0 {
            Seq::empty()
        } else {
            expr_code(e, at, p) + if is_void(e, p) {
                Seq::empty()
            } else {
                seq![OpCode::Pop]
            }
        },
        HirStmt::Nop => Seq::empty(),
    }
}

/// The instructions of the body of a loop statement that starts at `start`.
/// A body that starts with `if (cond) { break [value]; }` tests `cond` at
/// the top and jumps to a handler that stores the break value; when such a
/// body ends with an assignment (the increment of a `for` loop), `continue`
/// jumps to it. Otherwise the body runs as it is. Either way the body jumps
/// back to `start`, and the loop's value is loaded at the end when it has a
/// break slot.
pub open spec fn loop_body_code(body: HirBlock, start: int, break_slot: Option<u32>, p: HirAst) -> Seq<
    OpCode,
>
    decreases body, 0nat,
{
    if is_guarded_loop(body) {
        match body.statements@[0] {
            HirStmt::If { arms, .. } => match arms@[0].1.statements@[0] {
                HirStmt::Break { value } => {
                    let cond = arms@[0].0;
                    let rest = body.statements@.drop_first();
                    let body_at = start + expr_len(cond, p) + 1;
                    let handler_at = body_at + stmts_len(rest, p, break_slot) + 1;
                    let end = handler_at + match value {
                        Some(v) => expr_len(v, p) + slot_count(break_slot),
                        None => 0,
                    } + 1;
                    let increment_at = body_at + stmts_len(rest.drop_last(), p, break_slot);
                    let continue_at = if rest.len() > 0 && rest.last() is Assign {
                        increment_at
                    } else {
                        start
                    };
                    let ctx = LoopInfo {
                        start: start as usize,
                        end: end as usize,
                        break_slot,
                        continue_target: continue_at as usize,
                    };
                    expr_code(cond, start, p) + seq![OpCode::JmpIfTrue(handler_at as usize)]
                        + stmts_code(rest, body_at, Some(ctx), p) + seq![OpCode::Jmp(start as usize)]
                        + match value {
                        Some(v) => expr_code(v, handler_at, p) + store_slot(break_slot),
                        None => Seq::empty(),
                    } + seq![OpCode::Jmp(end as usize)] + load_slot(break_slot)
                },
                _ => Seq::empty(),
            },
            _ => Seq::empty(),
        }
    } else {
        let end = start + stmts_len(body.statements@, p, break_slot) + 1;
        let ctx = LoopInfo {
            start: start as usize,
            end: end as usize,
            break_slot,
            continue_target: start as usize,
        };
        stmts_code(body.statements@, start, Some(ctx), p) + seq![OpCode::Jmp(start as usize)]
            + load_slot(break_slot)
    }
}

/// The instructions of a list of statements, one after the other.
pub open spec fn stmts_code(ss: Seq<HirStmt>, at: int, ctx: Option<LoopInfo>, p: HirAst) -> Seq<
    OpCode,
>
    decreases ss, 0nat,
{
    if ss.len() == 0 {
        Seq::empty()
    } else {
        stmt_code(ss[0], at, ctx, p) + stmts_code(
            ss.drop_first(),
            at + stmt_len(ss[0], p, slot_of(ctx)),
            ctx,
            p,
        )
    }
}

/// The instructions of the arms of an `if` that ends at `end`: each arm
/// tests its condition, skips to the next arm when it is false, and jumps to
/// `end` after its block.
pub open spec fn arms_code(
    arms: Seq<(HirExpression, HirBlock)>,
    at: int,
    end: int,
    ctx: Option<LoopInfo>,
    p: HirAst,
) -> Seq<OpCode>
    decreases arms, 0nat,
{
    if arms.len() == 0 {
        Seq::empty()
    } else {
        let cond_len = expr_len(arms[0].0, p);
        let block_len = stmts_len(arms[0].1.statements@, p, slot_of(ctx));
        let next = at + cond_len + 1 + block_len + 1;
        expr_code(arms[0].0, at, p) + seq![OpCode::JmpIfFalse(next as usize)] + stmts_code(
            arms[0].1.statements@,
            at + cond_len + 1,
            ctx,
            p,
        ) + seq![OpCode::Jmp(end as usize)] + arms_code(arms.drop_first(), next, end, ctx, p)
    }
}

/// The instructions of one case of a `match` that ends at `end`: a case with
/// a pattern reloads the subject, tests it, and on failure jumps to `miss`;
/// its block then jumps to `end`.
pub open spec fn case_code(
    case: (Option<HirExpression>, HirBlock),
    at: int,
    miss: int,
    end: int,
    ctx: Option<LoopInfo>,
    p: HirAst,
) -> Seq<OpCode>
    decreases case, 0nat,
{
    (match case.0 {
        Some(pat) => seq![OpCode::LdVar(MATCH_SLOT)] + case_test_code(pat, at + 1, p) + seq![
            OpCode::JmpIfFalse(miss as usize),
        ],
        None => Seq::empty(),
    }) + stmts_code(case.1.statements@, at + case_header_len(case.0, p), ctx, p) + seq![
        OpCode::Jmp(end as usize),
    ]
}

/// The instructions of the cases of a `match` that ends at `end`. A failed
/// test jumps to the next case's block (past that case's own test), or to
/// `end` after the last case.
pub open spec fn cases_code(
    cases: Seq<(Option<HirExpression>, HirBlock)>,
    at: int,
    end: int,
    ctx: Option<LoopInfo>,
    p: HirAst,
) -> Seq<OpCode>
    decreases cases, 0nat,
{
    if cases.len() == 0 {
        Seq::empty()
    } else {
        let header_len = case_header_len(cases[0].0, p);
        let block_len = stmts_len(cases[0].1.statements@, p, slot_of(ctx));
        let next = at + header_len + block_len + 1;
        let miss = if cases.len() > 1 {
            next + case_header_len(cases[1].0, p)
        } else {
            end
        };
        case_code(cases[0], at, miss, end, ctx, p) + cases_code(cases.drop_first(), next, end, ctx, p)
    }
}

/// The instructions of a whole program: its blocks one after the other,
/// outside any loop.
pub open spec fn blocks_code(blocks: Seq<HirBlock>, at: int, p: HirAst) -> Seq<OpCode>
    decreases blocks.len(),
{
    if blocks.len() == 0 {
        Seq::empty()
    } else {
        stmts_code(blocks[0].statements@, at, None, p) + blocks_code(
            blocks.drop_first(),
            at + stmts_len(blocks[0].statements@, p, None),
            p,
        )
    }
}

/// The number of instructions a program's blocks compile to.
pub open spec fn blocks_len(blocks: Seq<HirBlock>, p: HirAst) -> nat
    decreases blocks.len(),
{
    if blocks.len() == 0 {
        0
    } else {
        stmts_len(blocks[0].statements@, p, None) + blocks_len(blocks.drop_first(), p)
    }
}

// ---------------------------------------------------------------------------
// What the emitter accepts
// ---------------------------------------------------------------------------

/// The function a `fold` combines with is a closure, a call, or an
/// identifier that names an imported function.
pub open spec fn fold_function_ok(args: Seq<HirExpression>, p: HirAst) -> bool {
    match args[1] {
        HirExpression::Closure { .. } => true,
        HirExpression::FunctionCall { .. } => true,
        HirExpression::Identifier(v) => resolved_function(p, v) is Some,
        _ => false,
    }
}

/// The function a `reduce` combines with is a call, or an identifier that
/// names an imported function.
pub open spec fn reduce_function_ok(args: Seq<HirExpression>, p: HirAst) -> bool {
    match args[0] {
        HirExpression::FunctionCall { .. } => true,
        HirExpression::Identifier(v) => resolved_function(p, v) is Some,
        _ => false,
    }
}

/// The emitter can compile the expression: unary operators are negation or
/// `not`, reducers have the arguments they need, struct literals name a known
/// struct and give every field, field accesses name a field some struct
/// has, and a partial call has at most 64 argument positions.
pub open spec fn expr_ok(e: HirExpression, p: HirAst) -> bool
    decreases e, 0nat,
{
    match e {
        HirExpression::Binary { lhs, rhs, .. } => expr_ok(*lhs, p) && expr_ok(*rhs, p),
        HirExpression::Unary { operand, operator } => (operator is Neg || operator is Not) && expr_ok(
            *operand,
            p,
        ),
        HirExpression::FunctionCall { args, .. } => exprs_ok(args@, p),
        HirExpression::PartialCall { bound, .. } => bound@.len() <= 64 && forall|i: int|
            0 <= i < bound@.len() ==> match #[trigger] bound@[i] {
                Some(x) => expr_ok(x, p),
                None => true,
            },
        HirExpression::PostfixInvoke { operand, args } => expr_ok(*operand, p) && match args {
            Some(list) => exprs_ok(list@, p),
            None => true,
        },
        HirExpression::ComposeThunk { first, second } => expr_ok(*first, p) && expr_ok(*second, p),
        HirExpression::Loop { init_vars, body, .. } => inits_ok(init_vars@, p) && stmts_ok(
            body.statements@,
            p,
            true,
        ),
        HirExpression::Array(es) => exprs_ok(es@, p),
        HirExpression::ArrayIndex { array, index } => expr_ok(*array, p) && expr_ok(*index, p),
        HirExpression::ArraySlice { array, start, end, step, .. } => expr_ok(*array, p) && match start {
            Some(b) => expr_ok(*b, p),
            None => true,
        } && match end {
            Some(b) => expr_ok(*b, p),
            None => true,
        } && match step {
            Some(b) => expr_ok(*b, p),
            None => true,
        },
        HirExpression::Reducer { array, reducer_type, reducer_args } => expr_ok(*array, p)
            && match reducer_type {
            ReducerType::Mapping | ReducerType::Filter => reducer_args@.len() == 1 && (
            reducer_args@[0] is Closure || expr_ok(reducer_args@[0], p)),
            ReducerType::Fold => reducer_args@.len() >= 2 && expr_ok(reducer_args@[0], p)
                && fold_function_ok(reducer_args@, p),
            ReducerType::Sum => true,
            ReducerType::Reduce => reducer_args@.len() >= 1 && reduce_function_ok(reducer_args@, p),
        },
        HirExpression::StructInit { struct_name, fields } => match struct_index(
            p.structs@,
            struct_name@,
        ) {
            Some(k) => forall|i: int|
                0 <= i < p.structs@[k].fields@.len() ==> match #[trigger] last_field_index(
                    fields@,
                    p.structs@[k].fields@[i]@,
                ) {
                    Some(j) => 0 <= j < fields@.len() && expr_ok(fields@[j].1, p),
                    None => false,
                },
            None => false,
        },
        HirExpression::FieldAccess { base, field_name } => expr_ok(*base, p) && field_position(
            p.structs@,
            field_name@,
        ) is Some,
        _ => true,
    }
}

/// The emitter can compile every expression of the list.
pub open spec fn exprs_ok(es: Seq<HirExpression>, p: HirAst) -> bool
    decreases es, 0nat,
{
    forall|i: int| 0 <= i < es.len() ==> expr_ok(#[trigger] es[i], p)
}

/// The emitter can compile the pattern test.
pub open spec fn pattern_ok(pat: HirExpression, p: HirAst) -> bool
    decreases pat, 1nat,
{
    match pat {
        HirExpression::Binary { lhs, rhs, operator } => if is_comparison(operator) {
            expr_ok(*rhs, p)
        } else if operator is And || operator is Or {
            pattern_ok(*lhs, p) && pattern_ok(*rhs, p)
        } else {
            expr_ok(pat, p)
        },
        _ => expr_ok(pat, p),
    }
}

/// The emitter can compile the test of a case's pattern.
pub open spec fn case_test_ok(pat: HirExpression, p: HirAst) -> bool
    decreases pat, 2nat,
{
    if tests_as_pattern(pat) {
        pattern_ok(pat, p)
    } else {
        expr_ok(pat, p)
    }
}

/// The emitter can compile the statement; `in_loop` tells whether a loop
/// encloses it, which `break` and `continue` need.
pub open spec fn stmt_ok(s: HirStmt, p: HirAst, in_loop: bool) -> bool
    decreases s, 0nat,
{
    match s {
        HirStmt::Assign { value, .. } => expr_ok(value, p),
        HirStmt::AssignIncrement { value, .. } => expr_ok(value, p),
        HirStmt::AssignDecrement { value, .. } => expr_ok(value, p),
        HirStmt::If { arms, else_block } => arms_ok(arms@, p, in_loop) && stmts_ok(
            else_block.statements@,
            p,
            in_loop,
        ),
        HirStmt::Match { expression, cases } => expr_ok(expression, p) && cases_ok(cases@, p, in_loop),
        HirStmt::Return { value } => expr_ok(value, p),
        HirStmt::Loop { init_vars, body, .. } => inits_ok(init_vars@, p) && stmts_ok(
            body.statements@,
            p,
            true,
        ),
        HirStmt::Break { value } => in_loop && match value {
            Some(v) => expr_ok(v, p),
            None => true,
        },
        HirStmt::Continue => in_loop,
        HirStmt::Expression(e) => expr_ok(e, p),
        HirStmt::Nop => true,
    }
}

/// The emitter can compile every statement of the list.
pub open spec fn stmts_ok(ss: Seq<HirStmt>, p: HirAst, in_loop: bool) -> bool
    decreases ss, 0nat,
{
    forall|i: int| 0 <= i < ss.len() ==> stmt_ok(#[trigger] ss[i], p, in_loop)
}

/// The emitter can compile each loop variable initialisation.
pub open spec fn inits_ok(inits: Seq<(u32, HirExpression)>, p: HirAst) -> bool
    decreases inits, 0nat,
{
    forall|i: int| 0 <= i < inits.len() ==> expr_ok(#[trigger] inits[i].1, p)
}

/// The emitter can compile each arm of an `if`.
pub open spec fn arms_ok(arms: Seq<(HirExpression, HirBlock)>, p: HirAst, in_loop: bool) -> bool
    decreases arms, 0nat,
{
    forall|i: int|
        0 <= i < arms.len() ==> expr_ok(#[trigger] arms[i].0, p) && stmts_ok(
            arms[i].1.statements@,
            p,
            in_loop,
        )
}

/// The emitter can compile each case of a `match`.
pub open spec fn cases_ok(cases: Seq<(Option<HirExpression>, HirBlock)>, p: HirAst, in_loop: bool) -> bool
    decreases cases, 0nat,
{
    forall|i: int|
        0 <= i < cases.len() ==> match #[trigger] cases[i].0 {
            Some(pat) => case_test_ok(pat, p),
            None => true,
        } && stmts_ok(cases[i].1.statements@, p, in_loop)
}

} // verus!
