//! Laws of the emitted code: the code of each construct has the length the
//! emitter accounts for, and every jump it holds lands inside the code of
//! the program (at the instruction after the last one at most).
use vstd::prelude::*;
use crate::hir::{HirAst, HirBlock, HirExpression, HirStmt, ReducerType};
use crate::opcode::OpCode;
use crate::emit_spec::{
    LoopInfo, expr_ok, exprs_ok, pattern_ok, case_test_ok, stmt_ok, stmts_ok, inits_ok, arms_ok,
    cases_ok, expr_code, exprs_code, bound_code, inits_code, field_values_code, pattern_code,
    case_test_code, stmt_code, loop_body_code, stmts_code, arms_code, case_code, cases_code,
    blocks_code, expr_len, exprs_len, bound_len, inits_len, field_values_len, pattern_len,
    case_test_len, case_header_len, stmt_len, loop_body_len, stmts_len, arms_len, cases_len,
    blocks_len, slot_of, slot_count, load_slot, store_slot, is_static_number, binary_op_code,
    bound_mask, hole_count, is_comparison, tests_as_pattern, is_guarded_loop, is_void,
    last_field_index, fold_function, reduce_function, sum_code, reduce_code, MATCH_SLOT,
    NONE_SENTINEL, ONE_BITS, ZERO_BITS,
};
use crate::hir::struct_index;
use crate::emitter::{
    lemma_stmts_len_last, lemma_guarded_body_code, lemma_guard_ok, guard_cond, guard_value,
    guard_handler_at, guard_end, guard_continue_at, guard_ctx,
};

verus! {

/// Where a jump instruction jumps to.
pub open spec fn jump_target(op: OpCode) -> Option<usize> {
    match op {
        OpCode::Jmp(t) => Some(t),
        OpCode::JmpIfFalse(t) => Some(t),
        OpCode::JmpIfTrue(t) => Some(t),
        _ => None,
    }
}

/// `op` is no jump, or jumps between `lo` and `hi`.
pub open spec fn target_within(op: OpCode, lo: int, hi: int) -> bool {
    match jump_target(op) {
        Some(t) => lo <= t <= hi,
        None => true,
    }
}

/// Every jump of `code` lands between `lo` and `hi`.
pub open spec fn jumps_within(code: Seq<OpCode>, lo: int, hi: int) -> bool {
    forall|i: int| 0 <= i < code.len() ==> target_within(#[trigger] code[i], lo, hi)
}

/// The larger of two integers.
pub open spec fn imax(a: int, b: int) -> int {
    if a >= b {
        a
    } else {
        b
    }
}

/// The smaller of two integers.
pub open spec fn imin(a: int, b: int) -> int {
    if a <= b {
        a
    } else {
        b
    }
}

/// The furthest place a `break` or `continue` of the loop `ctx` jumps to.
pub open spec fn ctx_bound(ctx: Option<LoopInfo>) -> int {
    match ctx {
        Some(c) => imax(c.end as int, c.continue_target as int),
        None => 0,
    }
}

/// The earliest place that code at `at` inside the loop `ctx` jumps to:
/// `at` itself, or where the loop's `break` or `continue` goes.
pub open spec fn ctx_floor(ctx: Option<LoopInfo>, at: int) -> int {
    match ctx {
        Some(c) => imin(at, imin(c.end as int, c.continue_target as int)),
        None => at,
    }
}

/// Two pieces whose jumps stay within bounds join into one that does.
proof fn lemma_jw_cat(a: Seq<OpCode>, b: Seq<OpCode>, lo: int, hi: int)
    requires
        jumps_within(a, lo, hi),
        jumps_within(b, lo, hi),
    ensures
        jumps_within(a + b, lo, hi),
{
    assert forall|i: int| 0 <= i < (a + b).len() implies target_within(#[trigger] (a + b)[i], lo, hi) by {
        if i < a.len() {
            assert((a + b)[i] == a[i]);
        } else {
            assert((a + b)[i] == b[i - a.len()]);
        }
    }
}

/// Jumps within an upper bound are within any larger one.
proof fn lemma_jw_mono(a: Seq<OpCode>, lo: int, b1: int, b2: int)
    requires
        jumps_within(a, lo, b1),
        b1 <= b2,
    ensures
        jumps_within(a, lo, b2),
{
    assert forall|i: int| 0 <= i < a.len() implies target_within(#[trigger] a[i], lo, b2) by {
        assert(target_within(a[i], lo, b1));
    }
}

/// Jumps within bounds are within any wider ones.
proof fn lemma_jw_widen(a: Seq<OpCode>, lo1: int, hi1: int)
    requires
        jumps_within(a, lo1, hi1),
    ensures
        forall|lo: int, hi: int| lo <= lo1 && hi1 <= hi ==> #[trigger] jumps_within(a, lo, hi),
{
    assert forall|lo: int, hi: int| lo <= lo1 && hi1 <= hi implies #[trigger] jumps_within(a, lo, hi) by {
        assert forall|i: int| 0 <= i < a.len() implies target_within(#[trigger] a[i], lo, hi) by {
            assert(target_within(a[i], lo1, hi1));
        }
    }
}

/// A single instruction whose jump, if any, stays within the bounds.
proof fn lemma_jw_one(op: OpCode, lo: int, hi: int)
    requires
        target_within(op, lo, hi),
    ensures
        jumps_within(seq![op], lo, hi),
{
    assert forall|i: int| 0 <= i < seq![op].len() implies target_within(#[trigger] seq![op][i], lo, hi) by {
        assert(seq![op][i] == op);
    }
}

/// Loading and storing a break slot holds no jump.
proof fn lemma_jw_slots(slot: Option<u32>, lo: int, hi: int)
    ensures
        jumps_within(load_slot(slot), lo, hi),
        jumps_within(store_slot(slot), lo, hi),
        load_slot(slot).len() == slot_count(slot),
        store_slot(slot).len() == slot_count(slot),
{
    match slot {
        Some(s) => {
            lemma_jw_one(OpCode::LdVar(s), lo, hi);
            lemma_jw_one(OpCode::StVar(s), lo, hi);
        },
        None => {},
    }
}

/// The code of an expression has the length the emitter accounts for, and
/// every jump in it lands inside it or just after its last instruction: in
/// particular `break` and `continue` in an expression loop land inside the
/// loop's own code.
pub proof fn lemma_expr_code(e: HirExpression, at: int, p: HirAst)
    requires
        expr_ok(e, p),
        0 <= at,
        at + expr_len(e, p) <= usize::MAX,
    ensures
        expr_code(e, at, p).len() == expr_len(e, p),
        forall|lo: int, hi: int|
            lo <= at && at + expr_len(e, p) <= hi ==> #[trigger] jumps_within(expr_code(e, at, p), lo, hi),
    decreases e, 1nat,
{
    let lo = at;
    let code = expr_code(e, at, p);
    let b = at + expr_len(e, p);
    match e {
        HirExpression::Binary { lhs, rhs, operator } => {
            lemma_expr_code(*lhs, at, p);
            lemma_expr_code(*rhs, at + expr_len(*lhs, p), p);
            let c1 = expr_code(*lhs, at, p);
            let c2 = expr_code(*rhs, at + expr_len(*lhs, p), p);
            let op = binary_op_code(operator, is_static_number(*lhs, p) && is_static_number(*rhs, p));
            lemma_jw_mono(c1, lo, at + expr_len(*lhs, p), b);
            lemma_jw_one(op, lo, b);
            lemma_jw_cat(c1, c2, lo, b);
            lemma_jw_cat(c1 + c2, seq![op], lo, b);
        },
        HirExpression::Unary { operand, operator } => {
            lemma_expr_code(*operand, at, p);
            let op = if operator is Neg {
                OpCode::Neg
            } else {
                OpCode::Not
            };
            lemma_jw_mono(expr_code(*operand, at, p), lo, at + expr_len(*operand, p), b);
            lemma_jw_one(op, lo, b);
            lemma_jw_cat(expr_code(*operand, at, p), seq![op], lo, b);
        },
        HirExpression::FunctionCall { function_id, args, invoke } => {
            lemma_exprs_code(args@, at, p);
            let c1 = exprs_code(args@, at, p);
            let c2 = seq![OpCode::LdFunc(function_id), OpCode::Thunk(args@.len() as u32)];
            let c3: Seq<OpCode> = if invoke {
                seq![OpCode::Invoke]
            } else {
                Seq::empty()
            };
            lemma_jw_mono(c1, lo, at + exprs_len(args@, p), b);
            assert(jumps_within(c2, lo, b)) by {
                assert forall|i: int| 0 <= i < c2.len() implies target_within(#[trigger] c2[i], lo, b) by {
                    if i == 0 {
                    } else {
                    }
                }
            }
            if invoke {
                lemma_jw_one(OpCode::Invoke, lo, b);
            }
            lemma_jw_cat(c1, c2, lo, b);
            lemma_jw_cat(c1 + c2, c3, lo, b);
        },
        HirExpression::PartialCall { func_id, bound } => {
            lemma_bound_code(bound@, at, p);
            let c1 = bound_code(bound@, at, p);
            let op = OpCode::MakePartial {
                func_id,
                bound_mask: bound_mask(bound@),
                hole_count: hole_count(bound@) as u32,
            };
            lemma_jw_mono(c1, lo, at + bound_len(bound@, p), b);
            lemma_jw_one(op, lo, b);
            lemma_jw_cat(c1, seq![op], lo, b);
        },
        HirExpression::PostfixInvoke { .. } => {
            lemma_postfix_code(e, at, p);
        },
        HirExpression::ComposeThunk { first, second } => {
            lemma_expr_code(*second, at, p);
            lemma_expr_code(*first, at + expr_len(*second, p), p);
            let c1 = expr_code(*second, at, p);
            let c2 = expr_code(*first, at + expr_len(*second, p), p);
            lemma_jw_mono(c1, lo, at + expr_len(*second, p), b);
            lemma_jw_one(OpCode::ComposeThunk, lo, b);
            lemma_jw_cat(c1, c2, lo, b);
            lemma_jw_cat(c1 + c2, seq![OpCode::ComposeThunk], lo, b);
        },
        HirExpression::Loop { init_vars, body, break_slot } => {
            let start = at + inits_len(init_vars@, p);
            let end = start + stmts_len(body.statements@, p, break_slot) + 1;
            let ctx = LoopInfo {
                start: start as usize,
                end: end as usize,
                break_slot,
                continue_target: start as usize,
            };
            lemma_inits_code(init_vars@, at, p);
            lemma_stmts_code(body.statements@, start, Some(ctx), p);
            let c1 = inits_code(init_vars@, at, p);
            let c2 = stmts_code(body.statements@, start, Some(ctx), p);
            lemma_jw_mono(c1, lo, start, b);
            lemma_jw_mono(c2, lo, imax(start + stmts_len(body.statements@, p, break_slot), ctx_bound(Some(ctx))), b);
            lemma_jw_one(OpCode::Jmp(start as usize), lo, b);
            lemma_jw_slots(break_slot, lo, b);
            lemma_jw_cat(c1, c2, lo, b);
            lemma_jw_cat(c1 + c2, seq![OpCode::Jmp(start as usize)], lo, b);
            lemma_jw_cat(c1 + c2 + seq![OpCode::Jmp(start as usize)], load_slot(break_slot), lo, b);
        },
        HirExpression::Array(es) => {
            lemma_exprs_code(es@, at, p);
            lemma_jw_mono(exprs_code(es@, at, p), lo, at + exprs_len(es@, p), b);
            lemma_jw_one(OpCode::MakeArray(es@.len() as u32), lo, b);
            lemma_jw_cat(exprs_code(es@, at, p), seq![OpCode::MakeArray(es@.len() as u32)], lo, b);
        },
        HirExpression::ArrayIndex { array, index } => {
            lemma_expr_code(*array, at, p);
            lemma_expr_code(*index, at + expr_len(*array, p), p);
            let c1 = expr_code(*array, at, p);
            let c2 = expr_code(*index, at + expr_len(*array, p), p);
            lemma_jw_mono(c1, lo, at + expr_len(*array, p), b);
            lemma_jw_one(OpCode::ArrayIndex, lo, b);
            lemma_jw_cat(c1, c2, lo, b);
            lemma_jw_cat(c1 + c2, seq![OpCode::ArrayIndex], lo, b);
        },
        HirExpression::ArraySlice { .. } => {
            lemma_slice_code(e, at, p);
        },
        HirExpression::Reducer { .. } => {
            lemma_reducer_code(e, at, p);
        },
        HirExpression::StructInit { struct_name, fields } => {
            let k = struct_index(p.structs@, struct_name@)->Some_0;
            lemma_field_values_code(p.structs@[k].fields@, fields@, at, p);
            let c1 = field_values_code(p.structs@[k].fields@, fields@, at, p);
            let op = OpCode::MakeStruct {
                type_id: p.structs@[k].type_id,
                field_count: p.structs@[k].fields@.len() as u32,
            };
            lemma_jw_mono(c1, lo, at + field_values_len(p.structs@[k].fields@, fields@, p), b);
            lemma_jw_one(op, lo, b);
            lemma_jw_cat(c1, seq![op], lo, b);
        },
        HirExpression::FieldAccess { base, field_name } => {
            lemma_expr_code(*base, at, p);
            let op = OpCode::GetField(
                match crate::emit_spec::field_position(p.structs@, field_name@) {
                    Some(i) => i as u32,
                    None => 0,
                },
            );
            lemma_jw_mono(expr_code(*base, at, p), lo, at + expr_len(*base, p), b);
            lemma_jw_one(op, lo, b);
            lemma_jw_cat(expr_code(*base, at, p), seq![op], lo, b);
        },
        _ => {
            assert(code.len() == 1);
            assert(target_within(code[0], lo, b));
        },
    }
    lemma_jw_widen(expr_code(e, at, p), at, at + expr_len(e, p));
}


/// The code of a list of expressions, one after the other.
pub proof fn lemma_exprs_code(es: Seq<HirExpression>, at: int, p: HirAst)
    requires
        exprs_ok(es, p),
        0 <= at,
        at + exprs_len(es, p) <= usize::MAX,
    ensures
        exprs_code(es, at, p).len() == exprs_len(es, p),
        forall|lo: int, hi: int|
            lo <= at && at + exprs_len(es, p) <= hi ==> #[trigger] jumps_within(exprs_code(es, at, p), lo, hi),
    decreases es, 1nat,
{
    let lo = at;
    if es.len() > 0 {
        let b = at + exprs_len(es, p);
        assert(expr_ok(es[0], p));
        assert(exprs_ok(es.drop_first(), p)) by {
            assert forall|i: int| 0 <= i < es.drop_first().len() implies expr_ok(#[trigger] es.drop_first()[i], p) by {
                assert(es.drop_first()[i] == es[i + 1]);
            }
        }
        lemma_expr_code(es[0], at, p);
        lemma_exprs_code(es.drop_first(), at + expr_len(es[0], p), p);
        lemma_jw_mono(expr_code(es[0], at, p), lo, at + expr_len(es[0], p), b);
        lemma_jw_cat(expr_code(es[0], at, p), exprs_code(es.drop_first(), at + expr_len(es[0], p), p), lo, b);
    }
    lemma_jw_widen(exprs_code(es, at, p), at, at + exprs_len(es, p));
}

/// The code of the bound arguments of a partial call.
pub proof fn lemma_bound_code(bound: Seq<Option<HirExpression>>, at: int, p: HirAst)
    requires
        forall|i: int|
            0 <= i < bound.len() ==> match #[trigger] bound[i] {
                Some(x) => expr_ok(x, p),
                None => true,
            },
        0 <= at,
        at + bound_len(bound, p) <= usize::MAX,
    ensures
        bound_code(bound, at, p).len() == bound_len(bound, p),
        forall|lo: int, hi: int|
            lo <= at && at + bound_len(bound, p) <= hi ==> #[trigger] jumps_within(bound_code(bound, at, p), lo, hi),
    decreases bound, 1nat,
{
    let lo = at;
    if bound.len() > 0 {
        let b = at + bound_len(bound, p);
        let rest = bound.drop_last();
        assert forall|i: int| 0 <= i < rest.len() implies match #[trigger] rest[i] {
            Some(x) => expr_ok(x, p),
            None => true,
        } by {
            assert(rest[i] == bound[i]);
        }
        match bound.last() {
            Some(x) => {
                assert(bound.last() == bound[bound.len() - 1]);
                lemma_expr_code(x, at, p);
                lemma_bound_code(rest, at + expr_len(x, p), p);
                lemma_jw_mono(expr_code(x, at, p), lo, at + expr_len(x, p), b);
                lemma_jw_cat(expr_code(x, at, p), bound_code(rest, at + expr_len(x, p), p), lo, b);
            },
            None => {
                lemma_bound_code(rest, at, p);
            },
        }
    }
    lemma_jw_widen(bound_code(bound, at, p), at, at + bound_len(bound, p));
}

/// The code of loop variable initialisations.
pub proof fn lemma_inits_code(inits: Seq<(u32, HirExpression)>, at: int, p: HirAst)
    requires
        inits_ok(inits, p),
        0 <= at,
        at + inits_len(inits, p) <= usize::MAX,
    ensures
        inits_code(inits, at, p).len() == inits_len(inits, p),
        forall|lo: int, hi: int|
            lo <= at && at + inits_len(inits, p) <= hi ==> #[trigger] jumps_within(inits_code(inits, at, p), lo, hi),
    decreases inits, 1nat,
{
    let lo = at;
    if inits.len() > 0 {
        let b = at + inits_len(inits, p);
        let x = inits[0].1;
        assert(expr_ok(x, p));
        assert(inits_ok(inits.drop_first(), p)) by {
            assert forall|i: int| 0 <= i < inits.drop_first().len() implies expr_ok(#[trigger] inits.drop_first()[i].1, p) by {
                assert(inits.drop_first()[i] == inits[i + 1]);
            }
        }
        lemma_expr_code(x, at, p);
        let c1 = expr_code(x, at, p);
        let c2 = seq![OpCode::StVar(inits[0].0)];
        let c3 = inits_code(inits.drop_first(), at + expr_len(x, p) + 1, p);
        lemma_inits_code(inits.drop_first(), at + expr_len(x, p) + 1, p);
        lemma_jw_mono(c1, lo, at + expr_len(x, p), b);
        lemma_jw_one(OpCode::StVar(inits[0].0), lo, b);
        lemma_jw_cat(c1, c2, lo, b);
        lemma_jw_cat(c1 + c2, c3, lo, b);
    }
    lemma_jw_widen(inits_code(inits, at, p), at, at + inits_len(inits, p));
}

/// The code of a struct literal's field values.
pub proof fn lemma_field_values_code(names: Seq<String>, fields: Seq<(String, HirExpression)>, at: int, p: HirAst)
    requires
        forall|i: int|
            0 <= i < names.len() ==> match #[trigger] last_field_index(fields, names[i]@) {
                Some(j) => 0 <= j < fields.len() && expr_ok(fields[j].1, p),
                None => false,
            },
        0 <= at,
        at + field_values_len(names, fields, p) <= usize::MAX,
    ensures
        field_values_code(names, fields, at, p).len() == field_values_len(names, fields, p),
        forall|lo: int, hi: int|
            lo <= at && at + field_values_len(names, fields, p) <= hi ==> #[trigger] jumps_within(field_values_code(names, fields, at, p), lo, hi),
    decreases fields, names.len(),
{
    let lo = at;
    if names.len() > 0 {
        let b = at + field_values_len(names, fields, p);
        let rest = names.drop_first();
        assert forall|i: int| 0 <= i < rest.len() implies match #[trigger] last_field_index(fields, rest[i]@) {
            Some(j) => 0 <= j < fields.len() && expr_ok(fields[j].1, p),
            None => false,
        } by {
            assert(rest[i] == names[i + 1]);
        }
        assert(match last_field_index(fields, names[0]@) {
            Some(j) => 0 <= j < fields.len() && expr_ok(fields[j].1, p),
            None => false,
        });
        let j = last_field_index(fields, names[0]@)->Some_0;
        let x = fields[j].1;
        lemma_expr_code(x, at, p);
        lemma_field_values_code(rest, fields, at + expr_len(x, p), p);
        lemma_jw_mono(expr_code(x, at, p), lo, at + expr_len(x, p), b);
        lemma_jw_cat(expr_code(x, at, p), field_values_code(rest, fields, at + expr_len(x, p), p), lo, b);
    }
    lemma_jw_widen(field_values_code(names, fields, at, p), at, at + field_values_len(names, fields, p));
}

/// The code of a postfix invocation.
proof fn lemma_postfix_code(e: HirExpression, at: int, p: HirAst)
    requires
        e is PostfixInvoke,
        expr_ok(e, p),
        0 <= at,
        at + expr_len(e, p) <= usize::MAX,
    ensures
        expr_code(e, at, p).len() == expr_len(e, p),
        forall|lo: int, hi: int|
            lo <= at && at + expr_len(e, p) <= hi ==> #[trigger] jumps_within(expr_code(e, at, p), lo, hi),
    decreases e, 0nat,
{
    let lo = at;
    let b = at + expr_len(e, p);
    match e {
        HirExpression::PostfixInvoke { operand, args } => match args {
            Some(list) => {
                lemma_exprs_code(list@, at, p);
                lemma_expr_code(*operand, at + exprs_len(list@, p), p);
                let c1 = exprs_code(list@, at, p);
                let c2 = expr_code(*operand, at + exprs_len(list@, p), p);
                let c3 = seq![OpCode::Thunk(list@.len() as u32), OpCode::Invoke];
                lemma_jw_mono(c1, lo, at + exprs_len(list@, p), b);
                lemma_jw_mono(c2, lo, at + exprs_len(list@, p) + expr_len(*operand, p), b);
                assert(jumps_within(c3, lo, b)) by {
                    assert forall|i: int| 0 <= i < c3.len() implies target_within(#[trigger] c3[i], lo, b) by {
                        if i == 0 {
                        } else {
                        }
                    }
                }
                lemma_jw_cat(c1, c2, lo, b);
                lemma_jw_cat(c1 + c2, c3, lo, b);
            },
            None => {
                lemma_expr_code(*operand, at, p);
                match *operand {
                    HirExpression::PostfixInvoke { operand: inner, args: Some(inner_list) } => {
                        assert(expr_ok(*operand, p));
                        assert(expr_ok(*inner, p) && exprs_ok(inner_list@, p));
                        lemma_exprs_code(inner_list@, at, p);
                        lemma_expr_code(*inner, at + exprs_len(inner_list@, p), p);
                        let c1 = exprs_code(inner_list@, at, p);
                        let c2 = expr_code(*inner, at + exprs_len(inner_list@, p), p);
                        let c3 = seq![OpCode::Thunk(inner_list@.len() as u32)];
                        let c4: Seq<OpCode> = if *inner is Identifier {
                            Seq::empty()
                        } else {
                            seq![OpCode::Invoke]
                        };
                        let c5 = seq![OpCode::Invoke];
                        lemma_jw_mono(c1, lo, at + exprs_len(inner_list@, p), b);
                        lemma_jw_mono(c2, lo, at + exprs_len(inner_list@, p) + expr_len(*inner, p), b);
                        lemma_jw_one(OpCode::Thunk(inner_list@.len() as u32), lo, b);
                        lemma_jw_one(OpCode::Invoke, lo, b);
                        lemma_jw_cat(c1, c2, lo, b);
                        lemma_jw_cat(c1 + c2, c3, lo, b);
                        lemma_jw_cat(c1 + c2 + c3, c4, lo, b);
                        lemma_jw_cat(c1 + c2 + c3 + c4, c5, lo, b);
                    },
                    HirExpression::PartialCall { .. } => {},
                    HirExpression::FunctionCall { invoke, .. } => {
                        lemma_jw_mono(expr_code(*operand, at, p), lo, at + expr_len(*operand, p), b);
                        if !invoke {
                            lemma_jw_one(OpCode::Invoke, lo, b);
                            lemma_jw_cat(expr_code(*operand, at, p), seq![OpCode::Invoke], lo, b);
                        } else {
                            assert(expr_code(e, at, p) =~= expr_code(*operand, at, p));
                        }
                    },
                    _ => {
                        lemma_jw_mono(expr_code(*operand, at, p), lo, at + expr_len(*operand, p), b);
                        lemma_jw_one(OpCode::Invoke, lo, b);
                        lemma_jw_cat(expr_code(*operand, at, p), seq![OpCode::Invoke], lo, b);
                    },
                }
            },
        },
        _ => {},
    }
    lemma_jw_widen(expr_code(e, at, p), at, at + expr_len(e, p));
}

/// The code of an array slice.
proof fn lemma_slice_code(e: HirExpression, at: int, p: HirAst)
    requires
        e is ArraySlice,
        expr_ok(e, p),
        0 <= at,
        at + expr_len(e, p) <= usize::MAX,
    ensures
        expr_code(e, at, p).len() == expr_len(e, p),
        forall|lo: int, hi: int|
            lo <= at && at + expr_len(e, p) <= hi ==> #[trigger] jumps_within(expr_code(e, at, p), lo, hi),
    decreases e, 0nat,
{
    let lo = at;
    let b = at + expr_len(e, p);
    match e {
        HirExpression::ArraySlice { array, start, end, step, inclusive_end } => {
            let p1 = at + expr_len(*array, p);
            let p2 = p1 + match start {
                Some(x) => expr_len(*x, p),
                None => 1nat,
            };
            let p3 = p2 + match end {
                Some(x) => expr_len(*x, p),
                None => 1nat,
            };
            lemma_expr_code(*array, at, p);
            let c0 = expr_code(*array, at, p);
            lemma_jw_mono(c0, lo, p1, b);
            let c1: Seq<OpCode> = match start {
                Some(x) => expr_code(*x, p1, p),
                None => seq![OpCode::LdNum(NONE_SENTINEL)],
            };
            match start {
                Some(x) => {
                    lemma_expr_code(*x, p1, p);
                    lemma_jw_mono(c1, lo, p2, b);
                },
                None => {
                    lemma_jw_one(OpCode::LdNum(NONE_SENTINEL), lo, b);
                },
            }
            let c2: Seq<OpCode> = match end {
                Some(x) => expr_code(*x, p2, p),
                None => seq![OpCode::LdNum(NONE_SENTINEL)],
            };
            match end {
                Some(x) => {
                    lemma_expr_code(*x, p2, p);
                    lemma_jw_mono(c2, lo, p3, b);
                },
                None => {
                    lemma_jw_one(OpCode::LdNum(NONE_SENTINEL), lo, b);
                },
            }
            let c3: Seq<OpCode> = match step {
                Some(x) => expr_code(*x, p3, p),
                None => seq![OpCode::LdNum(NONE_SENTINEL)],
            };
            match step {
                Some(x) => {
                    lemma_expr_code(*x, p3, p);
                    lemma_jw_mono(c3, lo, p3 + expr_len(*x, p), b);
                },
                None => {
                    lemma_jw_one(OpCode::LdNum(NONE_SENTINEL), lo, b);
                },
            }
            let flag = OpCode::LdNum(
                if inclusive_end {
                    ONE_BITS
                } else {
                    ZERO_BITS
                },
            );
            let c4 = seq![flag, OpCode::ArraySlice];
            assert(jumps_within(c4, lo, b)) by {
                assert forall|i: int| 0 <= i < c4.len() implies target_within(#[trigger] c4[i], lo, b) by {
                    if i == 0 {
                    } else {
                    }
                }
            }
            lemma_jw_cat(c0, c1, lo, b);
            lemma_jw_cat(c0 + c1, c2, lo, b);
            lemma_jw_cat(c0 + c1 + c2, c3, lo, b);
            lemma_jw_cat(c0 + c1 + c2 + c3, c4, lo, b);
        },
        _ => {},
    }
    lemma_jw_widen(expr_code(e, at, p), at, at + expr_len(e, p));
}

/// The loop of a `sum` stays inside its code.
proof fn lemma_sum_code(at: int, lo: int, b: int)
    requires
        lo <= at,
        0 <= at,
        at + 16 <= b,
        b <= usize::MAX,
    ensures
        sum_code(at).len() == 16,
        jumps_within(sum_code(at), lo, b),
{
    let c = sum_code(at);
    assert forall|i: int| 0 <= i < c.len() implies target_within(#[trigger] c[i], lo, b) by {
        if i == 13 {
            assert(c[i] == OpCode::JmpIfFalse((at + 15) as usize));
        } else if i == 14 {
            assert(c[i] == OpCode::Jmp((at + 4) as usize));
        } else {
            assert(jump_target(c[i]) is None);
        }
    }
}

/// The loop of a `reduce` stays inside its code.
proof fn lemma_reduce_code(at: int, f: u32, lo: int, b: int)
    requires
        lo <= at,
        0 <= at,
        at + 22 <= b,
        b <= usize::MAX,
    ensures
        reduce_code(at, f).len() == 22,
        jumps_within(reduce_code(at, f), lo, b),
{
    let c = reduce_code(at, f);
    assert forall|i: int| 0 <= i < c.len() implies target_within(#[trigger] c[i], lo, b) by {
        if i == 7 {
            assert(c[i] == OpCode::JmpIfFalse((at + 8) as usize));
        } else if i == 19 {
            assert(c[i] == OpCode::JmpIfFalse((at + 21) as usize));
        } else if i == 20 {
            assert(c[i] == OpCode::Jmp((at + 8) as usize));
        } else {
            assert(jump_target(c[i]) is None);
        }
    }
}

/// The code of a reducer.
proof fn lemma_reducer_code(e: HirExpression, at: int, p: HirAst)
    requires
        e is Reducer,
        expr_ok(e, p),
        0 <= at,
        at + expr_len(e, p) <= usize::MAX,
    ensures
        expr_code(e, at, p).len() == expr_len(e, p),
        forall|lo: int, hi: int|
            lo <= at && at + expr_len(e, p) <= hi ==> #[trigger] jumps_within(expr_code(e, at, p), lo, hi),
    decreases e, 0nat,
{
    let lo = at;
    let b = at + expr_len(e, p);
    match e {
        HirExpression::Reducer { array, reducer_type, reducer_args } => {
            lemma_expr_code(*array, at, p);
            let pre_extra: Seq<OpCode> = if *array is ComposeThunk {
                seq![OpCode::Invoke]
            } else {
                Seq::empty()
            };
            let pre = expr_code(*array, at, p) + pre_extra;
            let pos = at + expr_len(*array, p) + if *array is ComposeThunk {
                1nat
            } else {
                0
            };
            lemma_jw_mono(expr_code(*array, at, p), lo, at + expr_len(*array, p), b);
            if *array is ComposeThunk {
                lemma_jw_one(OpCode::Invoke, lo, b);
            }
            lemma_jw_cat(expr_code(*array, at, p), pre_extra, lo, b);
            match reducer_type {
                ReducerType::Mapping | ReducerType::Filter => {
                    let fcode: Seq<OpCode> = match reducer_args@[0] {
                        HirExpression::Closure { function_id } => seq![OpCode::LdFunc(function_id)],
                        _ => expr_code(reducer_args@[0], pos, p),
                    };
                    match reducer_args@[0] {
                        HirExpression::Closure { function_id } => {
                            lemma_jw_one(OpCode::LdFunc(function_id), lo, b);
                        },
                        _ => {
                            lemma_expr_code(reducer_args@[0], pos, p);
                            lemma_jw_mono(fcode, lo, pos + expr_len(reducer_args@[0], p), b);
                        },
                    }
                    let op = if reducer_type is Mapping {
                        OpCode::ArrayMap
                    } else {
                        OpCode::ArrayFilter
                    };
                    lemma_jw_one(op, lo, b);
                    lemma_jw_cat(fcode, seq![op], lo, b);
                    lemma_jw_cat(pre, fcode + seq![op], lo, b);
                    assert(expr_code(e, at, p) =~= pre + (fcode + seq![op]));
                },
                ReducerType::Fold => {
                    lemma_expr_code(reducer_args@[0], pos, p);
                    let c1 = expr_code(reducer_args@[0], pos, p);
                    let c2 = seq![OpCode::LdFunc(fold_function(reducer_args@, p)), OpCode::ArrayFold];
                    lemma_jw_mono(c1, lo, pos + expr_len(reducer_args@[0], p), b);
                    assert(jumps_within(c2, lo, b)) by {
                        assert forall|i: int| 0 <= i < c2.len() implies target_within(#[trigger] c2[i], lo, b) by {
                            if i == 0 {
                            } else {
                            }
                        }
                    }
                    lemma_jw_cat(c1, c2, lo, b);
                    lemma_jw_cat(pre, c1 + c2, lo, b);
                    assert(expr_code(e, at, p) =~= pre + (c1 + c2));
                },
                ReducerType::Sum => {
                    lemma_sum_code(pos, lo, b);
                    lemma_jw_cat(pre, sum_code(pos), lo, b);
                },
                ReducerType::Reduce => {
                    lemma_reduce_code(pos, reduce_function(reducer_args@, p), lo, b);
                    lemma_jw_cat(pre, reduce_code(pos, reduce_function(reducer_args@, p)), lo, b);
                },
            }
        },
        _ => {},
    }
    lemma_jw_widen(expr_code(e, at, p), at, at + expr_len(e, p));
}

/// The pattern test of a `match` case.
pub proof fn lemma_pattern_code(pat: HirExpression, at: int, p: HirAst)
    requires
        pattern_ok(pat, p),
        0 <= at,
        at + pattern_len(pat, p) <= usize::MAX,
    ensures
        pattern_code(pat, at, p).len() == pattern_len(pat, p),
        forall|lo: int, hi: int|
            lo <= at && at + pattern_len(pat, p) <= hi ==> #[trigger] jumps_within(pattern_code(pat, at, p), lo, hi),
    decreases pat, 2nat,
{
    let lo = at;
    let b = at + pattern_len(pat, p);
    match pat {
        HirExpression::Binary { lhs, rhs, operator } => {
            if is_comparison(operator) {
                lemma_expr_code(*rhs, at, p);
                lemma_jw_mono(expr_code(*rhs, at, p), lo, at + expr_len(*rhs, p), b);
                lemma_jw_one(binary_op_code(operator, false), lo, b);
                lemma_jw_cat(expr_code(*rhs, at, p), seq![binary_op_code(operator, false)], lo, b);
            } else if operator is And || operator is Or {
                lemma_pattern_code(*lhs, at, p);
                lemma_pattern_code(*rhs, at + pattern_len(*lhs, p) + 1, p);
                let c1 = pattern_code(*lhs, at, p);
                let c2 = seq![OpCode::LdVar(MATCH_SLOT)];
                let c3 = pattern_code(*rhs, at + pattern_len(*lhs, p) + 1, p);
                let c4 = seq![binary_op_code(operator, false)];
                lemma_jw_mono(c1, lo, at + pattern_len(*lhs, p), b);
                lemma_jw_one(OpCode::LdVar(MATCH_SLOT), lo, b);
                lemma_jw_one(binary_op_code(operator, false), lo, b);
                lemma_jw_cat(c1, c2, lo, b);
                lemma_jw_cat(c1 + c2, c3, lo, b);
                lemma_jw_cat(c1 + c2 + c3, c4, lo, b);
            } else {
                lemma_expr_code(pat, at, p);
            }
        },
        _ => {
            lemma_expr_code(pat, at, p);
        },
    }
    lemma_jw_widen(pattern_code(pat, at, p), at, at + pattern_len(pat, p));
}

/// The test of a case's pattern.
pub proof fn lemma_case_test_code(pat: HirExpression, at: int, p: HirAst)
    requires
        case_test_ok(pat, p),
        0 <= at,
        at + case_test_len(pat, p) <= usize::MAX,
    ensures
        case_test_code(pat, at, p).len() == case_test_len(pat, p),
        forall|lo: int, hi: int|
            lo <= at && at + case_test_len(pat, p) <= hi ==> #[trigger] jumps_within(case_test_code(pat, at, p), lo, hi),
    decreases pat, 3nat,
{
    let lo = at;
    let b = at + case_test_len(pat, p);
    if tests_as_pattern(pat) {
        lemma_pattern_code(pat, at, p);
    } else {
        lemma_expr_code(pat, at, p);
        lemma_jw_mono(expr_code(pat, at, p), lo, at + expr_len(pat, p), b);
        lemma_jw_one(OpCode::Eq, lo, b);
        lemma_jw_cat(expr_code(pat, at, p), seq![OpCode::Eq], lo, b);
    }
    lemma_jw_widen(case_test_code(pat, at, p), at, at + case_test_len(pat, p));
}

/// The code of a statement inside the loop `ctx`: its jumps land inside it
/// or where the loop's `break` and `continue` go.
pub proof fn lemma_stmt_code(s: HirStmt, at: int, ctx: Option<LoopInfo>, p: HirAst)
    requires
        stmt_ok(s, p, ctx is Some),
        0 <= at,
        at + stmt_len(s, p, slot_of(ctx)) <= usize::MAX,
    ensures
        stmt_code(s, at, ctx, p).len() == stmt_len(s, p, slot_of(ctx)),
        forall|lo: int, hi: int|
            lo <= ctx_floor(ctx, at) && imax(at + stmt_len(s, p, slot_of(ctx)), ctx_bound(ctx)) <= hi ==> #[trigger] jumps_within(stmt_code(s, at, ctx, p), lo, hi),
    decreases s, 1nat,
{
    let lo = ctx_floor(ctx, at);
    let slot = slot_of(ctx);
    let b = imax(at + stmt_len(s, p, slot), ctx_bound(ctx));
    match s {
        HirStmt::Assign { slot: v, value } => {
            lemma_expr_code(value, at, p);
            lemma_jw_mono(expr_code(value, at, p), lo, at + expr_len(value, p), b);
            lemma_jw_one(OpCode::StVar(v), lo, b);
            lemma_jw_cat(expr_code(value, at, p), seq![OpCode::StVar(v)], lo, b);
        },
        HirStmt::AssignIncrement { slot: v, value } => {
            lemma_expr_code(value, at + 1, p);
            let c1 = seq![OpCode::LdVar(v)];
            let c2 = expr_code(value, at + 1, p);
            let c3 = seq![OpCode::Add, OpCode::StVar(v)];
            lemma_jw_one(OpCode::LdVar(v), lo, b);
            lemma_jw_mono(c2, lo, at + 1 + expr_len(value, p), b);
            assert(jumps_within(c3, lo, b)) by {
                assert forall|i: int| 0 <= i < c3.len() implies target_within(#[trigger] c3[i], lo, b) by {
                    if i == 0 {
                    } else {
                    }
                }
            }
            lemma_jw_cat(c1, c2, lo, b);
            lemma_jw_cat(c1 + c2, c3, lo, b);
        },
        HirStmt::AssignDecrement { slot: v, value } => {
            lemma_expr_code(value, at + 1, p);
            let c1 = seq![OpCode::LdVar(v)];
            let c2 = expr_code(value, at + 1, p);
            let c3 = seq![OpCode::Sub, OpCode::StVar(v)];
            lemma_jw_one(OpCode::LdVar(v), lo, b);
            lemma_jw_mono(c2, lo, at + 1 + expr_len(value, p), b);
            assert(jumps_within(c3, lo, b)) by {
                assert forall|i: int| 0 <= i < c3.len() implies target_within(#[trigger] c3[i], lo, b) by {
                    if i == 0 {
                    } else {
                    }
                }
            }
            lemma_jw_cat(c1, c2, lo, b);
            lemma_jw_cat(c1 + c2, c3, lo, b);
        },
        HirStmt::If { arms, else_block } => {
            let alen = arms_len(arms@, p, slot);
            let end = at + alen + stmts_len(else_block.statements@, p, slot);
            lemma_arms_code(arms@, at, end, ctx, p);
            lemma_stmts_code(else_block.statements@, at + alen, ctx, p);
            lemma_jw_cat(arms_code(arms@, at, end, ctx, p), stmts_code(else_block.statements@, at + alen, ctx, p), lo, b);
        },
        HirStmt::Match { expression, cases } => {
            let cases_at = at + expr_len(expression, p) + 1;
            let end = cases_at + cases_len(cases@, p, slot);
            lemma_expr_code(expression, at, p);
            lemma_cases_code(cases@, cases_at, end, ctx, p);
            let c1 = expr_code(expression, at, p);
            let c2 = seq![OpCode::StVar(MATCH_SLOT)];
            let c3 = cases_code(cases@, cases_at, end, ctx, p);
            lemma_jw_mono(c1, lo, at + expr_len(expression, p), b);
            lemma_jw_one(OpCode::StVar(MATCH_SLOT), lo, b);
            lemma_jw_cat(c1, c2, lo, b);
            lemma_jw_cat(c1 + c2, c3, lo, b);
        },
        HirStmt::Return { value } => {
            match value {
                HirExpression::FunctionCall { function_id, args, invoke } => {
                    if invoke {
                        assert(exprs_ok(args@, p));
                        lemma_exprs_code(args@, at, p);
                        let c1 = exprs_code(args@, at, p);
                        let c2 = seq![
                            OpCode::LdFunc(function_id),
                            OpCode::Thunk(args@.len() as u32),
                            OpCode::RetInvoke,
                        ];
                        lemma_jw_mono(c1, lo, at + exprs_len(args@, p), b);
                        assert(jumps_within(c2, lo, b)) by {
                            assert forall|i: int| 0 <= i < c2.len() implies target_within(#[trigger] c2[i], lo, b) by {
                                if i == 0 {
                                } else if i == 1 {
                                } else {
                                }
                            }
                        }
                        lemma_jw_cat(c1, c2, lo, b);
                    } else {
                        lemma_expr_code(value, at, p);
                        lemma_jw_mono(expr_code(value, at, p), lo, at + expr_len(value, p), b);
                        lemma_jw_one(OpCode::Ret, lo, b);
                        lemma_jw_cat(expr_code(value, at, p), seq![OpCode::Ret], lo, b);
                    }
                },
                _ => {
                    lemma_expr_code(value, at, p);
                    lemma_jw_mono(expr_code(value, at, p), lo, at + expr_len(value, p), b);
                    lemma_jw_one(OpCode::Ret, lo, b);
                    lemma_jw_cat(expr_code(value, at, p), seq![OpCode::Ret], lo, b);
                },
            }
        },
        HirStmt::Loop { init_vars, body, break_slot } => {
            lemma_inits_code(init_vars@, at, p);
            lemma_loop_body_code(body, at + inits_len(init_vars@, p), break_slot, p);
            let c1 = inits_code(init_vars@, at, p);
            let c2 = loop_body_code(body, at + inits_len(init_vars@, p), break_slot, p);
            lemma_jw_mono(c1, lo, at + inits_len(init_vars@, p), b);
            lemma_jw_mono(c2, lo, at + inits_len(init_vars@, p) + loop_body_len(body, p, break_slot), b);
            lemma_jw_cat(c1, c2, lo, b);
        },
        HirStmt::Break { value } => {
            let c = ctx->Some_0;
            let c1: Seq<OpCode> = match value {
                Some(v) => expr_code(v, at, p) + store_slot(c.break_slot),
                None => Seq::empty(),
            };
            lemma_jw_slots(c.break_slot, lo, b);
            match value {
                Some(v) => {
                    lemma_expr_code(v, at, p);
                    lemma_jw_mono(expr_code(v, at, p), lo, at + expr_len(v, p), b);
                    lemma_jw_cat(expr_code(v, at, p), store_slot(c.break_slot), lo, b);
                },
                None => {},
            }
            lemma_jw_one(OpCode::Jmp(c.end), lo, b);
            lemma_jw_cat(c1, seq![OpCode::Jmp(c.end)], lo, b);
        },
        HirStmt::Continue => {
            let c = ctx->Some_0;
            lemma_jw_one(OpCode::Jmp(c.continue_target), lo, b);
        },
        HirStmt::Expression(e) => {
            if e matches HirExpression::Constant(k) && k == 0 {
            } else {
                lemma_expr_code(e, at, p);
                lemma_jw_mono(expr_code(e, at, p), lo, at + expr_len(e, p), b);
                if !is_void(e, p) {
                    lemma_jw_one(OpCode::Pop, lo, b);
                    lemma_jw_cat(expr_code(e, at, p), seq![OpCode::Pop], lo, b);
                } else {
                    assert(stmt_code(s, at, ctx, p) =~= expr_code(e, at, p));
                }
            }
        },
        HirStmt::Nop => {},
    }
    lemma_jw_widen(stmt_code(s, at, ctx, p), ctx_floor(ctx, at), imax(at + stmt_len(s, p, slot_of(ctx)), ctx_bound(ctx)));
}

/// The code of a list of statements inside the loop `ctx`.
pub proof fn lemma_stmts_code(ss: Seq<HirStmt>, at: int, ctx: Option<LoopInfo>, p: HirAst)
    requires
        stmts_ok(ss, p, ctx is Some),
        0 <= at,
        at + stmts_len(ss, p, slot_of(ctx)) <= usize::MAX,
    ensures
        stmts_code(ss, at, ctx, p).len() == stmts_len(ss, p, slot_of(ctx)),
        forall|lo: int, hi: int|
            lo <= ctx_floor(ctx, at) && imax(at + stmts_len(ss, p, slot_of(ctx)), ctx_bound(ctx)) <= hi ==> #[trigger] jumps_within(stmts_code(ss, at, ctx, p), lo, hi),
    decreases ss, 1nat,
{
    let lo = ctx_floor(ctx, at);
    if ss.len() > 0 {
        let slot = slot_of(ctx);
        let b = imax(at + stmts_len(ss, p, slot), ctx_bound(ctx));
        assert(stmt_ok(ss[0], p, ctx is Some));
        assert(stmts_ok(ss.drop_first(), p, ctx is Some)) by {
            assert forall|i: int| 0 <= i < ss.drop_first().len() implies stmt_ok(#[trigger] ss.drop_first()[i], p, ctx is Some) by {
                assert(ss.drop_first()[i] == ss[i + 1]);
            }
        }
        lemma_stmt_code(ss[0], at, ctx, p);
        lemma_stmts_code(ss.drop_first(), at + stmt_len(ss[0], p, slot), ctx, p);
        let c1 = stmt_code(ss[0], at, ctx, p);
        let c2 = stmts_code(ss.drop_first(), at + stmt_len(ss[0], p, slot), ctx, p);
        lemma_jw_mono(c1, lo, imax(at + stmt_len(ss[0], p, slot), ctx_bound(ctx)), b);
        lemma_jw_cat(c1, c2, lo, b);
    }
    lemma_jw_widen(stmts_code(ss, at, ctx, p), ctx_floor(ctx, at), imax(at + stmts_len(ss, p, slot_of(ctx)), ctx_bound(ctx)));
}

/// The code of the arms of an `if` that ends at `end`.
pub proof fn lemma_arms_code(arms: Seq<(HirExpression, HirBlock)>, at: int, end: int, ctx: Option<LoopInfo>, p: HirAst)
    requires
        arms_ok(arms, p, ctx is Some),
        0 <= at,
        at + arms_len(arms, p, slot_of(ctx)) <= end,
        end <= usize::MAX,
    ensures
        arms_code(arms, at, end, ctx, p).len() == arms_len(arms, p, slot_of(ctx)),
        forall|lo: int, hi: int|
            lo <= ctx_floor(ctx, at) && imax(end, ctx_bound(ctx)) <= hi ==> #[trigger] jumps_within(arms_code(arms, at, end, ctx, p), lo, hi),
    decreases arms, 1nat,
{
    let lo = ctx_floor(ctx, at);
    if arms.len() > 0 {
        let slot = slot_of(ctx);
        let b = imax(end, ctx_bound(ctx));
        let cond = arms[0].0;
        let block = arms[0].1.statements@;
        let cond_len = expr_len(cond, p);
        let block_len = stmts_len(block, p, slot);
        let next = at + cond_len + 1 + block_len + 1;
        assert(expr_ok(cond, p) && stmts_ok(block, p, ctx is Some));
        assert(arms_ok(arms.drop_first(), p, ctx is Some)) by {
            assert forall|i: int| 0 <= i < arms.drop_first().len() implies expr_ok(#[trigger] arms.drop_first()[i].0, p)
                && stmts_ok(arms.drop_first()[i].1.statements@, p, ctx is Some) by {
                assert(arms.drop_first()[i] == arms[i + 1]);
                assert(expr_ok(arms[i + 1].0, p));
            }
        }
        lemma_expr_code(cond, at, p);
        lemma_stmts_code(block, at + cond_len + 1, ctx, p);
        lemma_arms_code(arms.drop_first(), next, end, ctx, p);
        let c1 = expr_code(cond, at, p);
        let c2 = seq![OpCode::JmpIfFalse(next as usize)];
        let c3 = stmts_code(block, at + cond_len + 1, ctx, p);
        let c4 = seq![OpCode::Jmp(end as usize)];
        let c5 = arms_code(arms.drop_first(), next, end, ctx, p);
        lemma_jw_mono(c1, lo, at + cond_len, b);
        lemma_jw_one(OpCode::JmpIfFalse(next as usize), lo, b);
        lemma_jw_mono(c3, lo, imax(at + cond_len + 1 + block_len, ctx_bound(ctx)), b);
        lemma_jw_one(OpCode::Jmp(end as usize), lo, b);
        lemma_jw_cat(c1, c2, lo, b);
        lemma_jw_cat(c1 + c2, c3, lo, b);
        lemma_jw_cat(c1 + c2 + c3, c4, lo, b);
        lemma_jw_cat(c1 + c2 + c3 + c4, c5, lo, b);
    }
    lemma_jw_widen(arms_code(arms, at, end, ctx, p), ctx_floor(ctx, at), imax(end, ctx_bound(ctx)));
}

/// The code of one case of a `match` that ends at `end`.
pub proof fn lemma_case_code(
    case: (Option<HirExpression>, HirBlock),
    at: int,
    miss: int,
    end: int,
    ctx: Option<LoopInfo>,
    p: HirAst,
)
    requires
        match case.0 {
            Some(pat) => case_test_ok(pat, p),
            None => true,
        },
        stmts_ok(case.1.statements@, p, ctx is Some),
        0 <= at <= miss,
        miss <= end,
        at + case_header_len(case.0, p) + stmts_len(case.1.statements@, p, slot_of(ctx)) + 1 <= end,
        end <= usize::MAX,
    ensures
        case_code(case, at, miss, end, ctx, p).len() == case_header_len(case.0, p) + stmts_len(
            case.1.statements@,
            p,
            slot_of(ctx),
        ) + 1,
        forall|lo: int, hi: int|
            lo <= ctx_floor(ctx, at) && imax(end, ctx_bound(ctx)) <= hi ==> #[trigger] jumps_within(case_code(case, at, miss, end, ctx, p), lo, hi),
    decreases case, 1nat,
{
    let lo = ctx_floor(ctx, at);
    let slot = slot_of(ctx);
    let b = imax(end, ctx_bound(ctx));
    let header: Seq<OpCode> = match case.0 {
        Some(pat) => seq![OpCode::LdVar(MATCH_SLOT)] + case_test_code(pat, at + 1, p) + seq![
            OpCode::JmpIfFalse(miss as usize),
        ],
        None => Seq::empty(),
    };
    match case.0 {
        Some(pat) => {
            lemma_case_test_code(pat, at + 1, p);
            lemma_jw_one(OpCode::LdVar(MATCH_SLOT), lo, b);
            lemma_jw_mono(case_test_code(pat, at + 1, p), lo, at + 1 + case_test_len(pat, p), b);
            lemma_jw_one(OpCode::JmpIfFalse(miss as usize), lo, b);
            lemma_jw_cat(seq![OpCode::LdVar(MATCH_SLOT)], case_test_code(pat, at + 1, p), lo, b);
            lemma_jw_cat(
                seq![OpCode::LdVar(MATCH_SLOT)] + case_test_code(pat, at + 1, p),
                seq![OpCode::JmpIfFalse(miss as usize)],
                lo,
                b,
            );
        },
        None => {},
    }
    let hlen = case_header_len(case.0, p);
    lemma_stmts_code(case.1.statements@, at + hlen, ctx, p);
    let c2 = stmts_code(case.1.statements@, at + hlen, ctx, p);
    lemma_jw_mono(c2, lo, imax(at + hlen + stmts_len(case.1.statements@, p, slot), ctx_bound(ctx)), b);
    lemma_jw_one(OpCode::Jmp(end as usize), lo, b);
    lemma_jw_cat(header, c2, lo, b);
    lemma_jw_cat(header + c2, seq![OpCode::Jmp(end as usize)], lo, b);
    lemma_jw_widen(case_code(case, at, miss, end, ctx, p), ctx_floor(ctx, at), imax(end, ctx_bound(ctx)));
}

/// The code of the cases of a `match` that ends at `end`.
pub proof fn lemma_cases_code(
    cases: Seq<(Option<HirExpression>, HirBlock)>,
    at: int,
    end: int,
    ctx: Option<LoopInfo>,
    p: HirAst,
)
    requires
        cases_ok(cases, p, ctx is Some),
        0 <= at,
        at + cases_len(cases, p, slot_of(ctx)) <= end,
        end <= usize::MAX,
    ensures
        cases_code(cases, at, end, ctx, p).len() == cases_len(cases, p, slot_of(ctx)),
        forall|lo: int, hi: int|
            lo <= ctx_floor(ctx, at) && imax(end, ctx_bound(ctx)) <= hi ==> #[trigger] jumps_within(cases_code(cases, at, end, ctx, p), lo, hi),
    decreases cases, 1nat,
{
    let lo = ctx_floor(ctx, at);
    if cases.len() > 0 {
        let slot = slot_of(ctx);
        let b = imax(end, ctx_bound(ctx));
        let header_len = case_header_len(cases[0].0, p);
        let block_len = stmts_len(cases[0].1.statements@, p, slot);
        let next = at + header_len + block_len + 1;
        let rest = cases.drop_first();
        let miss = if cases.len() > 1 {
            next + case_header_len(cases[1].0, p)
        } else {
            end
        };
        assert(cases_ok(rest, p, ctx is Some)) by {
            assert forall|i: int| 0 <= i < rest.len() implies match #[trigger] rest[i].0 {
                Some(pat) => case_test_ok(pat, p),
                None => true,
            } && stmts_ok(rest[i].1.statements@, p, ctx is Some) by {
                assert(rest[i] == cases[i + 1]);
            }
        }
        assert(match cases[0].0 {
            Some(pat) => case_test_ok(pat, p),
            None => true,
        } && stmts_ok(cases[0].1.statements@, p, ctx is Some));
        if cases.len() > 1 {
            assert(rest[0] == cases[1]);
            assert(cases_len(rest, p, slot) >= case_header_len(rest[0].0, p));
        }
        lemma_case_code(cases[0], at, miss, end, ctx, p);
        lemma_cases_code(rest, next, end, ctx, p);
        lemma_jw_cat(case_code(cases[0], at, miss, end, ctx, p), cases_code(rest, next, end, ctx, p), lo, b);
    }
    lemma_jw_widen(cases_code(cases, at, end, ctx, p), ctx_floor(ctx, at), imax(end, ctx_bound(ctx)));
}

/// The code of a loop statement's body that starts at `start`: its jumps,
/// `break` and `continue` among them, stay inside the loop, from its start
/// to just after its end.
pub proof fn lemma_loop_body_code(body: HirBlock, start: int, slot: Option<u32>, p: HirAst)
    requires
        stmts_ok(body.statements@, p, true),
        0 <= start,
        start + loop_body_len(body, p, slot) <= usize::MAX,
    ensures
        loop_body_code(body, start, slot, p).len() == loop_body_len(body, p, slot),
        forall|lo: int, hi: int|
            lo <= start && start + loop_body_len(body, p, slot) <= hi ==> #[trigger] jumps_within(loop_body_code(body, start, slot, p), lo, hi),
    decreases body, 1nat,
{
    let lo = start;
    let b = start + loop_body_len(body, p, slot);
    if is_guarded_loop(body) {
        lemma_guarded_body_code(body, start, slot, p);
        lemma_guard_ok(body, p);
        let cond = guard_cond(body);
        let rest = body.statements@.drop_first();
        let handler_at = guard_handler_at(body, start, slot, p);
        let end = guard_end(body, start, slot, p);
        let gctx = guard_ctx(body, start, slot, p);
        let body_at = start + expr_len(cond, p) + 1;
        assert(end <= b);
        if rest.len() > 0 {
            lemma_stmts_len_last(rest, p, slot);
        }
        assert(guard_continue_at(body, start, slot, p) <= handler_at);
        assert(ctx_bound(Some(gctx)) == end);
        lemma_expr_code(cond, start, p);
        lemma_stmts_code(rest, body_at, Some(gctx), p);
        let a = expr_code(cond, start, p) + seq![OpCode::JmpIfTrue(handler_at as usize)];
        let c = stmts_code(rest, body_at, Some(gctx), p) + seq![OpCode::Jmp(start as usize)];
        let e: Seq<OpCode> = match guard_value(body) {
            Some(v) => expr_code(v, handler_at, p) + store_slot(slot),
            None => Seq::empty(),
        };
        let f = seq![OpCode::Jmp(end as usize)] + load_slot(slot);
        lemma_jw_mono(expr_code(cond, start, p), lo, start + expr_len(cond, p), b);
        lemma_jw_one(OpCode::JmpIfTrue(handler_at as usize), lo, b);
        lemma_jw_cat(expr_code(cond, start, p), seq![OpCode::JmpIfTrue(handler_at as usize)], lo, b);
        lemma_jw_mono(stmts_code(rest, body_at, Some(gctx), p), lo, imax(body_at + stmts_len(rest, p, slot), end), b);
        lemma_jw_one(OpCode::Jmp(start as usize), lo, b);
        lemma_jw_cat(stmts_code(rest, body_at, Some(gctx), p), seq![OpCode::Jmp(start as usize)], lo, b);
        lemma_jw_slots(slot, lo, b);
        match guard_value(body) {
            Some(v) => {
                lemma_expr_code(v, handler_at, p);
                lemma_jw_mono(expr_code(v, handler_at, p), lo, handler_at + expr_len(v, p), b);
                lemma_jw_cat(expr_code(v, handler_at, p), store_slot(slot), lo, b);
            },
            None => {},
        }
        lemma_jw_one(OpCode::Jmp(end as usize), lo, b);
        lemma_jw_cat(seq![OpCode::Jmp(end as usize)], load_slot(slot), lo, b);
        lemma_jw_cat(a, c, lo, b);
        lemma_jw_cat(a + c, e, lo, b);
        lemma_jw_cat(a + c + e, f, lo, b);
    } else {
        let end = start + stmts_len(body.statements@, p, slot) + 1;
        let ctx = LoopInfo {
            start: start as usize,
            end: end as usize,
            break_slot: slot,
            continue_target: start as usize,
        };
        lemma_stmts_code(body.statements@, start, Some(ctx), p);
        let c1 = stmts_code(body.statements@, start, Some(ctx), p);
        lemma_jw_mono(c1, lo, imax(start + stmts_len(body.statements@, p, slot), ctx_bound(Some(ctx))), b);
        lemma_jw_one(OpCode::Jmp(start as usize), lo, b);
        lemma_jw_slots(slot, lo, b);
        lemma_jw_cat(c1, seq![OpCode::Jmp(start as usize)], lo, b);
        lemma_jw_cat(c1 + seq![OpCode::Jmp(start as usize)], load_slot(slot), lo, b);
    }
    lemma_jw_widen(loop_body_code(body, start, slot, p), start, start + loop_body_len(body, p, slot));
}

/// The code of a program has the length the emitter accounts for, and
/// every jump in it lands on one of its instructions or just after the last.
pub proof fn lemma_program_code(blocks: Seq<HirBlock>, at: int, p: HirAst)
    requires
        forall|k: int| 0 <= k < blocks.len() ==> stmts_ok(#[trigger] blocks[k].statements@, p, false),
        0 <= at,
        at + blocks_len(blocks, p) <= usize::MAX,
    ensures
        blocks_code(blocks, at, p).len() == blocks_len(blocks, p),
        forall|lo: int, hi: int|
            lo <= at && at + blocks_len(blocks, p) <= hi ==> #[trigger] jumps_within(blocks_code(blocks, at, p), lo, hi),
    decreases blocks.len(),
{
    let lo = at;
    if blocks.len() > 0 {
        let b = at + blocks_len(blocks, p);
        let ss = blocks[0].statements@;
        assert(stmts_ok(ss, p, false));
        assert forall|k: int| 0 <= k < blocks.drop_first().len() implies stmts_ok(
            #[trigger] blocks.drop_first()[k].statements@,
            p,
            false,
        ) by {
            assert(blocks.drop_first()[k] == blocks[k + 1]);
        }
        lemma_stmts_code(ss, at, None, p);
        lemma_program_code(blocks.drop_first(), at + stmts_len(ss, p, None), p);
        lemma_jw_mono(stmts_code(ss, at, None, p), lo, imax(at + stmts_len(ss, p, None), 0), b);
        lemma_jw_cat(stmts_code(ss, at, None, p), blocks_code(blocks.drop_first(), at + stmts_len(ss, p, None), p), lo, b);
    }
    lemma_jw_widen(blocks_code(blocks, at, p), at, at + blocks_len(blocks, p));
}

} // verus!
