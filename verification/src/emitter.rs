//! The bytecode emitter: compiles the HIR into stack machine instructions.
//!
//! Every emitting function appends the code that `emit_spec` gives for its
//! node, placed where the node's code starts. Loops know where they end
//! before their bodies are emitted, so `break` and `continue` jump to their
//! final targets directly.
use vstd::prelude::*;
use vstd::string::StrSliceExecFns;
use crate::ast::{BinaryOp, UnaryOp};
use crate::hir::{
    HirAst, HirBlock, HirExpression, HirStmt, HirVar, ValueKind, ReducerType, function_index,
    var_index, constant_index, struct_index, name_index, import_lookup, find_function, find_var,
    find_constant, find_struct, find_name, lookup_import, str_equal,
};
use crate::opcode::OpCode;
use crate::emit_laws::{jumps_within, lemma_program_code};
use crate::chars::{is_white_space, trim_start, trim_end, is_white_space_char};
use crate::emit_spec::{
    MATCH_SLOT, ACC_SLOT, ELEM_SLOT, ITER_SLOT, HAS_MORE_SLOT, NONE_SENTINEL, ONE_BITS,
    ZERO_BITS, LoopInfo, slot_of, slot_count, load_slot, store_slot, first_scope_var,
    is_static_number, ascii_lower_code, unknown_text,
    is_unknown_text, arrow_at, returns_nothing, returns_unknown, thunk_var_returns_nothing,
    is_void, import_resolution, scopes_resolution, resolved_function, last_field_index,
    field_position, fold_function, reduce_function, bound_mask, hole_count, binary_op_code,
    is_comparison, is_guarded_loop, expr_len, exprs_len, bound_len, inits_len, field_values_len,
    pattern_len, tests_as_pattern, case_test_len, case_header_len, stmt_len, stmts_len, loop_body_len,
    arms_len, cases_len, sum_code, reduce_code, expr_code, exprs_code, bound_code, inits_code,
    field_values_code, pattern_code, case_test_code, stmt_code, stmts_code, loop_body_code, arms_code,
    case_code, cases_code, blocks_code, blocks_len, fold_function_ok, reduce_function_ok, inits_ok, arms_ok, cases_ok, expr_ok,
    exprs_ok, pattern_ok, case_test_ok, stmt_ok, stmts_ok
};

verus! {

broadcast use vstd::std_specs::vec::axiom_vec_index_decreases;

// ---------------------------------------------------------------------------
// Static facts about expressions
// ---------------------------------------------------------------------------

/// The code of `c` with ASCII upper case letters made lower case.
fn ascii_lower(c: char) -> (r: u32)
    ensures
        r == ascii_lower_code(c),
{
    if 'A' <= c && c <= 'Z' {
        c as u32 + 32
    } else {
        c as u32
    }
}

/// The `i`th character of `unknown`.
fn unknown_char(i: usize) -> (c: char)
    requires
        i < 7,
    ensures
        c == unknown_text()[i as int],
{
    match i {
        0 => 'u',
        1 => 'n',
        2 => 'k',
        3 => 'n',
        4 => 'o',
        5 => 'w',
        _ => 'n',
    }
}

/// Whether a thunk type `param ~> return` returns nothing: the text after its
/// first arrow, trimmed, reads `unknown` in any ASCII case.
fn thunk_returns_nothing(t: &str) -> (r: bool)
    ensures
        r == returns_nothing(t@),
{
    let n = t.unicode_len();
    let mut i: usize = 0;
    let mut found = false;
    while !found && n > 0 && i < n - 1
        invariant
            n == t@.len(),
            0 <= i <= n,
            found ==> arrow_at(t@, i as int),
            forall|j: int| 0 <= j < i ==> !arrow_at(t@, j),
        decreases n - i, if found { 0int } else { 1int },
    {
        if t.get_char(i) == '~' && t.get_char(i + 1) == '>' {
            found = true;
        } else {
            i += 1;
        }
    }
    if !found {
        assert forall|j: int| !arrow_at(t@, j) by {
            if 0 <= j < i {
            }
        }
        return false;
    }
    assert forall|j: int| arrow_at(t@, j) && (forall|q: int| 0 <= q < j ==> !arrow_at(t@, q)) implies j
        == i by {
        if j > i {
            assert(!arrow_at(t@, i as int));
        }
    }
    let ghost rest = t@.subrange(i + 2, n as int);
    let mut a: usize = i + 2;
    while a < n && is_white_space_char(t.get_char(a))
        invariant
            n == t@.len(),
            i + 2 <= a <= n,
            trim_start(rest) == trim_start(t@.subrange(a as int, n as int)),
        decreases n - a,
    {
        assert(t@.subrange(a as int, n as int).drop_first() =~= t@.subrange(a + 1, n as int));
        a += 1;
    }
    assert(trim_start(rest) == t@.subrange(a as int, n as int));
    let mut b: usize = n;
    while b > a && is_white_space_char(t.get_char(b - 1))
        invariant
            n == t@.len(),
            a <= b <= n,
            trim_end(trim_start(rest)) == trim_end(t@.subrange(a as int, b as int)),
        decreases b,
    {
        assert(t@.subrange(a as int, b as int).drop_last() =~= t@.subrange(a as int, b - 1));
        b -= 1;
    }
    let ghost trimmed = t@.subrange(a as int, b as int);
    assert(trim_end(trim_start(rest)) == trimmed);
    if b - a != 7 {
        return false;
    }
    let mut k: usize = 0;
    while k < 7
        invariant
            n == t@.len(),
            a <= b <= n,
            b - a == 7,
            trimmed == t@.subrange(a as int, b as int),
            trim_end(trim_start(t@.subrange(i + 2, n as int))) == trimmed,
            forall|j: int| arrow_at(t@, j) && (forall|q: int| 0 <= q < j ==> !arrow_at(t@, q)) ==> j
                == i,
            0 <= k <= 7,
            forall|q: int| 0 <= q < k ==> ascii_lower_code(#[trigger] trimmed[q]) == unknown_text()[q] as u32,
        decreases 7 - k,
    {
        if ascii_lower(t.get_char(a + k)) != unknown_char(k) as u32 {
            assert(!is_unknown_text(trimmed)) by {
                assert(trimmed[k as int] == t@[a + k]);
            }
            return false;
        }
        assert(trimmed[k as int] == t@[a + k]);
        k += 1;
    }
    assert(is_unknown_text(trimmed));
    assert(arrow_at(t@, i as int));
    true
}

/// Whether function `fid` is known and returns nothing.
fn function_returns_unknown(program: &HirAst, fid: u32) -> (r: bool)
    ensures
        r == returns_unknown(*program, fid),
{
    match find_function(&program.functions, fid) {
        Some(k) => matches!(program.functions[k].return_type, ValueKind::Unknown),
        None => false,
    }
}

/// Whether some scope's first variable with id `v` holds a thunk that
/// returns nothing.
fn thunk_var_is_void(program: &HirAst, v: u32) -> (r: bool)
    ensures
        r == thunk_var_returns_nothing(*program, v),
{
    let n = program.scopes.len();
    let mut s: usize = 0;
    while s < n
        invariant
            n == program.scopes@.len(),
            0 <= s <= n,
            forall|q: int|
                0 <= q < s ==> !match #[trigger] var_index(program.scopes@[q]@, v) {
                    Some(k) => program.scopes@[q]@[k].kind matches ValueKind::Thunk(t) && returns_nothing(
                        t@,
                    ),
                    None => false,
                },
        decreases n - s,
    {
        match find_var(&program.scopes[s], v) {
            Some(k) => {
                if let ValueKind::Thunk(t) = &program.scopes[s][k].kind {
                    if thunk_returns_nothing(t.as_str()) {
                        assert(var_index(program.scopes@[s as int]@, v) == Some(k as int));
                        return true;
                    }
                }
            },
            None => {},
        }
        s += 1;
    }
    false
}

/// The first scope that declares variable `id`, with the variable's place in it.
fn find_scope_var(scopes: &Vec<Vec<HirVar>>, id: u32) -> (r: Option<(usize, usize)>)
    ensures
        match r {
            Some(sk) => first_scope_var(scopes@, id) == Some((sk.0 as int, sk.1 as int)) && sk.0 < scopes@.len()
                && sk.1 < scopes@[sk.0 as int]@.len(),
            None => first_scope_var(scopes@, id) is None,
        },
{
    let n = scopes.len();
    let mut s: usize = 0;
    while s < n
        invariant
            n == scopes@.len(),
            0 <= s <= n,
            first_scope_var(scopes@.subrange(0, s as int), id) is None,
        decreases n - s,
    {
        assert(scopes@.subrange(0, s + 1).drop_last() =~= scopes@.subrange(0, s as int));
        match find_var(&scopes[s], id) {
            Some(k) => {
                proof { lemma_first_scope_var_prefix(scopes@, id, s + 1); }
                return Some((s, k));
            },
            None => {},
        }
        s += 1;
    }
    assert(scopes@.subrange(0, n as int) =~= scopes@);
    None
}

/// A first match in a prefix is the first match in the whole sequence.
proof fn lemma_first_scope_var_prefix(scopes: Seq<Vec<HirVar>>, id: u32, k: int)
    requires
        0 <= k <= scopes.len(),
        first_scope_var(scopes.subrange(0, k), id) is Some,
    ensures
        first_scope_var(scopes, id) == first_scope_var(scopes.subrange(0, k), id),
    decreases scopes.len() - k,
{
    if k < scopes.len() {
        assert(scopes.subrange(0, k + 1).drop_last() =~= scopes.subrange(0, k));
        lemma_first_scope_var_prefix(scopes, id, k + 1);
    } else {
        assert(scopes.subrange(0, k) =~= scopes);
    }
}

/// The function imported under `name` by the first module that imports a
/// known function under that name.
fn resolve_import(program: &HirAst, name: &str) -> (r: Option<u32>)
    ensures
        r == import_resolution(program.module_imports@, *program, name@),
{
    let mods = &program.module_imports;
    let n = mods.len();
    let mut i: usize = 0;
    assert(mods@.subrange(0, n as int) =~= mods@);
    while i < n
        invariant
            n == mods@.len(),
            mods == &program.module_imports,
            0 <= i <= n,
            import_resolution(mods@, *program, name@) == import_resolution(
                mods@.subrange(i as int, n as int),
                *program,
                name@,
            ),
        decreases n - i,
    {
        assert(mods@.subrange(i as int, n as int).drop_first() =~= mods@.subrange(i + 1, n as int));
        match lookup_import(&mods[i].1, name) {
            Some(f) => {
                if find_function(&program.functions, f).is_some() {
                    return Some(f);
                }
            },
            None => {},
        }
        i += 1;
    }
    None
}

// ---------------------------------------------------------------------------
// The emitter
// ---------------------------------------------------------------------------

/// Compiles HIR to instructions. It keeps the loops it is inside of, the
/// innermost last.
pub struct ByteCodeEmitter {
    loop_stack: Vec<LoopInfo>,
}

impl ByteCodeEmitter {
    /// The innermost loop the emitter is inside of.
    pub closed spec fn current_loop(&self) -> Option<LoopInfo> {
        if self.loop_stack@.len() == 0 {
            None
        } else {
            Some(self.loop_stack@.last())
        }
    }

    /// The emitter is inside no loop.
    pub closed spec fn idle(&self) -> bool {
        self.loop_stack@.len() == 0
    }

    /// An emitter inside no loop.
    pub fn new() -> (e: Self)
        ensures
            e.idle(),
            e.current_loop() is None,
    {
        ByteCodeEmitter { loop_stack: Vec::new() }
    }

    /// Whether the expression leaves no value on the stack: an invoked call of
    /// a function that returns nothing, or an invocation of such a function or
    /// of a variable holding a thunk that returns nothing.
    pub fn is_void_expression(&self, expr: &HirExpression, program: &HirAst) -> (r: bool)
        ensures
            r == is_void(*expr, *program),
    {
        match expr {
            HirExpression::FunctionCall { function_id, invoke, .. } => {
                if *invoke {
                    function_returns_unknown(program, *function_id)
                } else {
                    false
                }
            },
            HirExpression::PostfixInvoke { operand, .. } => match &**operand {
                HirExpression::FunctionCall { function_id, .. } => function_returns_unknown(
                    program,
                    *function_id,
                ),
                HirExpression::Identifier(v) => thunk_var_is_void(program, *v),
                _ => false,
            },
            _ => false,
        }
    }

    /// Whether the expression is known to produce a number: a number literal,
    /// a variable or constant of number kind, or arithmetic on such operands.
    pub fn is_statically_number(&self, expr: &HirExpression, program: &HirAst) -> (r: bool)
        ensures
            r == is_static_number(*expr, *program),
        decreases expr,
    {
        match expr {
            HirExpression::Number(_) => true,
            HirExpression::Identifier(v) => match find_scope_var(&program.scopes, *v) {
                Some(sk) => matches!(program.scopes[sk.0][sk.1].kind, ValueKind::Number),
                None => false,
            },
            HirExpression::Constant(c) => match find_constant(&program.constants, *c) {
                Some(k) => matches!(program.constants[k].kind, ValueKind::Number),
                None => false,
            },
            HirExpression::Binary { lhs, rhs, operator } => match operator {
                BinaryOp::Add | BinaryOp::Sub | BinaryOp::Mul | BinaryOp::Div | BinaryOp::Pow => {
                    self.is_statically_number(lhs, program) && self.is_statically_number(rhs, program)
                },
                _ => false,
            },
            _ => false,
        }
    }

    /// The imported function that variable `var_id` names: the variable is
    /// looked up scope by scope and its name among the module imports.
    pub fn resolve_identifier_to_function_id(&self, var_id: u32, program: &HirAst) -> (r: Option<
        u32,
    >)
        ensures
            r == resolved_function(*program, var_id),
    {
        let scopes = &program.scopes;
        let n = scopes.len();
        let mut s: usize = 0;
        assert(scopes@.subrange(0, n as int) =~= scopes@);
        while s < n
            invariant
                n == scopes@.len(),
                scopes == &program.scopes,
                0 <= s <= n,
                resolved_function(*program, var_id) == scopes_resolution(
                    scopes@.subrange(s as int, n as int),
                    *program,
                    var_id,
                ),
            decreases n - s,
        {
            assert(scopes@.subrange(s as int, n as int).drop_first() =~= scopes@.subrange(
                s + 1,
                n as int,
            ));
            match find_var(&scopes[s], var_id) {
                Some(k) => match resolve_import(program, scopes[s][k].name.as_str()) {
                    Some(f) => {
                        return Some(f);
                    },
                    None => {},
                },
                None => {},
            }
            s += 1;
        }
        None
    }
}

// ---------------------------------------------------------------------------
// Lookups the emitter needs
// ---------------------------------------------------------------------------

/// The index of the last field initialiser named `name`.
fn find_last_field(fields: &Vec<(String, HirExpression)>, name: &str) -> (r: Option<usize>)
    ensures
        match r {
            Some(j) => last_field_index(fields@, name@) == Some(j as int) && j < fields@.len(),
            None => last_field_index(fields@, name@) is None,
        },
{
    let mut k: usize = fields.len();
    assert(fields@.subrange(0, k as int) =~= fields@);
    while k > 0
        invariant
            0 <= k <= fields@.len(),
            last_field_index(fields@, name@) == last_field_index(fields@.subrange(0, k as int), name@),
        decreases k,
    {
        assert(fields@.subrange(0, k as int).drop_last() =~= fields@.subrange(0, k - 1));
        if str_equal(fields[k - 1].0.as_str(), name) {
            return Some(k - 1);
        }
        k -= 1;
    }
    None
}

/// The index of field `name` in the first struct that has such a field.
fn find_field_position(program: &HirAst, name: &str) -> (r: Option<usize>)
    ensures
        match r {
            Some(i) => field_position(program.structs@, name@) == Some(i as int),
            None => field_position(program.structs@, name@) is None,
        },
{
    let structs = &program.structs;
    let n = structs.len();
    let mut k: usize = 0;
    assert(structs@.subrange(0, n as int) =~= structs@);
    while k < n
        invariant
            n == structs@.len(),
            structs == &program.structs,
            0 <= k <= n,
            field_position(structs@, name@) == field_position(structs@.subrange(k as int, n as int), name@),
        decreases n - k,
    {
        assert(structs@.subrange(k as int, n as int).drop_first() =~= structs@.subrange(k + 1, n as int));
        match find_name(&structs[k].fields, name) {
            Some(i) => {
                return Some(i);
            },
            None => {},
        }
        k += 1;
    }
    None
}

/// The condition and the `break` value of a loop body that starts with
/// `if (cond) { break [value]; }`, when it does.
fn loop_guard(body: &HirBlock) -> (r: Option<(&HirExpression, &Option<HirExpression>)>)
    ensures
        r is Some <==> is_guarded_loop(*body),
        r matches Some(cv) ==> *cv.0 == guard_cond(*body) && *cv.1 == guard_value(*body),
{
    if body.statements.len() == 0 {
        return None;
    }
    match &body.statements[0] {
        HirStmt::If { arms, else_block } => {
            if arms.len() == 1 && else_block.statements.len() == 0 && arms[0].1.statements.len() == 1 {
                match &arms[0].1.statements[0] {
                    HirStmt::Break { value } => Some((&arms[0].0, value)),
                    _ => None,
                }
            } else {
                None
            }
        },
        _ => None,
    }
}

// ---------------------------------------------------------------------------
// Code lengths
// ---------------------------------------------------------------------------

impl ByteCodeEmitter {
    /// The number of instructions an expression compiles to.
    fn expr_length(&self, e: &HirExpression, program: &HirAst) -> (n: usize)
        requires
            expr_len(*e, *program) <= usize::MAX,
        ensures
            n == expr_len(*e, *program),
        decreases e, 0nat,
    {
        match e {
            HirExpression::Number(_) => 1,
            HirExpression::String(_) => 1,
            HirExpression::Boolean(_) => 1,
            HirExpression::Identifier(_) => 1,
            HirExpression::Constant(_) => 1,
            HirExpression::Closure { .. } => 1,
            HirExpression::Binary { lhs, rhs, .. } => {
                self.expr_length(lhs, program) + self.expr_length(rhs, program) + 1
            },
            HirExpression::Unary { operand, .. } => self.expr_length(operand, program) + 1,
            HirExpression::FunctionCall { args, invoke, .. } => {
                self.exprs_length(args, program) + 2 + if *invoke {
                    1
                } else {
                    0
                }
            },
            HirExpression::PartialCall { bound, .. } => self.bound_length(bound, program) + 1,
            HirExpression::PostfixInvoke { operand, args } => match args {
                Some(list) => self.exprs_length(list, program) + self.expr_length(operand, program)
                    + 2,
                None => match &**operand {
                    HirExpression::PostfixInvoke { operand: inner, args: Some(inner_list) } => {
                        self.exprs_length(inner_list, program) + self.expr_length(inner, program) + 2
                            + if matches!(**inner, HirExpression::Identifier(_)) {
                            0
                        } else {
                            1
                        }
                    },
                    HirExpression::PartialCall { .. } => self.expr_length(operand, program),
                    HirExpression::FunctionCall { invoke, .. } => {
                        self.expr_length(operand, program) + if *invoke {
                            0
                        } else {
                            1
                        }
                    },
                    _ => self.expr_length(operand, program) + 1,
                },
            },
            HirExpression::ComposeThunk { first, second } => {
                self.expr_length(second, program) + self.expr_length(first, program) + 1
            },
            HirExpression::Loop { init_vars, body, break_slot } => {
                assert(body.statements@.subrange(0, body.statements@.len() as int) =~= body.statements@);
                self.inits_length(init_vars, program) + self.stmts_length(
                    &body.statements,
                    0,
                    body.statements.len(),
                    program,
                    *break_slot,
                ) + 1 + if break_slot.is_some() {
                    1
                } else {
                    0
                }
            },
            HirExpression::Array(es) => self.exprs_length(es, program) + 1,
            HirExpression::ArrayIndex { array, index } => {
                self.expr_length(array, program) + self.expr_length(index, program) + 1
            },
            HirExpression::ArraySlice { array, start, end, step, .. } => {
                let a = self.expr_length(array, program);
                let s = match start {
                    Some(b) => self.expr_length(b, program),
                    None => 1,
                };
                let t = match end {
                    Some(b) => self.expr_length(b, program),
                    None => 1,
                };
                let u = match step {
                    Some(b) => self.expr_length(b, program),
                    None => 1,
                };
                a + s + t + u + 2
            },
            HirExpression::Reducer { array, reducer_type, reducer_args } => {
                let a = self.expr_length(array, program) + if matches!(
                    **array,
                    HirExpression::ComposeThunk { .. }
                ) {
                    1
                } else {
                    0
                };
                let r = match reducer_type {
                    ReducerType::Mapping | ReducerType::Filter => {
                        (if reducer_args.len() == 1 {
                            if matches!(reducer_args[0], HirExpression::Closure { .. }) {
                                1
                            } else {
                                self.expr_length(&reducer_args[0], program)
                            }
                        } else {
                            0
                        }) + 1
                    },
                    ReducerType::Fold => {
                        (if reducer_args.len() >= 1 {
                            self.expr_length(&reducer_args[0], program)
                        } else {
                            0
                        }) + 2
                    },
                    ReducerType::Sum => 16,
                    ReducerType::Reduce => 22,
                };
                a + r
            },
            HirExpression::StructInit { struct_name, fields } => match find_struct(
                &program.structs,
                struct_name.as_str(),
            ) {
                Some(k) => self.field_values_length(&program.structs[k].fields, fields, program) + 1,
                None => 1,
            },
            HirExpression::FieldAccess { base, .. } => self.expr_length(base, program) + 1,
        }
    }

    /// The number of instructions a list of expressions compiles to.
    fn exprs_length(&self, es: &Vec<HirExpression>, program: &HirAst) -> (n: usize)
        requires
            exprs_len(es@, *program) <= usize::MAX,
        ensures
            n == exprs_len(es@, *program),
        decreases es@, 0nat,
    {
        let m = es.len();
        let mut total: usize = 0;
        let mut i: usize = 0;
        assert(es@.subrange(0, m as int) =~= es@);
        while i < m
            invariant
                m == es@.len(),
                0 <= i <= m,
                total + exprs_len(es@.subrange(i as int, m as int), *program) == exprs_len(
                    es@,
                    *program,
                ),
                exprs_len(es@, *program) <= usize::MAX,
            decreases m - i,
        {
            assert(es@.subrange(i as int, m as int).drop_first() =~= es@.subrange(i + 1, m as int));
            assert(es@.subrange(i as int, m as int)[0] == es@[i as int]);
            total = total + self.expr_length(&es[i], program);
            i += 1;
        }
        total
    }

    /// The number of instructions the bound arguments of a partial call compile to.
    fn bound_length(&self, bound: &Vec<Option<HirExpression>>, program: &HirAst) -> (n: usize)
        requires
            bound_len(bound@, *program) <= usize::MAX,
        ensures
            n == bound_len(bound@, *program),
        decreases bound@, 0nat,
    {
        let mut total: usize = 0;
        let mut k: usize = 0;
        let m = bound.len();
        while k < m
            invariant
                m == bound@.len(),
                0 <= k <= m,
                total == bound_len(bound@.subrange(0, k as int), *program),
                bound_len(bound@, *program) <= usize::MAX,
            decreases m - k,
        {
            assert(bound@.subrange(0, k + 1).drop_last() =~= bound@.subrange(0, k as int));
            proof { lemma_bound_len_prefix(bound@, *program, k + 1); }
            match &bound[k] {
                Some(e) => {
                    total = total + self.expr_length(e, program);
                },
                None => {},
            }
            k += 1;
        }
        assert(bound@.subrange(0, m as int) =~= bound@);
        total
    }

    /// The number of instructions loop variable initialisations compile to.
    fn inits_length(&self, inits: &Vec<(u32, HirExpression)>, program: &HirAst) -> (n: usize)
        requires
            inits_len(inits@, *program) <= usize::MAX,
        ensures
            n == inits_len(inits@, *program),
        decreases inits@, 0nat,
    {
        let m = inits.len();
        let mut total: usize = 0;
        let mut i: usize = 0;
        assert(inits@.subrange(0, m as int) =~= inits@);
        while i < m
            invariant
                m == inits@.len(),
                0 <= i <= m,
                total + inits_len(inits@.subrange(i as int, m as int), *program) == inits_len(
                    inits@,
                    *program,
                ),
                inits_len(inits@, *program) <= usize::MAX,
            decreases m - i,
        {
            assert(inits@.subrange(i as int, m as int).drop_first() =~= inits@.subrange(
                i + 1,
                m as int,
            ));
            assert(inits@.subrange(i as int, m as int)[0] == inits@[i as int]);
            total = total + self.expr_length(&inits[i].1, program) + 1;
            i += 1;
        }
        total
    }

    /// The number of instructions a struct literal's field values compile to.
    fn field_values_length(
        &self,
        names: &Vec<String>,
        fields: &Vec<(String, HirExpression)>,
        program: &HirAst,
    ) -> (n: usize)
        requires
            field_values_len(names@, fields@, *program) <= usize::MAX,
        ensures
            n == field_values_len(names@, fields@, *program),
        decreases fields@, names@.len(),
    {
        let m = names.len();
        let mut total: usize = 0;
        let mut i: usize = 0;
        assert(names@.subrange(0, m as int) =~= names@);
        while i < m
            invariant
                m == names@.len(),
                0 <= i <= m,
                total + field_values_len(names@.subrange(i as int, m as int), fields@, *program)
                    == field_values_len(names@, fields@, *program),
                field_values_len(names@, fields@, *program) <= usize::MAX,
            decreases m - i,
        {
            assert(names@.subrange(i as int, m as int).drop_first() =~= names@.subrange(
                i + 1,
                m as int,
            ));
            assert(names@.subrange(i as int, m as int)[0] == names@[i as int]);
            match find_last_field(fields, names[i].as_str()) {
                Some(j) => {
                    total = total + self.expr_length(&fields[j].1, program);
                },
                None => {},
            }
            i += 1;
        }
        total
    }

    /// The number of instructions a `match` pattern test compiles to.
    fn pattern_length(&self, pat: &HirExpression, program: &HirAst) -> (n: usize)
        requires
            pattern_len(*pat, *program) <= usize::MAX,
        ensures
            n == pattern_len(*pat, *program),
        decreases pat, 1nat,
    {
        match pat {
            HirExpression::Binary { lhs, rhs, operator } => match operator {
                BinaryOp::Eq | BinaryOp::Ne | BinaryOp::Gt | BinaryOp::Lt | BinaryOp::Ge
                | BinaryOp::Le => self.expr_length(rhs, program) + 1,
                BinaryOp::And | BinaryOp::Or => {
                    self.pattern_length(lhs, program) + 1 + self.pattern_length(rhs, program) + 1
                },
                _ => self.expr_length(pat, program),
            },
            _ => self.expr_length(pat, program),
        }
    }

    /// The number of instructions that test a case's pattern.
    fn case_test_length(&self, pat: &HirExpression, program: &HirAst) -> (n: usize)
        requires
            case_test_len(*pat, *program) <= usize::MAX,
        ensures
            n == case_test_len(*pat, *program),
        decreases pat, 2nat,
    {
        if is_pattern_test(pat) {
            self.pattern_length(pat, program)
        } else {
            self.expr_length(pat, program) + 1
        }
    }

    /// The number of instructions statements `from..to` of a list compile to,
    /// inside a loop whose break slot is `slot`.
    fn stmts_length(
        &self,
        ss: &Vec<HirStmt>,
        from: usize,
        to: usize,
        program: &HirAst,
        slot: Option<u32>,
    ) -> (n: usize)
        requires
            from <= to <= ss@.len(),
            stmts_len(ss@.subrange(from as int, to as int), *program, slot) <= usize::MAX,
        ensures
            n == stmts_len(ss@.subrange(from as int, to as int), *program, slot),
        decreases ss@, 0nat,
    {
        let mut total: usize = 0;
        let mut i: usize = from;
        while i < to
            invariant
                from <= i <= to <= ss@.len(),
                total + stmts_len(ss@.subrange(i as int, to as int), *program, slot) == stmts_len(
                    ss@.subrange(from as int, to as int),
                    *program,
                    slot,
                ),
                stmts_len(ss@.subrange(from as int, to as int), *program, slot) <= usize::MAX,
            decreases to - i,
        {
            assert(ss@.subrange(i as int, to as int).drop_first() =~= ss@.subrange(i + 1, to as int));
            assert(ss@.subrange(i as int, to as int)[0] == ss@[i as int]);
            total = total + self.stmt_length(&ss[i], program, slot);
            i += 1;
        }
        total
    }

    /// The number of instructions a statement compiles to, inside a loop
    /// whose break slot is `slot`.
    fn stmt_length(&self, s: &HirStmt, program: &HirAst, slot: Option<u32>) -> (n: usize)
        requires
            stmt_len(*s, *program, slot) <= usize::MAX,
        ensures
            n == stmt_len(*s, *program, slot),
        decreases s, 0nat,
    {
        match s {
            HirStmt::Assign { value, .. } => self.expr_length(value, program) + 1,
            HirStmt::AssignIncrement { value, .. } => self.expr_length(value, program) + 3,
            HirStmt::AssignDecrement { value, .. } => self.expr_length(value, program) + 3,
            HirStmt::If { arms, else_block } => {
                assert(else_block.statements@.subrange(0, else_block.statements@.len() as int)
                    =~= else_block.statements@);
                self.arms_length(arms, program, slot) + self.stmts_length(
                    &else_block.statements,
                    0,
                    else_block.statements.len(),
                    program,
                    slot,
                )
            },
            HirStmt::Match { expression, cases } => {
                self.expr_length(expression, program) + 1 + self.cases_length(cases, program, slot)
            },
            HirStmt::Return { value } => match value {
                HirExpression::FunctionCall { args, invoke, .. } => {
                    if *invoke {
                        self.exprs_length(args, program) + 3
                    } else {
                        self.expr_length(value, program) + 1
                    }
                },
                _ => self.expr_length(value, program) + 1,
            },
            HirStmt::Loop { init_vars, body, break_slot } => {
                let inits = self.inits_length(init_vars, program);
                let extra: usize = if break_slot.is_some() {
                    1
                } else {
                    0
                };
                let n = body.statements.len();
                assert(body.statements@.subrange(0, n as int) =~= body.statements@);
                assert(body.statements@.subrange(1, n as int) =~= body.statements@.drop_first());
                match loop_guard(body) {
                    Some((cond, value)) => {
                        let handler = match value {
                            Some(v) => self.expr_length(v, program) + extra,
                            None => 0,
                        };
                        inits + self.expr_length(cond, program) + 1 + self.stmts_length(
                            &body.statements,
                            1,
                            n,
                            program,
                            *break_slot,
                        ) + 1 + handler + 1 + extra
                    },
                    None => {
                        inits + self.stmts_length(&body.statements, 0, n, program, *break_slot) + 1
                            + extra
                    },
                }
            },
            HirStmt::Break { value } => match value {
                Some(v) => self.expr_length(v, program) + if slot.is_some() {
                    1
                } else {
                    0
                } + 1,
                None => 1,
            },
            HirStmt::Continue => 1,
            HirStmt::Expression(e) => {
                if let HirExpression::Constant(0) = e {
                    0
                } else {
                    self.expr_length(e, program) + if self.is_void_expression(e, program) {
                        0
                    } else {
                        1
                    }
                }
            },
            HirStmt::Nop => 0,
        }
    }

    /// The number of instructions the arms of an `if` compile to.
    fn arms_length(
        &self,
        arms: &Vec<(HirExpression, HirBlock)>,
        program: &HirAst,
        slot: Option<u32>,
    ) -> (n: usize)
        requires
            arms_len(arms@, *program, slot) <= usize::MAX,
        ensures
            n == arms_len(arms@, *program, slot),
        decreases arms@, 0nat,
    {
        let m = arms.len();
        let mut total: usize = 0;
        let mut i: usize = 0;
        assert(arms@.subrange(0, m as int) =~= arms@);
        while i < m
            invariant
                m == arms@.len(),
                0 <= i <= m,
                total + arms_len(arms@.subrange(i as int, m as int), *program, slot) == arms_len(
                    arms@,
                    *program,
                    slot,
                ),
                arms_len(arms@, *program, slot) <= usize::MAX,
            decreases m - i,
        {
            assert(arms@.subrange(i as int, m as int).drop_first() =~= arms@.subrange(i + 1, m as int));
            assert(arms@.subrange(i as int, m as int)[0] == arms@[i as int]);
            let stmts = &arms[i].1.statements;
            assert(stmts@.subrange(0, stmts@.len() as int) =~= stmts@);
            total = total + self.expr_length(&arms[i].0, program) + 1 + self.stmts_length(
                stmts,
                0,
                stmts.len(),
                program,
                slot,
            ) + 1;
            i += 1;
        }
        total
    }

    /// The number of instructions the cases of a `match` compile to.
    fn cases_length(
        &self,
        cases: &Vec<(Option<HirExpression>, HirBlock)>,
        program: &HirAst,
        slot: Option<u32>,
    ) -> (n: usize)
        requires
            cases_len(cases@, *program, slot) <= usize::MAX,
        ensures
            n == cases_len(cases@, *program, slot),
        decreases cases@, 0nat,
    {
        let m = cases.len();
        let mut total: usize = 0;
        let mut i: usize = 0;
        assert(cases@.subrange(0, m as int) =~= cases@);
        while i < m
            invariant
                m == cases@.len(),
                0 <= i <= m,
                total + cases_len(cases@.subrange(i as int, m as int), *program, slot) == cases_len(
                    cases@,
                    *program,
                    slot,
                ),
                cases_len(cases@, *program, slot) <= usize::MAX,
            decreases m - i,
        {
            assert(cases@.subrange(i as int, m as int).drop_first() =~= cases@.subrange(
                i + 1,
                m as int,
            ));
            assert(cases@.subrange(i as int, m as int)[0] == cases@[i as int]);
            let stmts = &cases[i].1.statements;
            assert(stmts@.subrange(0, stmts@.len() as int) =~= stmts@);
            assert(cases_len(cases@.subrange(i as int, m as int), *program, slot) == case_header_len(
                cases@[i as int].0,
                *program,
            ) + stmts_len(cases@[i as int].1.statements@, *program, slot) + 1 + cases_len(
                cases@.subrange(i + 1, m as int),
                *program,
                slot,
            ));
            let header = match &cases[i].0 {
                Some(pat) => {
                    assert(cases@[i as int].0 == Some(*pat));
                    self.case_test_length(pat, program) + 2
                },
                None => 0,
            };
            total = total + header + self.stmts_length(stmts, 0, stmts.len(), program, slot) + 1;
            i += 1;
        }
        total
    }
}

/// A case's pattern is tested as a pattern rather than by equality.
fn is_pattern_test(pat: &HirExpression) -> (r: bool)
    ensures
        r == tests_as_pattern(*pat),
{
    match pat {
        HirExpression::Binary { operator, .. } => match operator {
            BinaryOp::Eq | BinaryOp::Ne | BinaryOp::Gt | BinaryOp::Lt | BinaryOp::Ge | BinaryOp::Le
            | BinaryOp::And | BinaryOp::Or => true,
            _ => false,
        },
        _ => false,
    }
}

/// The length of a prefix one longer adds the last argument's length.
proof fn lemma_bound_len_prefix(bound: Seq<Option<HirExpression>>, p: HirAst, k: int)
    requires
        0 < k <= bound.len(),
    ensures
        bound_len(bound.subrange(0, k), p) == bound_len(bound.subrange(0, k - 1), p) + match bound[k
            - 1] {
            Some(e) => expr_len(e, p),
            None => 0,
        },
        bound_len(bound.subrange(0, k), p) <= bound_len(bound, p),
    decreases bound.len() - k,
{
    assert(bound.subrange(0, k).drop_last() =~= bound.subrange(0, k - 1));
    if k < bound.len() {
        lemma_bound_len_prefix(bound, p, k + 1);
    } else {
        assert(bound.subrange(0, k) =~= bound);
    }
}

// ---------------------------------------------------------------------------
// Emission
// ---------------------------------------------------------------------------

/// `new_ops` is `old_ops` followed by the code of `e`, which has the length
/// `expr_len` gives.
pub open spec fn emitted_expr(old_ops: Seq<OpCode>, new_ops: Seq<OpCode>, e: HirExpression, p: HirAst) -> bool {
    &&& new_ops == old_ops + expr_code(e, old_ops.len() as int, p)
    &&& expr_code(e, old_ops.len() as int, p).len() == expr_len(e, p)
}

/// `new_ops` is `old_ops` followed by the code of the expressions `es`.
pub open spec fn emitted_exprs(
    old_ops: Seq<OpCode>,
    new_ops: Seq<OpCode>,
    es: Seq<HirExpression>,
    p: HirAst,
) -> bool {
    &&& new_ops == old_ops + exprs_code(es, old_ops.len() as int, p)
    &&& exprs_code(es, old_ops.len() as int, p).len() == exprs_len(es, p)
}

/// `new_ops` is `old_ops` followed by the code of statement `s` inside loop `ctx`.
pub open spec fn emitted_stmt(
    old_ops: Seq<OpCode>,
    new_ops: Seq<OpCode>,
    s: HirStmt,
    ctx: Option<LoopInfo>,
    p: HirAst,
) -> bool {
    &&& new_ops == old_ops + stmt_code(s, old_ops.len() as int, ctx, p)
    &&& stmt_code(s, old_ops.len() as int, ctx, p).len() == stmt_len(s, p, slot_of(ctx))
}

/// `new_ops` is `old_ops` followed by the code of statements `ss` inside loop `ctx`.
pub open spec fn emitted_stmts(
    old_ops: Seq<OpCode>,
    new_ops: Seq<OpCode>,
    ss: Seq<HirStmt>,
    ctx: Option<LoopInfo>,
    p: HirAst,
) -> bool {
    &&& new_ops == old_ops + stmts_code(ss, old_ops.len() as int, ctx, p)
    &&& stmts_code(ss, old_ops.len() as int, ctx, p).len() == stmts_len(ss, p, slot_of(ctx))
}

/// The instruction of a binary operator.
fn binary_op(op: BinaryOp, numeric: bool) -> (r: OpCode)
    ensures
        r == binary_op_code(op, numeric),
{
    match op {
        BinaryOp::Add => if numeric { OpCode::AddNum } else { OpCode::Add },
        BinaryOp::Sub => if numeric { OpCode::SubNum } else { OpCode::Sub },
        BinaryOp::Mul => if numeric { OpCode::MulNum } else { OpCode::Mul },
        BinaryOp::Div => OpCode::Div,
        BinaryOp::Mod => OpCode::Mod,
        BinaryOp::Pow => OpCode::Pow,
        BinaryOp::Eq => OpCode::Eq,
        BinaryOp::Ne => OpCode::Ne,
        BinaryOp::Gt => OpCode::Gt,
        BinaryOp::Lt => OpCode::Lt,
        BinaryOp::Ge => OpCode::Ge,
        BinaryOp::Le => OpCode::Le,
        BinaryOp::And => OpCode::And,
        BinaryOp::Or => OpCode::Or,
    }
}

impl ByteCodeEmitter {
    /// Appends the code of an expression.
    fn emit_expression(&mut self, ops: &mut Vec<OpCode>, expr: &HirExpression, program: &HirAst)
        requires
            expr_ok(*expr, *program),
            old(ops)@.len() + expr_len(*expr, *program) <= usize::MAX,
        ensures
            emitted_expr(old(ops)@, final(ops)@, *expr, *program),
            final(self).loop_stack@ == old(self).loop_stack@,
        decreases expr, 1nat,
    {
        let ghost base = ops@.len() as int;
        match expr {
            HirExpression::Number(n) => {
                ops.push(OpCode::LdNum(*n));
                assert(ops@ =~= old(ops)@ + expr_code(*expr, base, *program));
            },
            HirExpression::String(s) => {
                ops.push(OpCode::LdStr(s.clone()));
                assert(ops@ =~= old(ops)@ + expr_code(*expr, base, *program));
            },
            HirExpression::Boolean(b) => {
                ops.push(OpCode::LdBool(*b));
                assert(ops@ =~= old(ops)@ + expr_code(*expr, base, *program));
            },
            HirExpression::Identifier(v) => {
                ops.push(OpCode::LdVar(*v));
                assert(ops@ =~= old(ops)@ + expr_code(*expr, base, *program));
            },
            HirExpression::Constant(c) => {
                ops.push(OpCode::LdConst(*c));
                assert(ops@ =~= old(ops)@ + expr_code(*expr, base, *program));
            },
            HirExpression::Closure { function_id } => {
                ops.push(OpCode::LdFunc(*function_id));
                assert(ops@ =~= old(ops)@ + expr_code(*expr, base, *program));
            },
            HirExpression::Binary { lhs, rhs, operator } => {
                self.emit_expression(ops, lhs, program);
                self.emit_expression(ops, rhs, program);
                let numeric = self.is_statically_number(lhs, program) && self.is_statically_number(
                    rhs,
                    program,
                );
                ops.push(binary_op(*operator, numeric));
                assert(ops@ =~= old(ops)@ + expr_code(*expr, base, *program));
            },
            HirExpression::Unary { operand, operator } => {
                self.emit_expression(ops, operand, program);
                match operator {
                    UnaryOp::Neg => ops.push(OpCode::Neg),
                    _ => ops.push(OpCode::Not),
                }
                assert(ops@ =~= old(ops)@ + expr_code(*expr, base, *program));
            },
            HirExpression::FunctionCall { function_id, args, invoke } => {
                self.emit_exprs(ops, args, program);
                ops.push(OpCode::LdFunc(*function_id));
                ops.push(OpCode::Thunk(args.len() as u32));
                if *invoke {
                    ops.push(OpCode::Invoke);
                }
                assert(ops@ =~= old(ops)@ + expr_code(*expr, base, *program));
            },
            HirExpression::PartialCall { .. } => {
                self.emit_expr_partial_call(ops, expr, program);
            },
            HirExpression::PostfixInvoke { .. } => {
                self.emit_expr_postfix_invoke(ops, expr, program);
            },
            HirExpression::ComposeThunk { first, second } => {
                self.emit_expression(ops, second, program);
                self.emit_expression(ops, first, program);
                ops.push(OpCode::ComposeThunk);
                assert(ops@ =~= old(ops)@ + expr_code(*expr, base, *program));
            },
            HirExpression::Loop { .. } => {
                self.emit_expr_loop(ops, expr, program);
            },
            HirExpression::Array(es) => {
                self.emit_exprs(ops, es, program);
                ops.push(OpCode::MakeArray(es.len() as u32));
                assert(ops@ =~= old(ops)@ + expr_code(*expr, base, *program));
            },
            HirExpression::ArrayIndex { array, index } => {
                self.emit_expression(ops, array, program);
                self.emit_expression(ops, index, program);
                ops.push(OpCode::ArrayIndex);
                assert(ops@ =~= old(ops)@ + expr_code(*expr, base, *program));
            },
            HirExpression::ArraySlice { .. } => {
                self.emit_expr_array_slice(ops, expr, program);
            },
            HirExpression::Reducer { .. } => {
                self.emit_expr_reducer(ops, expr, program);
            },
            HirExpression::StructInit { .. } => {
                self.emit_expr_struct_init(ops, expr, program);
            },
            HirExpression::FieldAccess { base: object, field_name } => {
                self.emit_expression(ops, object, program);
                let i = match find_field_position(program, field_name.as_str()) {
                    Some(i) => i,
                    None => 0,
                };
                ops.push(OpCode::GetField(i as u32));
                assert(ops@ =~= old(ops)@ + expr_code(*expr, base, *program));
            },
        }
    }

    /// Appends the code of each expression of a list, in order.
    fn emit_exprs(&mut self, ops: &mut Vec<OpCode>, es: &Vec<HirExpression>, program: &HirAst)
        requires
            exprs_ok(es@, *program),
            old(ops)@.len() + exprs_len(es@, *program) <= usize::MAX,
        ensures
            emitted_exprs(old(ops)@, final(ops)@, es@, *program),
            final(self).loop_stack@ == old(self).loop_stack@,
        decreases es@, 0nat,
    {
        let ghost base = ops@.len() as int;
        let m = es.len();
        let mut i: usize = 0;
        assert(es@.subrange(0, m as int) =~= es@);
        while i < m
            invariant
                m == es@.len(),
                0 <= i <= m,
                exprs_ok(es@, *program),
                ops@ + exprs_code(es@.subrange(i as int, m as int), ops@.len() as int, *program)
                    == old(ops)@ + exprs_code(es@, base, *program),
                ops@.len() + exprs_len(es@.subrange(i as int, m as int), *program) == base
                    + exprs_len(es@, *program),
                base == old(ops)@.len(),
                base + exprs_len(es@, *program) <= usize::MAX,
                self.loop_stack@ == old(self).loop_stack@,
            decreases m - i,
        {
            let ghost before = ops@;
            let ghost sub = es@.subrange(i as int, m as int);
            assert(sub.drop_first() =~= es@.subrange(i + 1, m as int));
            assert(sub[0] == es@[i as int]);
            self.emit_expression(ops, &es[i], program);
            assert(ops@ + exprs_code(es@.subrange(i + 1, m as int), ops@.len() as int, *program)
                =~= before + exprs_code(sub, before.len() as int, *program));
            i += 1;
        }
        assert(ops@ =~= ops@ + exprs_code(es@.subrange(m as int, m as int), ops@.len() as int, *program));
    }
}

impl ByteCodeEmitter {
    /// Appends the code of a partial call: the bound arguments, last first,
    /// then the instruction that records which positions are bound.
    fn emit_expr_partial_call(&mut self, ops: &mut Vec<OpCode>, expr: &HirExpression, program: &HirAst)
        requires
            expr is PartialCall,
            expr_ok(*expr, *program),
            old(ops)@.len() + expr_len(*expr, *program) <= usize::MAX,
        ensures
            emitted_expr(old(ops)@, final(ops)@, *expr, *program),
            final(self).loop_stack@ == old(self).loop_stack@,
        decreases expr, 0nat,
    {
        let ghost base = ops@.len() as int;
        match expr {
            HirExpression::PartialCall { func_id, bound } => {
                let n = bound.len();
                let mut mask: u64 = 0;
                let mut holes: usize = 0;
                let mut i: usize = 0;
                while i < n
                    invariant
                        n == bound@.len(),
                        n <= 64,
                        0 <= i <= n,
                        mask == bound_mask(bound@.subrange(0, i as int)),
                        holes == hole_count(bound@.subrange(0, i as int)),
                        holes <= i,
                    decreases n - i,
                {
                    assert(bound@.subrange(0, i + 1).drop_last() =~= bound@.subrange(0, i as int));
                    if bound[i].is_some() {
                        mask = mask | (1u64 << (i as u64));
                    } else {
                        holes = holes + 1;
                    }
                    i += 1;
                }
                assert(bound@.subrange(0, n as int) =~= bound@);
                self.emit_bound(ops, bound, program);
                ops.push(OpCode::MakePartial { func_id: *func_id, bound_mask: mask, hole_count: holes as u32 });
                assert(ops@ =~= old(ops)@ + expr_code(*expr, base, *program));
            },
            _ => {},
        }
    }

    /// Appends the code of the bound arguments of a partial call, last first.
    fn emit_bound(&mut self, ops: &mut Vec<OpCode>, bound: &Vec<Option<HirExpression>>, program: &HirAst)
        requires
            forall|i: int| 0 <= i < bound@.len() ==> match #[trigger] bound@[i] {
                Some(x) => expr_ok(x, *program),
                None => true,
            },
            old(ops)@.len() + bound_len(bound@, *program) <= usize::MAX,
        ensures
            final(ops)@ == old(ops)@ + bound_code(bound@, old(ops)@.len() as int, *program),
            bound_code(bound@, old(ops)@.len() as int, *program).len() == bound_len(bound@, *program),
            final(self).loop_stack@ == old(self).loop_stack@,
        decreases bound@, 0nat,
    {
        let ghost base = ops@.len() as int;
        let mut k: usize = bound.len();
        assert(bound@.subrange(0, k as int) =~= bound@);
        while k > 0
            invariant
                0 <= k <= bound@.len(),
                forall|i: int| 0 <= i < bound@.len() ==> match #[trigger] bound@[i] {
                    Some(x) => expr_ok(x, *program),
                    None => true,
                },
                ops@ + bound_code(bound@.subrange(0, k as int), ops@.len() as int, *program) == old(
                    ops,
                )@ + bound_code(bound@, base, *program),
                ops@.len() + bound_len(bound@.subrange(0, k as int), *program) == base + bound_len(
                    bound@,
                    *program,
                ),
                base == old(ops)@.len(),
                base + bound_len(bound@, *program) <= usize::MAX,
                self.loop_stack@ == old(self).loop_stack@,
            decreases k,
        {
            let ghost before = ops@;
            let ghost sub = bound@.subrange(0, k as int);
            assert(sub.drop_last() =~= bound@.subrange(0, k - 1));
            assert(sub.last() == bound@[k - 1]);
            match &bound[k - 1] {
                Some(e) => {
                    self.emit_expression(ops, e, program);
                },
                None => {},
            }
            assert(ops@ + bound_code(bound@.subrange(0, k - 1), ops@.len() as int, *program)
                =~= before + bound_code(sub, before.len() as int, *program));
            k -= 1;
        }
        assert(ops@ =~= ops@ + bound_code(bound@.subrange(0, 0), ops@.len() as int, *program));
    }

    /// Appends the code of `operand!` or `operand!(args)`.
    fn emit_expr_postfix_invoke(&mut self, ops: &mut Vec<OpCode>, expr: &HirExpression, program: &HirAst)
        requires
            expr is PostfixInvoke,
            expr_ok(*expr, *program),
            old(ops)@.len() + expr_len(*expr, *program) <= usize::MAX,
        ensures
            emitted_expr(old(ops)@, final(ops)@, *expr, *program),
            final(self).loop_stack@ == old(self).loop_stack@,
        decreases expr, 0nat,
    {
        let ghost base = ops@.len() as int;
        match expr {
            HirExpression::PostfixInvoke { operand, args } => {
                match args {
                    Some(list) => {
                        self.emit_exprs(ops, list, program);
                        self.emit_expression(ops, operand, program);
                        ops.push(OpCode::Thunk(list.len() as u32));
                        ops.push(OpCode::Invoke);
                    },
                    None => match &**operand {
                        HirExpression::PostfixInvoke { operand: inner, args: Some(inner_list) } => {
                            assert(expr_ok(**operand, *program));
                            self.emit_exprs(ops, inner_list, program);
                            self.emit_expression(ops, inner, program);
                            ops.push(OpCode::Thunk(inner_list.len() as u32));
                            if !matches!(**inner, HirExpression::Identifier(_)) {
                                ops.push(OpCode::Invoke);
                            }
                            ops.push(OpCode::Invoke);
                        },
                        HirExpression::PartialCall { .. } => {
                            self.emit_expression(ops, operand, program);
                        },
                        HirExpression::FunctionCall { invoke, .. } => {
                            self.emit_expression(ops, operand, program);
                            if !*invoke {
                                ops.push(OpCode::Invoke);
                            }
                        },
                        _ => {
                            self.emit_expression(ops, operand, program);
                            ops.push(OpCode::Invoke);
                        },
                    },
                }
                assert(ops@ =~= old(ops)@ + expr_code(*expr, base, *program));
            },
            _ => {},
        }
    }

    /// Appends the code of a loop used as a value: the initialisations, the
    /// body inside the loop, the jump back, and the load of its result.
    fn emit_expr_loop(&mut self, ops: &mut Vec<OpCode>, expr: &HirExpression, program: &HirAst)
        requires
            expr is Loop,
            expr_ok(*expr, *program),
            old(ops)@.len() + expr_len(*expr, *program) <= usize::MAX,
        ensures
            emitted_expr(old(ops)@, final(ops)@, *expr, *program),
            final(self).loop_stack@ == old(self).loop_stack@,
        decreases expr, 0nat,
    {
        let ghost base = ops@.len() as int;
        match expr {
            HirExpression::Loop { init_vars, body, break_slot } => {
                self.emit_inits(ops, init_vars, program);
                let start = ops.len();
                let n = body.statements.len();
                assert(body.statements@.subrange(0, n as int) =~= body.statements@);
                let body_len = self.stmts_length(&body.statements, 0, n, program, *break_slot);
                let end = start + body_len + 1;
                let info = LoopInfo { start, end, break_slot: *break_slot, continue_target: start };
                self.loop_stack.push(info);
                assert(self.current_loop() == Some(info));
                self.emit_stmts(ops, &body.statements, 0, n, program);
                ops.push(OpCode::Jmp(start));
                match break_slot {
                    Some(s) => ops.push(OpCode::LdVar(*s)),
                    None => {},
                }
                self.loop_stack.pop();
                assert(self.loop_stack@ =~= old(self).loop_stack@);
                assert(ops@ =~= old(ops)@ + expr_code(*expr, base, *program));
            },
            _ => {},
        }
    }

    /// Appends the code of loop variable initialisations.
    fn emit_inits(&mut self, ops: &mut Vec<OpCode>, inits: &Vec<(u32, HirExpression)>, program: &HirAst)
        requires
            inits_ok(inits@, *program),
            old(ops)@.len() + inits_len(inits@, *program) <= usize::MAX,
        ensures
            final(ops)@ == old(ops)@ + inits_code(inits@, old(ops)@.len() as int, *program),
            inits_code(inits@, old(ops)@.len() as int, *program).len() == inits_len(inits@, *program),
            final(self).loop_stack@ == old(self).loop_stack@,
        decreases inits@, 0nat,
    {
        let ghost base = ops@.len() as int;
        let m = inits.len();
        let mut i: usize = 0;
        assert(inits@.subrange(0, m as int) =~= inits@);
        while i < m
            invariant
                m == inits@.len(),
                0 <= i <= m,
                inits_ok(inits@, *program),
                ops@ + inits_code(inits@.subrange(i as int, m as int), ops@.len() as int, *program)
                    == old(ops)@ + inits_code(inits@, base, *program),
                ops@.len() + inits_len(inits@.subrange(i as int, m as int), *program) == base
                    + inits_len(inits@, *program),
                base == old(ops)@.len(),
                base + inits_len(inits@, *program) <= usize::MAX,
                self.loop_stack@ == old(self).loop_stack@,
            decreases m - i,
        {
            let ghost before = ops@;
            let ghost sub = inits@.subrange(i as int, m as int);
            assert(sub.drop_first() =~= inits@.subrange(i + 1, m as int));
            assert(sub[0] == inits@[i as int]);
            self.emit_expression(ops, &inits[i].1, program);
            ops.push(OpCode::StVar(inits[i].0));
            assert(ops@ + inits_code(inits@.subrange(i + 1, m as int), ops@.len() as int, *program)
                =~= before + inits_code(sub, before.len() as int, *program));
            i += 1;
        }
        assert(ops@ =~= ops@ + inits_code(inits@.subrange(m as int, m as int), ops@.len() as int, *program));
    }

    /// Appends the code of an array slice: the array, then the start, end and
    /// step, each replaced by a sentinel number when absent, then whether the
    /// end is inclusive.
    #[verifier::spinoff_prover]
    #[verifier::rlimit(80)]
    fn emit_expr_array_slice(&mut self, ops: &mut Vec<OpCode>, expr: &HirExpression, program: &HirAst)
        requires
            expr is ArraySlice,
            expr_ok(*expr, *program),
            old(ops)@.len() + expr_len(*expr, *program) <= usize::MAX,
        ensures
            emitted_expr(old(ops)@, final(ops)@, *expr, *program),
            final(self).loop_stack@ == old(self).loop_stack@,
        decreases expr, 0nat,
    {
        let ghost base = ops@.len() as int;
        match expr {
            HirExpression::ArraySlice { array, start, end, step, inclusive_end } => {
                self.emit_expression(ops, array, program);
                let ghost o1 = ops@;
                self.emit_slice_bound(ops, start, program);
                let ghost o2 = ops@;
                self.emit_slice_bound(ops, end, program);
                let ghost o3 = ops@;
                self.emit_slice_bound(ops, step, program);
                let ghost o4 = ops@;
                ops.push(OpCode::LdNum(if *inclusive_end { ONE_BITS } else { ZERO_BITS }));
                ops.push(OpCode::ArraySlice);
                assert(ops@ =~= o4 + seq![
                    OpCode::LdNum(if *inclusive_end { ONE_BITS } else { ZERO_BITS }),
                    OpCode::ArraySlice,
                ]);
                assert(ops@ =~= old(ops)@ + expr_code(*expr, base, *program));
            },
            _ => {},
        }
    }

    /// Appends a slice bound, or the sentinel number when it is absent.
    fn emit_slice_bound(&mut self, ops: &mut Vec<OpCode>, bound: &Option<Box<HirExpression>>, program: &HirAst)
        requires
            match *bound {
                Some(b) => expr_ok(*b, *program),
                None => true,
            },
            old(ops)@.len() + match *bound {
                Some(b) => expr_len(*b, *program),
                None => 1nat,
            } <= usize::MAX,
        ensures
            final(ops)@ == old(ops)@ + match *bound {
                Some(b) => expr_code(*b, old(ops)@.len() as int, *program),
                None => seq![OpCode::LdNum(NONE_SENTINEL)],
            },
            final(ops)@.len() == old(ops)@.len() + match *bound {
                Some(b) => expr_len(*b, *program),
                None => 1nat,
            },
            final(self).loop_stack@ == old(self).loop_stack@,
        decreases bound, 0nat,
    {
        match bound {
            Some(b) => {
                self.emit_expression(ops, b, program);
            },
            None => {
                ops.push(OpCode::LdNum(NONE_SENTINEL));
                assert(ops@ =~= old(ops)@ + seq![OpCode::LdNum(NONE_SENTINEL)]);
            },
        }
    }

    /// Appends the loop of a `sum`: walk the array with an iterator, adding
    /// each element to an accumulator, then load the accumulator.
    fn emit_sum_loop(&mut self, ops: &mut Vec<OpCode>)
        requires
            old(ops)@.len() + 16 <= usize::MAX,
        ensures
            final(ops)@ == old(ops)@ + sum_code(old(ops)@.len() as int),
            final(self).loop_stack@ == old(self).loop_stack@,
    {
        let pos = ops.len();
        let loop_start = pos + 4;
        let loop_end = loop_start + 11;
        ops.push(OpCode::ArrayIter);
        ops.push(OpCode::LdNum(ZERO_BITS));
        ops.push(OpCode::StVar(ACC_SLOT));
        ops.push(OpCode::StVar(ITER_SLOT));
        ops.push(OpCode::LdVar(ITER_SLOT));
        ops.push(OpCode::ArrayNext);
        ops.push(OpCode::StVar(HAS_MORE_SLOT));
        ops.push(OpCode::StVar(ELEM_SLOT));
        ops.push(OpCode::LdVar(ACC_SLOT));
        ops.push(OpCode::LdVar(ELEM_SLOT));
        ops.push(OpCode::Add);
        ops.push(OpCode::StVar(ACC_SLOT));
        ops.push(OpCode::LdVar(HAS_MORE_SLOT));
        ops.push(OpCode::JmpIfFalse(loop_end));
        ops.push(OpCode::Jmp(loop_start));
        ops.push(OpCode::LdVar(ACC_SLOT));
        assert(ops@ =~= old(ops)@ + sum_code(pos as int));
    }

    /// Appends the loop of a `reduce` with function `f`: the first element
    /// starts the accumulator, each further element is combined into it.
    fn emit_reduce_loop(&mut self, ops: &mut Vec<OpCode>, f: u32)
        requires
            old(ops)@.len() + 22 <= usize::MAX,
        ensures
            final(ops)@ == old(ops)@ + reduce_code(old(ops)@.len() as int, f),
            final(self).loop_stack@ == old(self).loop_stack@,
    {
        let pos = ops.len();
        let loop_start = pos + 8;
        let loop_end = loop_start + 13;
        ops.push(OpCode::ArrayIter);
        ops.push(OpCode::StVar(ITER_SLOT));
        ops.push(OpCode::LdVar(ITER_SLOT));
        ops.push(OpCode::ArrayNext);
        ops.push(OpCode::StVar(HAS_MORE_SLOT));
        ops.push(OpCode::StVar(ACC_SLOT));
        ops.push(OpCode::LdVar(HAS_MORE_SLOT));
        ops.push(OpCode::JmpIfFalse(loop_start));
        ops.push(OpCode::LdVar(ITER_SLOT));
        ops.push(OpCode::ArrayNext);
        ops.push(OpCode::StVar(HAS_MORE_SLOT));
        ops.push(OpCode::StVar(ELEM_SLOT));
        ops.push(OpCode::LdVar(ACC_SLOT));
        ops.push(OpCode::LdVar(ELEM_SLOT));
        ops.push(OpCode::LdFunc(f));
        ops.push(OpCode::Thunk(2));
        ops.push(OpCode::Invoke);
        ops.push(OpCode::StVar(ACC_SLOT));
        ops.push(OpCode::LdVar(HAS_MORE_SLOT));
        ops.push(OpCode::JmpIfFalse(loop_end));
        ops.push(OpCode::Jmp(loop_start));
        ops.push(OpCode::LdVar(ACC_SLOT));
        assert(ops@ =~= old(ops)@ + reduce_code(pos as int, f));
    }

    /// The function a `fold` combines with.
    fn fold_function_id(&self, args: &Vec<HirExpression>, program: &HirAst) -> (f: u32)
        requires
            args@.len() >= 2,
            fold_function_ok(args@, *program),
        ensures
            f == fold_function(args@, *program),
    {
        match &args[1] {
            HirExpression::Closure { function_id } => *function_id,
            HirExpression::FunctionCall { function_id, .. } => *function_id,
            HirExpression::Identifier(v) => match self.resolve_identifier_to_function_id(*v, program) {
                Some(f) => f,
                None => 0,
            },
            _ => 0,
        }
    }

    /// The function a `reduce` combines with.
    fn reduce_function_id(&self, args: &Vec<HirExpression>, program: &HirAst) -> (f: u32)
        requires
            args@.len() >= 1,
            reduce_function_ok(args@, *program),
        ensures
            f == reduce_function(args@, *program),
    {
        match &args[0] {
            HirExpression::FunctionCall { function_id, .. } => *function_id,
            HirExpression::Identifier(v) => match self.resolve_identifier_to_function_id(*v, program) {
                Some(f) => f,
                None => 0,
            },
            _ => 0,
        }
    }

    /// Appends the code of a reducer: the array (run first when it is a
    /// composition), then `map`, `filter` and `fold` as single instructions,
    /// `sum` and `reduce` as a loop over an iterator.
    fn emit_expr_reducer(&mut self, ops: &mut Vec<OpCode>, expr: &HirExpression, program: &HirAst)
        requires
            expr is Reducer,
            expr_ok(*expr, *program),
            old(ops)@.len() + expr_len(*expr, *program) <= usize::MAX,
        ensures
            emitted_expr(old(ops)@, final(ops)@, *expr, *program),
            final(self).loop_stack@ == old(self).loop_stack@,
        decreases expr, 0nat,
    {
        let ghost base = ops@.len() as int;
        match expr {
            HirExpression::Reducer { array, reducer_type, reducer_args } => {
                self.emit_expression(ops, array, program);
                if matches!(**array, HirExpression::ComposeThunk { .. }) {
                    ops.push(OpCode::Invoke);
                }
                let ghost pre = ops@;
                assert(pre =~= old(ops)@ + expr_code(**array, base, *program) + if **array is ComposeThunk {
                    seq![OpCode::Invoke]
                } else {
                    Seq::empty()
                });
                match reducer_type {
                    ReducerType::Mapping | ReducerType::Filter => {
                        match &reducer_args[0] {
                            HirExpression::Closure { function_id } => {
                                ops.push(OpCode::LdFunc(*function_id));
                            },
                            _ => {
                                self.emit_expression(ops, &reducer_args[0], program);
                            },
                        }
                        match reducer_type {
                            ReducerType::Mapping => ops.push(OpCode::ArrayMap),
                            _ => ops.push(OpCode::ArrayFilter),
                        }
                    },
                    ReducerType::Fold => {
                        self.emit_expression(ops, &reducer_args[0], program);
                        let f = self.fold_function_id(reducer_args, program);
                        ops.push(OpCode::LdFunc(f));
                        ops.push(OpCode::ArrayFold);
                    },
                    ReducerType::Sum => {
                        self.emit_sum_loop(ops);
                    },
                    ReducerType::Reduce => {
                        let f = self.reduce_function_id(reducer_args, program);
                        self.emit_reduce_loop(ops, f);
                    },
                }
                assert(ops@ =~= old(ops)@ + expr_code(*expr, base, *program));
            },
            _ => {},
        }
    }

    /// Appends the code of a struct literal: the field values in the order the
    /// struct declares its fields, then the instruction that builds it.
    fn emit_expr_struct_init(&mut self, ops: &mut Vec<OpCode>, expr: &HirExpression, program: &HirAst)
        requires
            expr is StructInit,
            expr_ok(*expr, *program),
            old(ops)@.len() + expr_len(*expr, *program) <= usize::MAX,
        ensures
            emitted_expr(old(ops)@, final(ops)@, *expr, *program),
            final(self).loop_stack@ == old(self).loop_stack@,
        decreases expr, 0nat,
    {
        let ghost base = ops@.len() as int;
        match expr {
            HirExpression::StructInit { struct_name, fields } => {
                match find_struct(&program.structs, struct_name.as_str()) {
                    Some(k) => {
                        let def = &program.structs[k];
                        self.emit_field_values(ops, &def.fields, fields, program);
                        ops.push(
                            OpCode::MakeStruct {
                                type_id: def.type_id,
                                field_count: def.fields.len() as u32,
                            },
                        );
                        assert(ops@ =~= old(ops)@ + expr_code(*expr, base, *program));
                    },
                    None => {},
                }
            },
            _ => {},
        }
    }

    /// Appends the values of a struct literal's fields, in the order of the
    /// declared field names; each takes the last initialiser given for it.
    fn emit_field_values(
        &mut self,
        ops: &mut Vec<OpCode>,
        names: &Vec<String>,
        fields: &Vec<(String, HirExpression)>,
        program: &HirAst,
    )
        requires
            forall|i: int|
                0 <= i < names@.len() ==> match #[trigger] last_field_index(fields@, names@[i]@) {
                    Some(j) => 0 <= j < fields@.len() && expr_ok(fields@[j].1, *program),
                    None => false,
                },
            old(ops)@.len() + field_values_len(names@, fields@, *program) <= usize::MAX,
        ensures
            final(ops)@ == old(ops)@ + field_values_code(
                names@,
                fields@,
                old(ops)@.len() as int,
                *program,
            ),
            field_values_code(names@, fields@, old(ops)@.len() as int, *program).len()
                == field_values_len(names@, fields@, *program),
            final(self).loop_stack@ == old(self).loop_stack@,
        decreases fields@, names@.len(),
    {
        let ghost base = ops@.len() as int;
        let m = names.len();
        let mut i: usize = 0;
        assert(names@.subrange(0, m as int) =~= names@);
        while i < m
            invariant
                m == names@.len(),
                0 <= i <= m,
                forall|q: int|
                    0 <= q < names@.len() ==> match #[trigger] last_field_index(fields@, names@[q]@) {
                        Some(j) => 0 <= j < fields@.len() && expr_ok(fields@[j].1, *program),
                        None => false,
                    },
                ops@ + field_values_code(
                    names@.subrange(i as int, m as int),
                    fields@,
                    ops@.len() as int,
                    *program,
                ) == old(ops)@ + field_values_code(names@, fields@, base, *program),
                ops@.len() + field_values_len(names@.subrange(i as int, m as int), fields@, *program)
                    == base + field_values_len(names@, fields@, *program),
                base == old(ops)@.len(),
                base + field_values_len(names@, fields@, *program) <= usize::MAX,
                self.loop_stack@ == old(self).loop_stack@,
            decreases m - i,
        {
            let ghost before = ops@;
            let ghost sub = names@.subrange(i as int, m as int);
            assert(sub.drop_first() =~= names@.subrange(i + 1, m as int));
            assert(sub[0] == names@[i as int]);
            match find_last_field(fields, names[i].as_str()) {
                Some(j) => {
                    self.emit_expression(ops, &fields[j].1, program);
                },
                None => {},
            }
            assert(ops@ + field_values_code(
                names@.subrange(i + 1, m as int),
                fields@,
                ops@.len() as int,
                *program,
            ) =~= before + field_values_code(sub, fields@, before.len() as int, *program));
            i += 1;
        }
        assert(ops@ =~= ops@ + field_values_code(
            names@.subrange(m as int, m as int),
            fields@,
            ops@.len() as int,
            *program,
        ));
    }
}

impl ByteCodeEmitter {
    /// Appends the code of statements `from..to` of a list, inside the
    /// innermost loop.
    fn emit_stmts(
        &mut self,
        ops: &mut Vec<OpCode>,
        ss: &Vec<HirStmt>,
        from: usize,
        to: usize,
        program: &HirAst,
    )
        requires
            from <= to <= ss@.len(),
            stmts_ok(ss@.subrange(from as int, to as int), *program, old(self).loop_stack@.len() > 0),
            old(ops)@.len() + stmts_len(
                ss@.subrange(from as int, to as int),
                *program,
                slot_of(old(self).current_loop()),
            ) <= usize::MAX,
        ensures
            emitted_stmts(
                old(ops)@,
                final(ops)@,
                ss@.subrange(from as int, to as int),
                old(self).current_loop(),
                *program,
            ),
            final(self).loop_stack@ == old(self).loop_stack@,
        decreases ss@, 0nat,
    {
        let ghost base = ops@.len() as int;
        let ghost ctx = self.current_loop();
        let ghost all = ss@.subrange(from as int, to as int);
        let mut i: usize = from;
        assert(ss@.subrange(from as int, to as int) =~= all);
        while i < to
            invariant
                from <= i <= to <= ss@.len(),
                all == ss@.subrange(from as int, to as int),
                ctx == self.current_loop(),
                self.loop_stack@ == old(self).loop_stack@,
                stmts_ok(all, *program, self.loop_stack@.len() > 0),
                ops@ + stmts_code(ss@.subrange(i as int, to as int), ops@.len() as int, ctx, *program)
                    == old(ops)@ + stmts_code(all, base, ctx, *program),
                ops@.len() + stmts_len(ss@.subrange(i as int, to as int), *program, slot_of(ctx))
                    == base + stmts_len(all, *program, slot_of(ctx)),
                base == old(ops)@.len(),
                base + stmts_len(all, *program, slot_of(ctx)) <= usize::MAX,
            decreases to - i,
        {
            let ghost before = ops@;
            let ghost sub = ss@.subrange(i as int, to as int);
            assert(sub.drop_first() =~= ss@.subrange(i + 1, to as int));
            assert(sub[0] == ss@[i as int]);
            assert(all[i - from] == ss@[i as int]);
            self.emit_stmt(ops, &ss[i], program);
            assert(ops@ + stmts_code(ss@.subrange(i + 1, to as int), ops@.len() as int, ctx, *program)
                =~= before + stmts_code(sub, before.len() as int, ctx, *program));
            i += 1;
        }
        assert(ops@ =~= ops@ + stmts_code(ss@.subrange(to as int, to as int), ops@.len() as int, ctx, *program));
    }

    /// The innermost loop; the emitter must be inside one.
    fn innermost_loop(&self) -> (info: LoopInfo)
        requires
            self.loop_stack@.len() > 0,
        ensures
            self.current_loop() == Some(info),
    {
        self.loop_stack[self.loop_stack.len() - 1]
    }

    /// The break slot of the innermost loop, if any.
    fn current_slot(&self) -> (slot: Option<u32>)
        ensures
            slot == slot_of(self.current_loop()),
    {
        if self.loop_stack.len() == 0 {
            None
        } else {
            self.loop_stack[self.loop_stack.len() - 1].break_slot
        }
    }

    /// Appends the code of a statement, inside the innermost loop.
    fn emit_stmt(&mut self, ops: &mut Vec<OpCode>, stmt: &HirStmt, program: &HirAst)
        requires
            stmt_ok(*stmt, *program, old(self).loop_stack@.len() > 0),
            old(ops)@.len() + stmt_len(*stmt, *program, slot_of(old(self).current_loop()))
                <= usize::MAX,
        ensures
            emitted_stmt(old(ops)@, final(ops)@, *stmt, old(self).current_loop(), *program),
            final(self).loop_stack@ == old(self).loop_stack@,
        decreases stmt, 1nat,
    {
        let ghost base = ops@.len() as int;
        let ghost ctx = self.current_loop();
        match stmt {
            HirStmt::Assign { slot, value } => {
                self.emit_expression(ops, value, program);
                ops.push(OpCode::StVar(*slot));
                assert(ops@ =~= old(ops)@ + stmt_code(*stmt, base, ctx, *program));
            },
            HirStmt::AssignIncrement { slot, value } => {
                ops.push(OpCode::LdVar(*slot));
                self.emit_expression(ops, value, program);
                ops.push(OpCode::Add);
                ops.push(OpCode::StVar(*slot));
                assert(ops@ =~= old(ops)@ + stmt_code(*stmt, base, ctx, *program));
            },
            HirStmt::AssignDecrement { slot, value } => {
                ops.push(OpCode::LdVar(*slot));
                self.emit_expression(ops, value, program);
                ops.push(OpCode::Sub);
                ops.push(OpCode::StVar(*slot));
                assert(ops@ =~= old(ops)@ + stmt_code(*stmt, base, ctx, *program));
            },
            HirStmt::If { .. } => {
                self.emit_stmt_if(ops, stmt, program);
            },
            HirStmt::Match { .. } => {
                self.emit_stmt_match(ops, stmt, program);
            },
            HirStmt::Return { value } => {
                match value {
                    HirExpression::FunctionCall { function_id, args, invoke: true } => {
                        self.emit_exprs(ops, args, program);
                        ops.push(OpCode::LdFunc(*function_id));
                        ops.push(OpCode::Thunk(args.len() as u32));
                        ops.push(OpCode::RetInvoke);
                    },
                    _ => {
                        self.emit_expression(ops, value, program);
                        ops.push(OpCode::Ret);
                    },
                }
                assert(ops@ =~= old(ops)@ + stmt_code(*stmt, base, ctx, *program));
            },
            HirStmt::Loop { .. } => {
                self.emit_stmt_loop(ops, stmt, program);
            },
            HirStmt::Break { value } => {
                let info = self.innermost_loop();
                match value {
                    Some(v) => {
                        self.emit_expression(ops, v, program);
                        match info.break_slot {
                            Some(bs) => ops.push(OpCode::StVar(bs)),
                            None => {},
                        }
                    },
                    None => {},
                }
                ops.push(OpCode::Jmp(info.end));
                assert(ops@ =~= old(ops)@ + stmt_code(*stmt, base, ctx, *program));
            },
            HirStmt::Continue => {
                let info = self.innermost_loop();
                ops.push(OpCode::Jmp(info.continue_target));
                assert(ops@ =~= old(ops)@ + stmt_code(*stmt, base, ctx, *program));
            },
            HirStmt::Expression(e) => {
                if let HirExpression::Constant(0) = e {
                    assert(ops@ =~= old(ops)@ + stmt_code(*stmt, base, ctx, *program));
                } else {
                    self.emit_expression(ops, e, program);
                    if !self.is_void_expression(e, program) {
                        ops.push(OpCode::Pop);
                    }
                    assert(ops@ =~= old(ops)@ + stmt_code(*stmt, base, ctx, *program));
                }
            },
            HirStmt::Nop => {
                assert(ops@ =~= old(ops)@ + stmt_code(*stmt, base, ctx, *program));
            },
        }
    }

    /// Appends the code of an `if`: each arm tests its condition and skips to
    /// the next arm when it is false; after its block it jumps past the rest.
    fn emit_stmt_if(&mut self, ops: &mut Vec<OpCode>, stmt: &HirStmt, program: &HirAst)
        requires
            stmt is If,
            stmt_ok(*stmt, *program, old(self).loop_stack@.len() > 0),
            old(ops)@.len() + stmt_len(*stmt, *program, slot_of(old(self).current_loop()))
                <= usize::MAX,
        ensures
            emitted_stmt(old(ops)@, final(ops)@, *stmt, old(self).current_loop(), *program),
            final(self).loop_stack@ == old(self).loop_stack@,
        decreases stmt, 0nat,
    {
        let ghost base = ops@.len() as int;
        let ghost ctx = self.current_loop();
        match stmt {
            HirStmt::If { arms, else_block } => {
                let slot = self.current_slot();
                let ne = else_block.statements.len();
                assert(else_block.statements@.subrange(0, ne as int) =~= else_block.statements@);
                let alen = self.arms_length(arms, program, slot);
                let elen = self.stmts_length(&else_block.statements, 0, ne, program, slot);
                let end = ops.len() + alen + elen;
                self.emit_arms(ops, arms, end, program);
                self.emit_stmts(ops, &else_block.statements, 0, ne, program);
                assert(ops@ =~= old(ops)@ + stmt_code(*stmt, base, ctx, *program));
            },
            _ => {},
        }
    }

    /// Appends the arms of an `if` that ends at `end`.
    fn emit_arms(
        &mut self,
        ops: &mut Vec<OpCode>,
        arms: &Vec<(HirExpression, HirBlock)>,
        end: usize,
        program: &HirAst,
    )
        requires
            arms_ok(arms@, *program, old(self).loop_stack@.len() > 0),
            old(ops)@.len() + arms_len(arms@, *program, slot_of(old(self).current_loop())) <= usize::MAX,
        ensures
            final(ops)@ == old(ops)@ + arms_code(
                arms@,
                old(ops)@.len() as int,
                end as int,
                old(self).current_loop(),
                *program,
            ),
            final(ops)@.len() == old(ops)@.len() + arms_len(
                arms@,
                *program,
                slot_of(old(self).current_loop()),
            ),
            final(self).loop_stack@ == old(self).loop_stack@,
        decreases arms@, 0nat,
    {
        let ghost base = ops@.len() as int;
        let ghost ctx = self.current_loop();
        let slot = self.current_slot();
        let ghost in_loop = self.loop_stack@.len() > 0;
        let m = arms.len();
        let mut i: usize = 0;
        assert(arms@.subrange(0, m as int) =~= arms@);
        while i < m
            invariant
                m == arms@.len(),
                0 <= i <= m,
                ctx == self.current_loop(),
                slot == slot_of(ctx),
                self.loop_stack@ == old(self).loop_stack@,
                in_loop == (self.loop_stack@.len() > 0),
                arms_ok(arms@, *program, in_loop),
                ops@ + arms_code(
                    arms@.subrange(i as int, m as int),
                    ops@.len() as int,
                    end as int,
                    ctx,
                    *program,
                ) == old(ops)@ + arms_code(arms@, base, end as int, ctx, *program),
                ops@.len() + arms_len(arms@.subrange(i as int, m as int), *program, slot) == base
                    + arms_len(arms@, *program, slot),
                base == old(ops)@.len(),
                base + arms_len(arms@, *program, slot) <= usize::MAX,
            decreases m - i,
        {
            let ghost before = ops@;
            let ghost sub = arms@.subrange(i as int, m as int);
            assert(sub.drop_first() =~= arms@.subrange(i + 1, m as int));
            assert(sub[0] == arms@[i as int]);
            let cond = &arms[i].0;
            let stmts = &arms[i].1.statements;
            let ns = stmts.len();
            assert(stmts@.subrange(0, ns as int) =~= stmts@);
            let cond_len = self.expr_length(cond, program);
            let block_len = self.stmts_length(stmts, 0, ns, program, slot);
            let next = ops.len() + cond_len + 1 + block_len + 1;
            self.emit_expression(ops, cond, program);
            ops.push(OpCode::JmpIfFalse(next));
            self.emit_stmts(ops, stmts, 0, ns, program);
            ops.push(OpCode::Jmp(end));
            assert(ops@ + arms_code(
                arms@.subrange(i + 1, m as int),
                ops@.len() as int,
                end as int,
                ctx,
                *program,
            ) =~= before + arms_code(sub, before.len() as int, end as int, ctx, *program));
            i += 1;
        }
        assert(ops@ =~= ops@ + arms_code(
            arms@.subrange(m as int, m as int),
            ops@.len() as int,
            end as int,
            ctx,
            *program,
        ));
    }

    /// The number of instructions before a case's block.
    fn case_header_length(&self, pat: &Option<HirExpression>, program: &HirAst) -> (n: usize)
        requires
            case_header_len(*pat, *program) <= usize::MAX,
        ensures
            n == case_header_len(*pat, *program),
    {
        match pat {
            Some(e) => self.case_test_length(e, program) + 2,
            None => 0,
        }
    }

    /// Appends the code of a `match`: the subject is evaluated once and kept
    /// in a slot; each case with a pattern reloads and tests it.
    fn emit_stmt_match(&mut self, ops: &mut Vec<OpCode>, stmt: &HirStmt, program: &HirAst)
        requires
            stmt is Match,
            stmt_ok(*stmt, *program, old(self).loop_stack@.len() > 0),
            old(ops)@.len() + stmt_len(*stmt, *program, slot_of(old(self).current_loop()))
                <= usize::MAX,
        ensures
            emitted_stmt(old(ops)@, final(ops)@, *stmt, old(self).current_loop(), *program),
            final(self).loop_stack@ == old(self).loop_stack@,
        decreases stmt, 0nat,
    {
        let ghost base = ops@.len() as int;
        let ghost ctx = self.current_loop();
        match stmt {
            HirStmt::Match { expression, cases } => {
                let slot = self.current_slot();
                self.emit_expression(ops, expression, program);
                ops.push(OpCode::StVar(MATCH_SLOT));
                let clen = self.cases_length(cases, program, slot);
                let end = ops.len() + clen;
                self.emit_cases(ops, cases, end, program);
                assert(ops@ =~= old(ops)@ + stmt_code(*stmt, base, ctx, *program));
            },
            _ => {},
        }
    }

    /// Appends the cases of a `match` that ends at `end`.
    fn emit_cases(
        &mut self,
        ops: &mut Vec<OpCode>,
        cases: &Vec<(Option<HirExpression>, HirBlock)>,
        end: usize,
        program: &HirAst,
    )
        requires
            cases_ok(cases@, *program, old(self).loop_stack@.len() > 0),
            old(ops)@.len() + cases_len(cases@, *program, slot_of(old(self).current_loop())) <= usize::MAX,
        ensures
            final(ops)@ == old(ops)@ + cases_code(
                cases@,
                old(ops)@.len() as int,
                end as int,
                old(self).current_loop(),
                *program,
            ),
            final(ops)@.len() == old(ops)@.len() + cases_len(
                cases@,
                *program,
                slot_of(old(self).current_loop()),
            ),
            final(self).loop_stack@ == old(self).loop_stack@,
        decreases cases@, 0nat,
    {
        let ghost base = ops@.len() as int;
        let ghost ctx = self.current_loop();
        let slot = self.current_slot();
        let ghost in_loop = self.loop_stack@.len() > 0;
        let m = cases.len();
        let mut i: usize = 0;
        assert(cases@.subrange(0, m as int) =~= cases@);
        while i < m
            invariant
                m == cases@.len(),
                0 <= i <= m,
                ctx == self.current_loop(),
                slot == slot_of(ctx),
                self.loop_stack@ == old(self).loop_stack@,
                in_loop == (self.loop_stack@.len() > 0),
                cases_ok(cases@, *program, in_loop),
                ops@ + cases_code(
                    cases@.subrange(i as int, m as int),
                    ops@.len() as int,
                    end as int,
                    ctx,
                    *program,
                ) == old(ops)@ + cases_code(cases@, base, end as int, ctx, *program),
                ops@.len() + cases_len(cases@.subrange(i as int, m as int), *program, slot) == base
                    + cases_len(cases@, *program, slot),
                base == old(ops)@.len(),
                base + cases_len(cases@, *program, slot) <= usize::MAX,
            decreases m - i,
        {
            let ghost before = ops@;
            let ghost sub = cases@.subrange(i as int, m as int);
            assert(sub.drop_first() =~= cases@.subrange(i + 1, m as int));
            assert(sub[0] == cases@[i as int]);
            let stmts = &cases[i].1.statements;
            let ns = stmts.len();
            assert(stmts@.subrange(0, ns as int) =~= stmts@);
            let header_len = self.case_header_length(&cases[i].0, program);
            let block_len = self.stmts_length(stmts, 0, ns, program, slot);
            let next = ops.len() + header_len + block_len + 1;
            let miss = if i + 1 < m {
                assert(sub[1] == cases@[i + 1]);
                assert(cases_len(sub.drop_first(), *program, slot) == case_header_len(
                    cases@[i + 1].0,
                    *program,
                ) + stmts_len(cases@[i + 1].1.statements@, *program, slot) + 1 + cases_len(
                    sub.drop_first().drop_first(),
                    *program,
                    slot,
                ));
                next + self.case_header_length(&cases[i + 1].0, program)
            } else {
                end
            };
            self.emit_case(ops, &cases[i], miss, end, program);
            proof {
                vstd::seq_lib::lemma_concat_associative(
                    before,
                    case_code(cases@[i as int], before.len() as int, miss as int, end as int, ctx, *program),
                    cases_code(cases@.subrange(i + 1, m as int), ops@.len() as int, end as int, ctx, *program),
                );
            }
            i += 1;
        }
        assert(ops@ =~= ops@ + cases_code(
            cases@.subrange(m as int, m as int),
            ops@.len() as int,
            end as int,
            ctx,
            *program,
        ));
    }

    /// Appends one case of a `match`: its test, which jumps to `miss` when it
    /// fails, its block, and the jump to `end`.
    #[verifier::spinoff_prover]
    #[verifier::rlimit(80)]
    fn emit_case(
        &mut self,
        ops: &mut Vec<OpCode>,
        case: &(Option<HirExpression>, HirBlock),
        miss: usize,
        end: usize,
        program: &HirAst,
    )
        requires
            match case.0 {
                Some(pat) => case_test_ok(pat, *program),
                None => true,
            },
            stmts_ok(case.1.statements@, *program, old(self).loop_stack@.len() > 0),
            old(ops)@.len() + case_header_len(case.0, *program) + stmts_len(
                case.1.statements@,
                *program,
                slot_of(old(self).current_loop()),
            ) + 1 <= usize::MAX,
        ensures
            final(ops)@ == old(ops)@ + case_code(
                *case,
                old(ops)@.len() as int,
                miss as int,
                end as int,
                old(self).current_loop(),
                *program,
            ),
            final(ops)@.len() == old(ops)@.len() + case_header_len(case.0, *program) + stmts_len(
                case.1.statements@,
                *program,
                slot_of(old(self).current_loop()),
            ) + 1,
            final(self).loop_stack@ == old(self).loop_stack@,
        decreases case, 0nat,
    {
        let ghost base = ops@.len() as int;
        let ghost header = Seq::<OpCode>::empty();
        match &case.0 {
            Some(pat) => {
                ops.push(OpCode::LdVar(MATCH_SLOT));
                self.emit_case_test(ops, pat, program);
                ops.push(OpCode::JmpIfFalse(miss));
            },
            None => {},
        }
        let ghost after_header = ops@;
        assert(after_header.len() == base + case_header_len(case.0, *program));
        let stmts = &case.1.statements;
        let ns = stmts.len();
        assert(stmts@.subrange(0, ns as int) =~= stmts@);
        self.emit_stmts(ops, stmts, 0, ns, program);
        ops.push(OpCode::Jmp(end));
        assert(ops@ =~= old(ops)@ + case_code(
            *case,
            base,
            miss as int,
            end as int,
            self.current_loop(),
            *program,
        ));
    }

    /// Appends the test of a case's pattern against the subject on the stack.
    fn emit_case_test(&mut self, ops: &mut Vec<OpCode>, pat: &HirExpression, program: &HirAst)
        requires
            case_test_ok(*pat, *program),
            old(ops)@.len() + case_test_len(*pat, *program) <= usize::MAX,
        ensures
            final(ops)@ == old(ops)@ + case_test_code(*pat, old(ops)@.len() as int, *program),
            case_test_code(*pat, old(ops)@.len() as int, *program).len() == case_test_len(*pat, *program),
            final(self).loop_stack@ == old(self).loop_stack@,
        decreases pat, 3nat,
    {
        let ghost base = ops@.len() as int;
        if is_pattern_test(pat) {
            self.emit_pattern_expression(ops, pat, program);
        } else {
            self.emit_expression(ops, pat, program);
            ops.push(OpCode::Eq);
            assert(ops@ =~= old(ops)@ + case_test_code(*pat, base, *program));
        }
    }

    /// Appends a pattern test: a comparison supplies only its right side and
    /// operator, since the subject is on the stack; `&&` and `||` test both
    /// sides, reloading the subject in between.
    fn emit_pattern_expression(&mut self, ops: &mut Vec<OpCode>, pat: &HirExpression, program: &HirAst)
        requires
            pattern_ok(*pat, *program),
            old(ops)@.len() + pattern_len(*pat, *program) <= usize::MAX,
        ensures
            final(ops)@ == old(ops)@ + pattern_code(*pat, old(ops)@.len() as int, *program),
            pattern_code(*pat, old(ops)@.len() as int, *program).len() == pattern_len(*pat, *program),
            final(self).loop_stack@ == old(self).loop_stack@,
        decreases pat, 2nat,
    {
        let ghost base = ops@.len() as int;
        match pat {
            HirExpression::Binary { lhs, rhs, operator } => match operator {
                BinaryOp::Eq | BinaryOp::Ne | BinaryOp::Gt | BinaryOp::Lt | BinaryOp::Ge
                | BinaryOp::Le => {
                    self.emit_expression(ops, rhs, program);
                    ops.push(binary_op(*operator, false));
                    assert(ops@ =~= old(ops)@ + pattern_code(*pat, base, *program));
                },
                BinaryOp::And | BinaryOp::Or => {
                    self.emit_pattern_expression(ops, lhs, program);
                    ops.push(OpCode::LdVar(MATCH_SLOT));
                    self.emit_pattern_expression(ops, rhs, program);
                    ops.push(binary_op(*operator, false));
                    assert(ops@ =~= old(ops)@ + pattern_code(*pat, base, *program));
                },
                _ => {
                    self.emit_expression(ops, pat, program);
                },
            },
            _ => {
                self.emit_expression(ops, pat, program);
            },
        }
    }

    /// Appends the code of a loop statement: its initialisations, then its body.
    fn emit_stmt_loop(&mut self, ops: &mut Vec<OpCode>, stmt: &HirStmt, program: &HirAst)
        requires
            stmt is Loop,
            stmt_ok(*stmt, *program, old(self).loop_stack@.len() > 0),
            old(ops)@.len() + stmt_len(*stmt, *program, slot_of(old(self).current_loop()))
                <= usize::MAX,
        ensures
            emitted_stmt(old(ops)@, final(ops)@, *stmt, old(self).current_loop(), *program),
            final(self).loop_stack@ == old(self).loop_stack@,
        decreases stmt, 0nat,
    {
        let ghost base = ops@.len() as int;
        let ghost ctx = self.current_loop();
        match stmt {
            HirStmt::Loop { init_vars, body, break_slot } => {
                self.emit_inits(ops, init_vars, program);
                if loop_guard(body).is_some() {
                    self.emit_guarded_loop_body(ops, body, *break_slot, program);
                } else {
                    self.emit_plain_loop_body(ops, body, *break_slot, program);
                }
                assert(ops@ =~= old(ops)@ + stmt_code(*stmt, base, ctx, *program));
            },
            _ => {},
        }
    }

    /// Appends the body of a loop statement that does not start with a
    /// `break` guard: the statements, the jump back, and the load of the
    /// loop's value.
    fn emit_plain_loop_body(
        &mut self,
        ops: &mut Vec<OpCode>,
        body: &HirBlock,
        break_slot: Option<u32>,
        program: &HirAst,
    )
        requires
            !is_guarded_loop(*body),
            stmts_ok(body.statements@, *program, true),
            old(ops)@.len() + loop_body_len(*body, *program, break_slot) <= usize::MAX,
        ensures
            final(ops)@ == old(ops)@ + loop_body_code(*body, old(ops)@.len() as int, break_slot, *program),
            final(ops)@.len() == old(ops)@.len() + loop_body_len(*body, *program, break_slot),
            final(self).loop_stack@ == old(self).loop_stack@,
        decreases body, 0nat,
    {
        let ghost base = ops@.len() as int;
        let start = ops.len();
        let n = body.statements.len();
        assert(body.statements@.subrange(0, n as int) =~= body.statements@);
        let body_len = self.stmts_length(&body.statements, 0, n, program, break_slot);
        let end = start + body_len + 1;
        let info = LoopInfo { start, end, break_slot, continue_target: start };
        self.loop_stack.push(info);
        assert(self.current_loop() == Some(info));
        self.emit_stmts(ops, &body.statements, 0, n, program);
        ops.push(OpCode::Jmp(start));
        match break_slot {
            Some(s) => ops.push(OpCode::LdVar(s)),
            None => {},
        }
        self.loop_stack.pop();
        assert(self.loop_stack@ =~= old(self).loop_stack@);
        assert(ops@ =~= old(ops)@ + loop_body_code(*body, base, break_slot, *program));
    }

    /// Appends the body of a loop statement that starts with
    /// `if (cond) { break [value]; }`: the condition, a jump to the break
    /// handler when it holds, the rest of the body with `continue` aimed at
    /// the increment when the body ends with one, the jump back, the handler
    /// that stores the break value, and the load of the loop's value.
    #[verifier::spinoff_prover]
    #[verifier::rlimit(80)]
    fn emit_guarded_loop_body(
        &mut self,
        ops: &mut Vec<OpCode>,
        body: &HirBlock,
        break_slot: Option<u32>,
        program: &HirAst,
    )
        requires
            is_guarded_loop(*body),
            stmts_ok(body.statements@, *program, true),
            old(ops)@.len() + loop_body_len(*body, *program, break_slot) <= usize::MAX,
        ensures
            final(ops)@ == old(ops)@ + loop_body_code(*body, old(ops)@.len() as int, break_slot, *program),
            final(ops)@.len() == old(ops)@.len() + loop_body_len(*body, *program, break_slot),
            final(self).loop_stack@ == old(self).loop_stack@,
        decreases body, 0nat,
    {
        let ghost base = ops@.len() as int;
        let start = ops.len();
        let n = body.statements.len();
        let ghost ss = body.statements@;
        proof {
            lemma_guard_ok(*body, *program);
            lemma_guarded_body_code(*body, base, break_slot, *program);
        }
        assert(ss.subrange(1, n as int) =~= ss.drop_first());
        match loop_guard(body) {
            Some((cond, value)) => {
                let extra: usize = if break_slot.is_some() {
                    1
                } else {
                    0
                };
                let cond_len = self.expr_length(cond, program);
                let body_at = start + cond_len + 1;
                let rest_len = self.stmts_length(&body.statements, 1, n, program, break_slot);
                let handler_at = body_at + rest_len + 1;
                let handler_len = match value {
                    Some(v) => self.expr_length(v, program) + extra,
                    None => 0,
                };
                let end = handler_at + handler_len + 1;
                let continue_at = if n > 1 && matches!(body.statements[n - 1], HirStmt::Assign { .. }) {
                    assert(ss.drop_first().drop_last() =~= ss.subrange(1, n - 1));
                    assert(ss.drop_first().last() == ss[n - 1]);
                    proof {
                        lemma_stmts_len_last(ss.drop_first(), *program, break_slot);
                    }
                    body_at + self.stmts_length(&body.statements, 1, n - 1, program, break_slot)
                } else {
                    start
                };
                let info = LoopInfo { start, end, break_slot, continue_target: continue_at };
                assert(info == guard_ctx(*body, base, break_slot, *program));
                self.loop_stack.push(info);
                assert(self.current_loop() == Some(info));
                self.emit_expression(ops, cond, program);
                ops.push(OpCode::JmpIfTrue(handler_at));
                let ghost o1 = ops@;
                self.emit_stmts(ops, &body.statements, 1, n, program);
                ops.push(OpCode::Jmp(start));
                let ghost o2 = ops@;
                self.emit_break_handler(ops, value, break_slot, program);
                let ghost o3 = ops@;
                ops.push(OpCode::Jmp(end));
                match break_slot {
                    Some(s) => ops.push(OpCode::LdVar(s)),
                    None => {},
                }
                self.loop_stack.pop();
                assert(self.loop_stack@ =~= old(self).loop_stack@);
                assert(ops@ =~= old(ops)@ + loop_body_code(*body, base, break_slot, *program));
            },
            None => {},
        }
    }

    /// Appends a `break` handler: the break value, if any, stored in the
    /// loop's break slot, if any.
    fn emit_break_handler(
        &mut self,
        ops: &mut Vec<OpCode>,
        value: &Option<HirExpression>,
        break_slot: Option<u32>,
        program: &HirAst,
    )
        requires
            *value matches Some(v) ==> expr_ok(v, *program),
            old(ops)@.len() + match *value {
                Some(v) => expr_len(v, *program) + slot_count(break_slot),
                None => 0,
            } <= usize::MAX,
        ensures
            final(ops)@ == old(ops)@ + match *value {
                Some(v) => expr_code(v, old(ops)@.len() as int, *program) + store_slot(break_slot),
                None => Seq::empty(),
            },
            final(ops)@.len() == old(ops)@.len() + match *value {
                Some(v) => expr_len(v, *program) + slot_count(break_slot),
                None => 0,
            },
            final(self).loop_stack@ == old(self).loop_stack@,
        decreases value, 0nat,
    {
        match value {
            Some(v) => {
                self.emit_expression(ops, v, program);
                match break_slot {
                    Some(s) => ops.push(OpCode::StVar(s)),
                    None => {},
                }
                assert(ops@ =~= old(ops)@ + expr_code(*v, old(ops)@.len() as int, *program) + store_slot(
                    break_slot,
                ));
            },
            None => {
                assert(ops@ =~= old(ops)@ + Seq::<OpCode>::empty());
            },
        }
    }

    /// Appends the code of a statement outside any loop.
    pub fn emit_statement(&mut self, ops: &mut Vec<OpCode>, statement: &HirStmt, program: &HirAst)
        requires
            old(self).idle(),
            stmt_ok(*statement, *program, false),
            old(ops)@.len() + stmt_len(*statement, *program, None) <= usize::MAX,
        ensures
            final(self).idle(),
            final(ops)@ == old(ops)@ + stmt_code(*statement, old(ops)@.len() as int, None, *program),
            final(ops)@.len() == old(ops)@.len() + stmt_len(*statement, *program, None),
    {
        self.emit_stmt(ops, statement, program);
    }

    /// Appends the code of a block's statements, outside any loop.
    pub fn emit_block(&mut self, ops: &mut Vec<OpCode>, block: &HirBlock, program: &HirAst)
        requires
            old(self).idle(),
            stmts_ok(block.statements@, *program, false),
            old(ops)@.len() + stmts_len(block.statements@, *program, None) <= usize::MAX,
        ensures
            final(self).idle(),
            final(ops)@ == old(ops)@ + stmts_code(block.statements@, old(ops)@.len() as int, None, *program),
            final(ops)@.len() == old(ops)@.len() + stmts_len(block.statements@, *program, None),
    {
        let n = block.statements.len();
        assert(block.statements@.subrange(0, n as int) =~= block.statements@);
        self.emit_stmts(ops, &block.statements, 0, n, program);
    }

    /// The code of a whole program: its blocks one after the other.
    pub fn emit_program(&mut self, program: &HirAst) -> (ops: Vec<OpCode>)
        requires
            old(self).idle(),
            forall|b: int| 0 <= b < program.blocks@.len() ==> stmts_ok(#[trigger] program.blocks@[b].statements@, *program, false),
            blocks_len(program.blocks@, *program) <= usize::MAX,
        ensures
            final(self).idle(),
            ops@ == blocks_code(program.blocks@, 0, *program),
            ops@.len() == blocks_len(program.blocks@, *program),
            jumps_within(ops@, 0, ops@.len() as int),
    {
        let mut ops: Vec<OpCode> = Vec::new();
        let m = program.blocks.len();
        let mut i: usize = 0;
        assert(program.blocks@.subrange(0, m as int) =~= program.blocks@);
        while i < m
            invariant
                m == program.blocks@.len(),
                0 <= i <= m,
                self.idle(),
                forall|b: int| 0 <= b < program.blocks@.len() ==> stmts_ok(#[trigger] program.blocks@[b].statements@, *program, false),
                ops@ + blocks_code(program.blocks@.subrange(i as int, m as int), ops@.len() as int, *program)
                    == blocks_code(program.blocks@, 0, *program),
                ops@.len() + blocks_len(program.blocks@.subrange(i as int, m as int), *program)
                    == blocks_len(program.blocks@, *program),
                blocks_len(program.blocks@, *program) <= usize::MAX,
            decreases m - i,
        {
            let ghost before = ops@;
            let ghost sub = program.blocks@.subrange(i as int, m as int);
            assert(sub.drop_first() =~= program.blocks@.subrange(i + 1, m as int));
            assert(sub[0] == program.blocks@[i as int]);
            self.emit_block(&mut ops, &program.blocks[i], program);
            assert(ops@ + blocks_code(program.blocks@.subrange(i + 1, m as int), ops@.len() as int, *program)
                =~= before + blocks_code(sub, before.len() as int, *program));
            i += 1;
        }
        assert(ops@ =~= ops@ + blocks_code(program.blocks@.subrange(m as int, m as int), ops@.len() as int, *program));
        proof {
            lemma_program_code(program.blocks@, 0, *program);
        }
        ops
    }
}

/// The length of a statement list is that of all but its last statement
/// plus that of the last.
pub(crate) proof fn lemma_stmts_len_last(ss: Seq<HirStmt>, p: HirAst, slot: Option<u32>)
    requires
        ss.len() > 0,
    ensures
        stmts_len(ss, p, slot) == stmts_len(ss.drop_last(), p, slot) + stmt_len(ss.last(), p, slot),
    decreases ss.len(),
{
    if ss.len() == 1 {
        assert(ss.drop_last() =~= Seq::<HirStmt>::empty());
        assert(ss.drop_first() =~= Seq::<HirStmt>::empty());
    } else {
        lemma_stmts_len_last(ss.drop_first(), p, slot);
        assert(ss.drop_first().drop_last() =~= ss.drop_last().drop_first());
        assert(ss.drop_last()[0] == ss[0]);
        assert(ss.drop_first().last() == ss.last());
    }
}

/// The condition of a loop body's `break` guard.
pub(crate) open spec fn guard_cond(body: HirBlock) -> HirExpression {
    match body.statements@[0] {
        HirStmt::If { arms, .. } => arms@[0].0,
        _ => HirExpression::Number(0),
    }
}

/// The value of a loop body's guarding `break`.
pub(crate) open spec fn guard_value(body: HirBlock) -> Option<HirExpression> {
    match body.statements@[0] {
        HirStmt::If { arms, .. } => match arms@[0].1.statements@[0] {
            HirStmt::Break { value } => value,
            _ => None,
        },
        _ => None,
    }
}

/// Where a guarded loop body's `break` handler starts.
pub(crate) open spec fn guard_handler_at(body: HirBlock, start: int, slot: Option<u32>, p: HirAst) -> int {
    start + expr_len(guard_cond(body), p) + 1 + stmts_len(body.statements@.drop_first(), p, slot) + 1
}

/// The instruction after a guarded loop body.
pub(crate) open spec fn guard_end(body: HirBlock, start: int, slot: Option<u32>, p: HirAst) -> int {
    guard_handler_at(body, start, slot, p) + match guard_value(body) {
        Some(v) => expr_len(v, p) + slot_count(slot),
        None => 0,
    } + 1
}

/// Where `continue` jumps in a guarded loop body: the increment when the
/// body ends with an assignment, the start otherwise.
pub(crate) open spec fn guard_continue_at(body: HirBlock, start: int, slot: Option<u32>, p: HirAst) -> int {
    let rest = body.statements@.drop_first();
    if rest.len() > 0 && rest.last() is Assign {
        start + expr_len(guard_cond(body), p) + 1 + stmts_len(rest.drop_last(), p, slot)
    } else {
        start
    }
}

/// The innermost loop around the rest of a guarded loop body.
pub(crate) open spec fn guard_ctx(body: HirBlock, start: int, slot: Option<u32>, p: HirAst) -> LoopInfo {
    LoopInfo {
        start: start as usize,
        end: guard_end(body, start, slot, p) as usize,
        break_slot: slot,
        continue_target: guard_continue_at(body, start, slot, p) as usize,
    }
}

/// The code of a loop body guarded by `if (cond) { break [value]; }`, piece
/// by piece: the test, the rest of the body with the jump back, the break
/// handler, and the final jump and load.
pub(crate) proof fn lemma_guarded_body_code(body: HirBlock, start: int, slot: Option<u32>, p: HirAst)
    requires
        is_guarded_loop(body),
    ensures
        loop_body_code(body, start, slot, p) == (expr_code(guard_cond(body), start, p) + seq![
            OpCode::JmpIfTrue(guard_handler_at(body, start, slot, p) as usize),
        ]) + (stmts_code(
            body.statements@.drop_first(),
            start + expr_len(guard_cond(body), p) + 1,
            Some(guard_ctx(body, start, slot, p)),
            p,
        ) + seq![OpCode::Jmp(start as usize)]) + match guard_value(body) {
            Some(v) => expr_code(v, guard_handler_at(body, start, slot, p), p) + store_slot(slot),
            None => Seq::empty(),
        } + (seq![OpCode::Jmp(guard_end(body, start, slot, p) as usize)] + load_slot(slot)),
        loop_body_len(body, p, slot) == guard_end(body, start, slot, p) + slot_count(slot) - start,
{
    let a = expr_code(guard_cond(body), start, p);
    let b = seq![OpCode::JmpIfTrue(guard_handler_at(body, start, slot, p) as usize)];
    let c = stmts_code(
        body.statements@.drop_first(),
        start + expr_len(guard_cond(body), p) + 1,
        Some(guard_ctx(body, start, slot, p)),
        p,
    );
    let d = seq![OpCode::Jmp(start as usize)];
    let e = match guard_value(body) {
        Some(v) => expr_code(v, guard_handler_at(body, start, slot, p), p) + store_slot(slot),
        None => Seq::empty(),
    };
    let f = seq![OpCode::Jmp(guard_end(body, start, slot, p) as usize)];
    let g = load_slot(slot);
    assert(a + b + c + d + e + f + g =~= (a + b) + (c + d) + e + (f + g));
}

/// What a guarded loop body needs to be compiled: its condition, its break
/// value and the rest of its statements can be.
pub(crate) proof fn lemma_guard_ok(body: HirBlock, p: HirAst)
    requires
        is_guarded_loop(body),
        stmts_ok(body.statements@, p, true),
    ensures
        expr_ok(guard_cond(body), p),
        guard_value(body) matches Some(v) ==> expr_ok(v, p),
        stmts_ok(body.statements@.drop_first(), p, true),
{
    let ss = body.statements@;
    assert(stmt_ok(ss[0], p, true));
    match ss[0] {
        HirStmt::If { arms, .. } => {
            assert(expr_ok(arms@[0].0, p) && stmts_ok(arms@[0].1.statements@, p, true));
            assert(stmt_ok(arms@[0].1.statements@[0], p, true));
        },
        _ => {},
    }
    assert forall|q: int| 0 <= q < ss.len() - 1 implies stmt_ok(#[trigger] ss.drop_first()[q], p, true) by {
        assert(ss.drop_first()[q] == ss[q + 1]);
    }
}

} // verus!
