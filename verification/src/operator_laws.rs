//! What becomes of a binary operator on its way from source to bytecode:
//! parsing, lowering and emission each keep the operator written in the
//! source, told by its symbol.
use vstd::prelude::*;
use crate::span::{Span, Spanned};
use crate::cst::{CstBinaryOp, CstExpr, CstUnaryOp, CstComposeOp};
use crate::ast::{BinaryOp, UnaryOp, Expression};
use crate::pratt::{
    OperatorKind, Precedence, ExprToken, spec_operator_precedence, spec_binary_op, spec_parse_expr,
    spec_parse_prefix, spec_climb, spec_infix_node, spec_next_level, spec_prefix_op,
};
use crate::lowering::{spec_lower_binary, spec_lower_unary, expr_lowered};
use crate::emit_spec::{binary_op_code, expr_code};
use crate::hir::{HirAst, HirExpression};
use crate::opcode::OpCode;

verus! {

/// The source symbol of an operator token.
pub open spec fn operator_symbol(k: OperatorKind) -> Seq<char> {
    match k {
        OperatorKind::PipeForward => seq!['|', '>'],
        OperatorKind::PipeReverse => seq!['<', '|'],
        OperatorKind::Or => seq!['|', '|'],
        OperatorKind::And => seq!['&', '&'],
        OperatorKind::Eq => seq!['=', '='],
        OperatorKind::Ne => seq!['!', '='],
        OperatorKind::Gt => seq!['>'],
        OperatorKind::Lt => seq!['<'],
        OperatorKind::Ge => seq!['>', '='],
        OperatorKind::Le => seq!['<', '='],
        OperatorKind::Add => seq!['+'],
        OperatorKind::Sub => seq!['-'],
        OperatorKind::Mul => seq!['*'],
        OperatorKind::Div => seq!['/'],
        OperatorKind::Modulo => seq!['%'],
        OperatorKind::Pow => seq!['*', '*'],
        OperatorKind::Not => seq!['!'],
        OperatorKind::Neg => seq!['-'],
        OperatorKind::Increment => seq!['+', '+'],
        OperatorKind::Decrement => seq!['-', '-'],
    }
}

/// The source symbol of a CST binary operator.
pub open spec fn cst_binary_symbol(op: CstBinaryOp) -> Seq<char> {
    match op {
        CstBinaryOp::Add => seq!['+'],
        CstBinaryOp::Sub => seq!['-'],
        CstBinaryOp::Mul => seq!['*'],
        CstBinaryOp::Div => seq!['/'],
        CstBinaryOp::Mod => seq!['%'],
        CstBinaryOp::Pow => seq!['*', '*'],
        CstBinaryOp::Eq => seq!['=', '='],
        CstBinaryOp::Ne => seq!['!', '='],
        CstBinaryOp::Gt => seq!['>'],
        CstBinaryOp::Lt => seq!['<'],
        CstBinaryOp::Ge => seq!['>', '='],
        CstBinaryOp::Le => seq!['<', '='],
        CstBinaryOp::And => seq!['&', '&'],
        CstBinaryOp::Or => seq!['|', '|'],
    }
}

/// The source symbol of an AST binary operator.
pub open spec fn binary_symbol(op: BinaryOp) -> Seq<char> {
    match op {
        BinaryOp::Add => seq!['+'],
        BinaryOp::Sub => seq!['-'],
        BinaryOp::Mul => seq!['*'],
        BinaryOp::Div => seq!['/'],
        BinaryOp::Mod => seq!['%'],
        BinaryOp::Pow => seq!['*', '*'],
        BinaryOp::Eq => seq!['=', '='],
        BinaryOp::Ne => seq!['!', '='],
        BinaryOp::Gt => seq!['>'],
        BinaryOp::Lt => seq!['<'],
        BinaryOp::Ge => seq!['>', '='],
        BinaryOp::Le => seq!['<', '='],
        BinaryOp::And => seq!['&', '&'],
        BinaryOp::Or => seq!['|', '|'],
    }
}

/// The binary operation an instruction computes, if it computes one: the
/// number-only forms of `+`, `-` and `*` compute the same operation as the
/// general ones.
pub open spec fn computed_operator(op: OpCode) -> Option<BinaryOp> {
    match op {
        OpCode::Add | OpCode::AddNum => Some(BinaryOp::Add),
        OpCode::Sub | OpCode::SubNum => Some(BinaryOp::Sub),
        OpCode::Mul | OpCode::MulNum => Some(BinaryOp::Mul),
        OpCode::Div => Some(BinaryOp::Div),
        OpCode::Mod => Some(BinaryOp::Mod),
        OpCode::Pow => Some(BinaryOp::Pow),
        OpCode::Eq => Some(BinaryOp::Eq),
        OpCode::Ne => Some(BinaryOp::Ne),
        OpCode::Gt => Some(BinaryOp::Gt),
        OpCode::Lt => Some(BinaryOp::Lt),
        OpCode::Ge => Some(BinaryOp::Ge),
        OpCode::Le => Some(BinaryOp::Le),
        OpCode::And => Some(BinaryOp::And),
        OpCode::Or => Some(BinaryOp::Or),
        _ => None,
    }
}

/// An infix operator token that builds a binary operation: neither a pipe
/// nor a prefix operator.
pub open spec fn is_binary_token(k: OperatorKind) -> bool {
    spec_operator_precedence(k) != Precedence::Prefix && k != OperatorKind::PipeForward && k
        != OperatorKind::PipeReverse
}

/// Operators with different symbols are different operators: the symbol
/// tells each binary operator apart.
pub proof fn lemma_symbols_distinguish(a: BinaryOp, b: BinaryOp, c: CstBinaryOp, d: CstBinaryOp)
    ensures
        binary_symbol(a) == binary_symbol(b) ==> a == b,
        cst_binary_symbol(c) == cst_binary_symbol(d) ==> c == d,
{
    if binary_symbol(a) == binary_symbol(b) {
        assert(binary_symbol(a).len() == binary_symbol(b).len());
        assert(binary_symbol(a)[0] == binary_symbol(b)[0]);
        if binary_symbol(a).len() == 2 {
            assert(binary_symbol(a)[1] == binary_symbol(b)[1]);
        }
    }
    if cst_binary_symbol(c) == cst_binary_symbol(d) {
        assert(cst_binary_symbol(c).len() == cst_binary_symbol(d).len());
        assert(cst_binary_symbol(c)[0] == cst_binary_symbol(d)[0]);
        if cst_binary_symbol(c).len() == 2 {
            assert(cst_binary_symbol(c)[1] == cst_binary_symbol(d)[1]);
        }
    }
}

/// Parsing keeps the operator: a binary operator token becomes the CST
/// operator with the same symbol, so `<` stays `<` and `%` stays `%`.
pub proof fn lemma_parse_keeps_operator(k: OperatorKind)
    requires
        is_binary_token(k),
    ensures
        cst_binary_symbol(spec_binary_op(k)) == operator_symbol(k),
{
}

/// Parsing `a op b`, of two atoms and a binary operator token, gives an infix
/// node between `a` and `b` whose operator has the token's symbol.
pub proof fn lemma_parse_infix_operator(a: Spanned<CstExpr>, k: OperatorKind, s: Span, b: Spanned<CstExpr>, id: u32)
    requires
        is_binary_token(k),
        id + 2 <= u32::MAX,
    ensures
        spec_parse_expr(
            seq![ExprToken::Atom(a), ExprToken::Operator { kind: k, span: s }, ExprToken::Atom(b)].reverse(),
            Precedence::Pipe,
            id,
        ) matches Ok((e, rest, _)) && rest.len() == 0 && (e.node matches CstExpr::Infix { lhs, op, rhs }
            && *lhs == a && *rhs == b && cst_binary_symbol(op.node) == operator_symbol(k)),
{
    let t3 = seq![ExprToken::Atom(a), ExprToken::Operator { kind: k, span: s }, ExprToken::Atom(b)];
    let toks = t3.reverse();
    let t2 = toks.drop_last();
    let t1 = t2.drop_last();
    let t0 = t1.drop_last();
    assert(toks.last() == ExprToken::Atom(a));
    assert(t2.last() == (ExprToken::Operator { kind: k, span: s }));
    assert(t1.last() == ExprToken::Atom(b));
    assert(t0 =~= Seq::<ExprToken>::empty());
    let p = spec_operator_precedence(k);
    let r = if p == Precedence::Pow { p } else { spec_next_level(p) };
    assert(spec_parse_prefix(toks, id) == Ok::<(Spanned<CstExpr>, Seq<ExprToken>, u32), (crate::pratt::PrattError, u32)>((a, t2, id)));
    assert(spec_parse_prefix(t1, id) == Ok::<(Spanned<CstExpr>, Seq<ExprToken>, u32), (crate::pratt::PrattError, u32)>((b, t0, id)));
    assert(spec_climb(b, t0, r, id) == Ok::<(Spanned<CstExpr>, Seq<ExprToken>, u32), (crate::pratt::PrattError, u32)>((b, t0, id)));
    assert(spec_parse_expr(t1, r, id) == Ok::<(Spanned<CstExpr>, Seq<ExprToken>, u32), (crate::pratt::PrattError, u32)>((b, t0, id)));
    let n = spec_infix_node(a, k, s, b, id);
    assert(spec_climb(n, t0, Precedence::Pipe, (id + 2) as u32) == Ok::<(Spanned<CstExpr>, Seq<ExprToken>, u32), (crate::pratt::PrattError, u32)>((n, t0, (id + 2) as u32)));
    assert(spec_climb(a, t2, Precedence::Pipe, id) == Ok::<(Spanned<CstExpr>, Seq<ExprToken>, u32), (crate::pratt::PrattError, u32)>((n, t0, (id + 2) as u32)));
}

/// Lowering keeps the operator: a CST binary operator lowers to the AST
/// operator with the same symbol, so `!=` stays `!=`.
pub proof fn lemma_lowering_keeps_operator(op: CstBinaryOp)
    ensures
        binary_symbol(spec_lower_binary(op)) == cst_binary_symbol(op),
{
}

/// A lowered infix expression has the operator of the same symbol as the
/// CST one.
pub proof fn lemma_lowered_infix_operator(c: Spanned<CstExpr>, a: Expression)
    requires
        c.node is Infix,
        expr_lowered(c, a),
    ensures
        c.node matches CstExpr::Infix { op, .. } && (a matches Expression::Infix { op: o, .. }
            && binary_symbol(o) == cst_binary_symbol(op.node)),
{
}

/// Emission keeps the operator: the instruction of a binary operator
/// computes that very operator, whether or not both operands are numbers.
pub proof fn lemma_emission_keeps_operator(op: BinaryOp, numeric: bool)
    ensures
        computed_operator(binary_op_code(op, numeric)) == Some(op),
{
}

/// The code of a binary expression ends with the instruction that computes
/// its operator, so `x % 2` ends with `Mod`.
pub proof fn lemma_binary_code_ends_with_operator(e: HirExpression, at: int, p: HirAst)
    requires
        e is Binary,
    ensures
        e matches HirExpression::Binary { operator, .. } && expr_code(e, at, p).len() > 0
            && computed_operator(expr_code(e, at, p).last()) == Some(operator),
{
}

/// From token to instruction: a binary operator token is parsed, lowered
/// and emitted as the operation its symbol names.
pub proof fn lemma_token_to_instruction(k: OperatorKind, numeric: bool)
    requires
        is_binary_token(k),
    ensures
        binary_symbol(spec_lower_binary(spec_binary_op(k))) == operator_symbol(k),
        computed_operator(binary_op_code(spec_lower_binary(spec_binary_op(k)), numeric)) == Some(
            spec_lower_binary(spec_binary_op(k)),
        ),
{
}

/// The source symbol of a CST prefix operator.
pub open spec fn cst_unary_symbol(op: CstUnaryOp) -> Seq<char> {
    match op {
        CstUnaryOp::Neg => seq!['-'],
        CstUnaryOp::Increment => seq!['+', '+'],
        CstUnaryOp::Decrement => seq!['-', '-'],
        CstUnaryOp::Not => seq!['!'],
    }
}

/// The source symbol of an AST prefix operator.
pub open spec fn unary_symbol(op: UnaryOp) -> Seq<char> {
    match op {
        UnaryOp::Neg => seq!['-'],
        UnaryOp::Increment => seq!['+', '+'],
        UnaryOp::Decrement => seq!['-', '-'],
        UnaryOp::Not => seq!['!'],
    }
}

/// The source symbol of a composition operator.
pub open spec fn compose_symbol(op: CstComposeOp) -> Seq<char> {
    match op {
        CstComposeOp::Forward => seq!['|', '>'],
        CstComposeOp::Reverse => seq!['<', '|'],
    }
}

/// Parsing keeps prefix operators: exactly the prefix tokens are prefix
/// operators, each the CST operator with the token's symbol.
pub proof fn lemma_parse_keeps_prefix_operator(k: OperatorKind)
    ensures
        spec_prefix_op(k) is Some <==> spec_operator_precedence(k) == Precedence::Prefix,
        spec_prefix_op(k) matches Some(op) ==> cst_unary_symbol(op) == operator_symbol(k),
{
}

/// Parsing keeps pipes: a pipe token joins its operands into a composition
/// whose operator has the token's symbol, and any other infix token into an
/// infix node.
pub proof fn lemma_parse_keeps_pipe(l: Spanned<CstExpr>, k: OperatorKind, s: Span, r: Spanned<CstExpr>, id: u32)
    requires
        spec_operator_precedence(k) != Precedence::Prefix,
    ensures
        (k == OperatorKind::PipeForward || k == OperatorKind::PipeReverse) ==> (spec_infix_node(l, k, s, r, id).node matches CstExpr::Compose { op, .. } && compose_symbol(op.node) == operator_symbol(k)),
        is_binary_token(k) ==> (spec_infix_node(l, k, s, r, id).node matches CstExpr::Infix { op, .. } && cst_binary_symbol(op.node) == operator_symbol(k)),
{
}

/// Lowering keeps prefix operators: a CST prefix operator lowers to the AST
/// operator with the same symbol.
pub proof fn lemma_lowering_keeps_prefix_operator(op: CstUnaryOp)
    ensures
        unary_symbol(spec_lower_unary(op)) == cst_unary_symbol(op),
{
}

/// The code of a negation ends with `Neg`, and that of a logical not with
/// `Not`.
pub proof fn lemma_unary_code_ends_with_operator(e: HirExpression, at: int, p: HirAst)
    requires
        e is Unary,
    ensures
        e matches HirExpression::Unary { operator, .. } && expr_code(e, at, p).len() > 0 && (
        operator == UnaryOp::Neg ==> expr_code(e, at, p).last() == OpCode::Neg) && (operator
            == UnaryOp::Not ==> expr_code(e, at, p).last() == OpCode::Not),
{
}

} // verus!
