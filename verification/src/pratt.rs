//! Precedence climbing for expressions.
//!
//! An expression arrives as a flat sequence of tokens: operators (with their
//! spans) and atoms (already built primaries with their postfix operators).
//! Prefix operators bind tightest; infix operators bind by precedence level,
//! left-associatively except `**`, which is right-associative. Every node the
//! parser builds takes fresh IDs from the generator: a prefix node takes one ID
//! for itself and then one for its operator; an infix node one for its
//! operator and then one for itself.
use vstd::prelude::*;
use crate::span::{Span, Spanned, CstId, CstIdGenerator, spec_merge};
use crate::cst::{CstExpr, CstUnaryOp, CstBinaryOp, CstComposeOp};

verus! {

/// Operator precedence levels, from loosest to tightest.
#[derive(Debug, Clone, Copy, PartialEq, Eq, Structural)]
pub enum Precedence {
    /// `|>` `<|`
    Pipe,
    /// `||`
    Or,
    /// `&&`
    And,
    /// `==` `!=` `<` `>` `<=` `>=`
    Comparison,
    /// `+` `-`
    Add,
    /// `*` `/` `%`
    Mul,
    /// `**` (right-associative)
    Pow,
    /// `!` `-` `++` `--`
    Prefix,
    /// invoke and call
    Postfix,
}

/// The numeric level of a precedence: 1 (loosest) to 9 (tightest).
pub open spec fn prec_level(p: Precedence) -> u8 {
    match p {
        Precedence::Pipe => 1,
        Precedence::Or => 2,
        Precedence::And => 3,
        Precedence::Comparison => 4,
        Precedence::Add => 5,
        Precedence::Mul => 6,
        Precedence::Pow => 7,
        Precedence::Prefix => 8,
        Precedence::Postfix => 9,
    }
}

/// The precedence one level tighter; `Postfix` is the tightest and maps to itself.
pub open spec fn spec_next_level(p: Precedence) -> Precedence {
    match p {
        Precedence::Pipe => Precedence::Or,
        Precedence::Or => Precedence::And,
        Precedence::And => Precedence::Comparison,
        Precedence::Comparison => Precedence::Add,
        Precedence::Add => Precedence::Mul,
        Precedence::Mul => Precedence::Pow,
        Precedence::Pow => Precedence::Prefix,
        Precedence::Prefix => Precedence::Postfix,
        Precedence::Postfix => Precedence::Postfix,
    }
}

/// The precedence of a level; levels outside 1..=9 give the loosest.
pub open spec fn spec_from_level(value: u8) -> Precedence {
    if value == 2 {
        Precedence::Or
    } else if value == 3 {
        Precedence::And
    } else if value == 4 {
        Precedence::Comparison
    } else if value == 5 {
        Precedence::Add
    } else if value == 6 {
        Precedence::Mul
    } else if value == 7 {
        Precedence::Pow
    } else if value == 8 {
        Precedence::Prefix
    } else if value == 9 {
        Precedence::Postfix
    } else {
        Precedence::Pipe
    }
}

impl Precedence {
    /// The numeric level: 1 (loosest) to 9 (tightest).
    pub fn level(self) -> (l: u8)
        ensures
            l == prec_level(self),
    {
        match self {
            Precedence::Pipe => 1,
            Precedence::Or => 2,
            Precedence::And => 3,
            Precedence::Comparison => 4,
            Precedence::Add => 5,
            Precedence::Mul => 6,
            Precedence::Pow => 7,
            Precedence::Prefix => 8,
            Precedence::Postfix => 9,
        }
    }

    /// Only `**` is right-associative.
    pub fn is_right_associative(&self) -> (b: bool)
        ensures
            b == (*self == Precedence::Pow),
    {
        match self {
            Precedence::Pow => true,
            _ => false,
        }
    }

    /// The next tighter level, used for the right operand of a left-associative operator.
    pub fn next_level(self) -> (p: Self)
        ensures
            p == spec_next_level(self),
    {
        match self {
            Precedence::Pipe => Precedence::Or,
            Precedence::Or => Precedence::And,
            Precedence::And => Precedence::Comparison,
            Precedence::Comparison => Precedence::Add,
            Precedence::Add => Precedence::Mul,
            Precedence::Mul => Precedence::Pow,
            Precedence::Pow => Precedence::Prefix,
            Precedence::Prefix => Precedence::Postfix,
            Precedence::Postfix => Precedence::Postfix,
        }
    }

    /// The precedence of a numeric level; unknown levels give the loosest.
    pub fn from_level(value: u8) -> (p: Self)
        ensures
            p == spec_from_level(value),
    {
        if value == 2 {
            Precedence::Or
        } else if value == 3 {
            Precedence::And
        } else if value == 4 {
            Precedence::Comparison
        } else if value == 5 {
            Precedence::Add
        } else if value == 6 {
            Precedence::Mul
        } else if value == 7 {
            Precedence::Pow
        } else if value == 8 {
            Precedence::Prefix
        } else if value == 9 {
            Precedence::Postfix
        } else {
            Precedence::Pipe
        }
    }
}

/// Going one level tighter never goes looser, and goes strictly tighter below `Postfix`.
pub proof fn lemma_next_level_tighter(p: Precedence)
    ensures
        prec_level(spec_next_level(p)) >= prec_level(p),
        p != Precedence::Postfix ==> prec_level(spec_next_level(p)) == prec_level(p) + 1,
{
}

/// Levels and precedences correspond one to one.
pub proof fn lemma_level_roundtrip(p: Precedence)
    ensures
        spec_from_level(prec_level(p)) == p,
{
}

/// The operators that appear between the atoms of an expression.
#[derive(Debug, Clone, Copy, PartialEq, Eq, Structural)]
pub enum OperatorKind {
    PipeForward,
    PipeReverse,
    Or,
    And,
    Eq,
    Ne,
    Gt,
    Lt,
    Ge,
    Le,
    Add,
    Sub,
    Mul,
    Div,
    Modulo,
    Pow,
    Not,
    Neg,
    Increment,
    Decrement,
}

/// The precedence of an operator.
pub open spec fn spec_operator_precedence(k: OperatorKind) -> Precedence {
    match k {
        OperatorKind::PipeForward | OperatorKind::PipeReverse => Precedence::Pipe,
        OperatorKind::Or => Precedence::Or,
        OperatorKind::And => Precedence::And,
        OperatorKind::Eq | OperatorKind::Ne | OperatorKind::Gt | OperatorKind::Lt
        | OperatorKind::Ge | OperatorKind::Le => Precedence::Comparison,
        OperatorKind::Add | OperatorKind::Sub => Precedence::Add,
        OperatorKind::Mul | OperatorKind::Div | OperatorKind::Modulo => Precedence::Mul,
        OperatorKind::Pow => Precedence::Pow,
        OperatorKind::Not | OperatorKind::Neg | OperatorKind::Increment
        | OperatorKind::Decrement => Precedence::Prefix,
    }
}

/// The precedence of an operator.
pub fn operator_precedence(k: OperatorKind) -> (p: Precedence)
    ensures
        p == spec_operator_precedence(k),
{
    match k {
        OperatorKind::PipeForward | OperatorKind::PipeReverse => Precedence::Pipe,
        OperatorKind::Or => Precedence::Or,
        OperatorKind::And => Precedence::And,
        OperatorKind::Eq | OperatorKind::Ne | OperatorKind::Gt | OperatorKind::Lt
        | OperatorKind::Ge | OperatorKind::Le => Precedence::Comparison,
        OperatorKind::Add | OperatorKind::Sub => Precedence::Add,
        OperatorKind::Mul | OperatorKind::Div | OperatorKind::Modulo => Precedence::Mul,
        OperatorKind::Pow => Precedence::Pow,
        OperatorKind::Not | OperatorKind::Neg | OperatorKind::Increment
        | OperatorKind::Decrement => Precedence::Prefix,
    }
}

/// A prefix operator, if `k` is one.
pub open spec fn spec_prefix_op(k: OperatorKind) -> Option<CstUnaryOp> {
    match k {
        OperatorKind::Neg => Some(CstUnaryOp::Neg),
        OperatorKind::Not => Some(CstUnaryOp::Not),
        OperatorKind::Increment => Some(CstUnaryOp::Increment),
        OperatorKind::Decrement => Some(CstUnaryOp::Decrement),
        _ => None,
    }
}

/// The binary operator of an infix operator that is not a pipe.
pub open spec fn spec_binary_op(k: OperatorKind) -> CstBinaryOp {
    match k {
        OperatorKind::Add => CstBinaryOp::Add,
        OperatorKind::Sub => CstBinaryOp::Sub,
        OperatorKind::Mul => CstBinaryOp::Mul,
        OperatorKind::Div => CstBinaryOp::Div,
        OperatorKind::Modulo => CstBinaryOp::Mod,
        OperatorKind::Pow => CstBinaryOp::Pow,
        OperatorKind::And => CstBinaryOp::And,
        OperatorKind::Or => CstBinaryOp::Or,
        OperatorKind::Eq => CstBinaryOp::Eq,
        OperatorKind::Ne => CstBinaryOp::Ne,
        OperatorKind::Gt => CstBinaryOp::Gt,
        OperatorKind::Lt => CstBinaryOp::Lt,
        OperatorKind::Ge => CstBinaryOp::Ge,
        _ => CstBinaryOp::Le,
    }
}

/// One token of a flat expression.
#[derive(Debug)]
pub enum ExprToken {
    Operator { kind: OperatorKind, span: Span },
    Atom(Spanned<CstExpr>),
}

/// Why an expression could not be parsed.
#[derive(Debug, Clone, Copy, PartialEq, Eq, Structural)]
pub enum PrattError {
    /// The tokens ran out where an operand was expected.
    UnexpectedEnd,
    /// An operator that is not a prefix operator stood where an operand was expected.
    ExpectedAtom(Span),
}

/// The outcome of parsing from a token stack: on success the expression, the
/// tokens left (top of the stack last) and the next free ID; on failure the
/// error and the next free ID.
pub type ParseOutcome = Result<(Spanned<CstExpr>, Seq<ExprToken>, u32), (PrattError, u32)>;

/// The infix node for operator `k` at `span` between `lhs` and `rhs`, whose
/// operator takes ID `id` and whose node takes `id + 1`.
pub open spec fn spec_infix_node(
    lhs: Spanned<CstExpr>,
    k: OperatorKind,
    span: Span,
    rhs: Spanned<CstExpr>,
    id: u32,
) -> Spanned<CstExpr> {
    let combined = spec_merge(spec_merge(lhs.span, span), rhs.span);
    let node = if k == OperatorKind::PipeForward || k == OperatorKind::PipeReverse {
        CstExpr::Compose {
            lhs: Box::new(lhs),
            op: Spanned {
                id: CstId(id),
                span,
                node: if k == OperatorKind::PipeForward {
                    CstComposeOp::Forward
                } else {
                    CstComposeOp::Reverse
                },
            },
            rhs: Box::new(rhs),
        }
    } else {
        CstExpr::Infix {
            lhs: Box::new(lhs),
            op: Spanned { id: CstId(id), span, node: spec_binary_op(k) },
            rhs: Box::new(rhs),
        }
    };
    Spanned { id: CstId((id + 1) as u32), span: combined, node }
}

/// Parse an operand: prefix operators applied to an atom. `toks` is a stack
/// whose top (the next token) is last.
pub open spec fn spec_parse_prefix(toks: Seq<ExprToken>, id: u32) -> ParseOutcome
    decreases toks.len(), 0nat,
{
    if toks.len() == 0 {
        Err((PrattError::UnexpectedEnd, id))
    } else {
        match toks.last() {
            ExprToken::Atom(e) => Ok((e, toks.drop_last(), id)),
            ExprToken::Operator { kind, span } => match spec_prefix_op(kind) {
                Some(op) => match spec_parse_prefix(toks.drop_last(), id) {
                    Ok((rhs, rest, id1)) => Ok(
                        (
                            Spanned {
                                id: CstId(id1),
                                span: spec_merge(span, rhs.span),
                                node: CstExpr::Prefix {
                                    op: Spanned { id: CstId((id1 + 1) as u32), span, node: op },
                                    rhs: Box::new(rhs),
                                },
                            },
                            rest,
                            (id1 + 2) as u32,
                        ),
                    ),
                    Err(e) => Err(e),
                },
                None => Err((PrattError::ExpectedAtom(span), id)),
            },
        }
    }
}

/// Parse an expression whose infix operators are all at `min` or tighter.
pub open spec fn spec_parse_expr(toks: Seq<ExprToken>, min: Precedence, id: u32) -> ParseOutcome
    decreases toks.len(), 1nat,
{
    match spec_parse_prefix(toks, id) {
        Ok((lhs, rest, id1)) => if rest.len() < toks.len() {
            spec_climb(lhs, rest, min, id1)
        } else {
            Err((PrattError::UnexpectedEnd, id1))
        },
        Err(e) => Err(e),
    }
}

/// Extend `lhs` with the infix operators at `min` or tighter that follow it.
pub open spec fn spec_climb(lhs: Spanned<CstExpr>, toks: Seq<ExprToken>, min: Precedence, id: u32) -> ParseOutcome
    decreases toks.len(), 2nat,
{
    if toks.len() == 0 {
        Ok((lhs, toks, id))
    } else {
        match toks.last() {
            ExprToken::Atom(_) => Ok((lhs, toks, id)),
            ExprToken::Operator { kind, span } => {
                let p = spec_operator_precedence(kind);
                if p == Precedence::Prefix || prec_level(p) < prec_level(min) {
                    Ok((lhs, toks, id))
                } else {
                    let rhs_prec = if p == Precedence::Pow {
                        p
                    } else {
                        spec_next_level(p)
                    };
                    match spec_parse_expr(toks.drop_last(), rhs_prec, id) {
                        Ok((rhs, rest, id2)) => if rest.len() < toks.len() {
                            spec_climb(spec_infix_node(lhs, kind, span, rhs, id2), rest, min, (id2 + 2) as u32)
                        } else {
                            Err((PrattError::UnexpectedEnd, id2))
                        },
                        Err(e) => Err(e),
                    }
                }
            },
        }
    }
}

/// Climbing stops only where the expression cannot go on: at the end of the
/// tokens, at an atom, or at an operator that is a prefix operator or binds
/// looser than `min`.
pub open spec fn stops_before(rest: Seq<ExprToken>, min: Precedence) -> bool {
    rest.len() == 0 || match rest.last() {
        ExprToken::Atom(_) => true,
        ExprToken::Operator { kind, .. } => spec_operator_precedence(kind) == Precedence::Prefix
            || prec_level(spec_operator_precedence(kind)) < prec_level(min),
    }
}

/// Precedence climbing takes every operator it can: what a successful climb
/// leaves starts where the expression cannot go on.
pub proof fn lemma_climb_stops(lhs: Spanned<CstExpr>, toks: Seq<ExprToken>, min: Precedence, id: u32)
    ensures
        spec_climb(lhs, toks, min, id) matches Ok((_, rest, _)) ==> stops_before(rest, min),
    decreases toks.len(),
{
    if toks.len() > 0 {
        match toks.last() {
            ExprToken::Atom(_) => {},
            ExprToken::Operator { kind, span } => {
                let p = spec_operator_precedence(kind);
                if !(p == Precedence::Prefix || prec_level(p) < prec_level(min)) {
                    let rhs_prec = if p == Precedence::Pow {
                        p
                    } else {
                        spec_next_level(p)
                    };
                    match spec_parse_expr(toks.drop_last(), rhs_prec, id) {
                        Ok((rhs, rest, id2)) => {
                            if rest.len() < toks.len() {
                                lemma_climb_stops(
                                    spec_infix_node(lhs, kind, span, rhs, id2),
                                    rest,
                                    min,
                                    (id2 + 2) as u32,
                                );
                            }
                        },
                        Err(_) => {},
                    }
                }
            },
        }
    }
}

/// A successful parse of an expression at `min` consumes the longest run of
/// tokens it can: what it leaves starts where the expression cannot go on.
/// At the loosest level, the whole expression, this leaves nothing, an atom,
/// or a prefix operator.
pub proof fn lemma_parse_stops(toks: Seq<ExprToken>, min: Precedence, id: u32)
    ensures
        spec_parse_expr(toks, min, id) matches Ok((_, rest, _)) ==> stops_before(rest, min),
        spec_parse_expr(toks, Precedence::Pipe, id) matches Ok((_, rest, _)) ==> rest.len() == 0
            || rest.last() is Atom || (rest.last() matches ExprToken::Operator { kind, .. }
            && spec_operator_precedence(kind) == Precedence::Prefix),
{
    match spec_parse_prefix(toks, id) {
        Ok((lhs, rest, id1)) => {
            if rest.len() < toks.len() {
                lemma_climb_stops(lhs, rest, min, id1);
                lemma_climb_stops(lhs, rest, Precedence::Pipe, id1);
            }
        },
        Err(_) => {},
    }
}

/// Two infix operators in a row group to the left when the second binds
/// looser than the first, or as tightly and the first is not `**`; else
/// they group to the right.
pub open spec fn groups_left(k1: OperatorKind, k2: OperatorKind) -> bool {
    let p1 = spec_operator_precedence(k1);
    let p2 = spec_operator_precedence(k2);
    prec_level(p2) < prec_level(p1) || (p1 == p2 && p1 != Precedence::Pow)
}

/// Precedence and associativity: `a op1 b op2 c`, of three atoms and two
/// infix operators, parses as `(a op1 b) op2 c` when the operators group to
/// the left and as `a op1 (b op2 c)` otherwise; so `-` is left-associative,
/// `**` right-associative, and `*` binds tighter than `+`. Nothing is left
/// over, and four IDs are taken.
pub proof fn lemma_two_operators(
    a: Spanned<CstExpr>,
    k1: OperatorKind,
    s1: Span,
    b: Spanned<CstExpr>,
    k2: OperatorKind,
    s2: Span,
    c: Spanned<CstExpr>,
    id: u32,
)
    requires
        spec_operator_precedence(k1) != Precedence::Prefix,
        spec_operator_precedence(k2) != Precedence::Prefix,
        id + 4 <= u32::MAX,
    ensures
        ({
            let toks = seq![
                ExprToken::Atom(a),
                ExprToken::Operator { kind: k1, span: s1 },
                ExprToken::Atom(b),
                ExprToken::Operator { kind: k2, span: s2 },
                ExprToken::Atom(c),
            ].reverse();
            spec_parse_expr(toks, Precedence::Pipe, id) == if groups_left(k1, k2) {
                Ok::<(Spanned<CstExpr>, Seq<ExprToken>, u32), (PrattError, u32)>(
                    (
                        spec_infix_node(spec_infix_node(a, k1, s1, b, id), k2, s2, c, (id + 2) as u32),
                        Seq::<ExprToken>::empty(),
                        (id + 4) as u32,
                    ),
                )
            } else {
                Ok::<(Spanned<CstExpr>, Seq<ExprToken>, u32), (PrattError, u32)>(
                    (
                        spec_infix_node(a, k1, s1, spec_infix_node(b, k2, s2, c, id), (id + 2) as u32),
                        Seq::<ExprToken>::empty(),
                        (id + 4) as u32,
                    ),
                )
            }
        }),
{
    let t5 = seq![
        ExprToken::Atom(a),
        ExprToken::Operator { kind: k1, span: s1 },
        ExprToken::Atom(b),
        ExprToken::Operator { kind: k2, span: s2 },
        ExprToken::Atom(c),
    ];
    let toks = t5.reverse();
    let t4 = toks.drop_last();
    let t3 = t4.drop_last();
    let t2 = t3.drop_last();
    let t1 = t2.drop_last();
    let t0 = t1.drop_last();
    assert(toks.last() == ExprToken::Atom(a));
    assert(t4.last() == (ExprToken::Operator { kind: k1, span: s1 }));
    assert(t3.last() == ExprToken::Atom(b));
    assert(t2.last() == (ExprToken::Operator { kind: k2, span: s2 }));
    assert(t1.last() == ExprToken::Atom(c));
    assert(t0 =~= Seq::<ExprToken>::empty());
    assert(spec_parse_prefix(toks, id) == Ok::<(Spanned<CstExpr>, Seq<ExprToken>, u32), (PrattError, u32)>((a, t4, id)));
    assert(spec_parse_prefix(t3, id) == Ok::<(Spanned<CstExpr>, Seq<ExprToken>, u32), (PrattError, u32)>((b, t2, id)));
    assert(spec_parse_prefix(t1, id) == Ok::<(Spanned<CstExpr>, Seq<ExprToken>, u32), (PrattError, u32)>((c, t0, id)));
    assert(spec_parse_prefix(t1, (id + 2) as u32) == Ok::<(Spanned<CstExpr>, Seq<ExprToken>, u32), (PrattError, u32)>((c, t0, (id + 2) as u32)));
    let p1 = spec_operator_precedence(k1);
    let p2 = spec_operator_precedence(k2);
    let r1 = if p1 == Precedence::Pow { p1 } else { spec_next_level(p1) };
    let r2 = if p2 == Precedence::Pow { p2 } else { spec_next_level(p2) };
    assert(spec_climb(c, t0, r2, id) == Ok::<(Spanned<CstExpr>, Seq<ExprToken>, u32), (PrattError, u32)>((c, t0, id)));
    assert(spec_climb(c, t0, r2, (id + 2) as u32) == Ok::<(Spanned<CstExpr>, Seq<ExprToken>, u32), (PrattError, u32)>((c, t0, (id + 2) as u32)));
    assert(spec_parse_expr(t1, r2, id) == Ok::<(Spanned<CstExpr>, Seq<ExprToken>, u32), (PrattError, u32)>((c, t0, id)));
    assert(spec_parse_expr(t1, r2, (id + 2) as u32) == Ok::<(Spanned<CstExpr>, Seq<ExprToken>, u32), (PrattError, u32)>((c, t0, (id + 2) as u32)));
    if groups_left(k1, k2) {
        assert(prec_level(p2) < prec_level(r1));
        assert(spec_climb(b, t2, r1, id) == Ok::<(Spanned<CstExpr>, Seq<ExprToken>, u32), (PrattError, u32)>((b, t2, id)));
        assert(spec_parse_expr(t3, r1, id) == Ok::<(Spanned<CstExpr>, Seq<ExprToken>, u32), (PrattError, u32)>((b, t2, id)));
        let n1 = spec_infix_node(a, k1, s1, b, id);
        let n2 = spec_infix_node(n1, k2, s2, c, (id + 2) as u32);
        assert(spec_climb(n2, t0, Precedence::Pipe, (id + 4) as u32) == Ok::<(Spanned<CstExpr>, Seq<ExprToken>, u32), (PrattError, u32)>((n2, t0, (id + 4) as u32)));
        assert(spec_climb(n1, t2, Precedence::Pipe, (id + 2) as u32) == Ok::<(Spanned<CstExpr>, Seq<ExprToken>, u32), (PrattError, u32)>((n2, t0, (id + 4) as u32)));
        assert(spec_climb(a, t4, Precedence::Pipe, id) == Ok::<(Spanned<CstExpr>, Seq<ExprToken>, u32), (PrattError, u32)>((n2, t0, (id + 4) as u32)));
    } else {
        assert(prec_level(p2) >= prec_level(r1));
        let n1 = spec_infix_node(b, k2, s2, c, id);
        let n2 = spec_infix_node(a, k1, s1, n1, (id + 2) as u32);
        assert(spec_climb(n1, t0, r1, (id + 2) as u32) == Ok::<(Spanned<CstExpr>, Seq<ExprToken>, u32), (PrattError, u32)>((n1, t0, (id + 2) as u32)));
        assert(spec_climb(b, t2, r1, id) == Ok::<(Spanned<CstExpr>, Seq<ExprToken>, u32), (PrattError, u32)>((n1, t0, (id + 2) as u32)));
        assert(spec_parse_expr(t3, r1, id) == Ok::<(Spanned<CstExpr>, Seq<ExprToken>, u32), (PrattError, u32)>((n1, t0, (id + 2) as u32)));
        assert(spec_climb(n2, t0, Precedence::Pipe, (id + 4) as u32) == Ok::<(Spanned<CstExpr>, Seq<ExprToken>, u32), (PrattError, u32)>((n2, t0, (id + 4) as u32)));
        assert(spec_climb(a, t4, Precedence::Pipe, id) == Ok::<(Spanned<CstExpr>, Seq<ExprToken>, u32), (PrattError, u32)>((n2, t0, (id + 4) as u32)));
    }
}

/// The executable result `r`, remaining stack `toks` and next ID `id` agree
/// with the outcome `o`.
pub open spec fn outcome_agrees(
    o: ParseOutcome,
    r: Result<Spanned<CstExpr>, PrattError>,
    toks: Seq<ExprToken>,
    id: u32,
) -> bool {
    match o {
        Ok((e, rest, id1)) => r == Ok::<Spanned<CstExpr>, PrattError>(e) && toks == rest && id
            == id1,
        Err((err, id1)) => r == Err::<Spanned<CstExpr>, PrattError>(err) && id == id1,
    }
}

/// A successful parse consumed at least one token and at most two IDs per
/// consumed token.
pub open spec fn consumed_within_budget(
    r: Result<Spanned<CstExpr>, PrattError>,
    toks0: Seq<ExprToken>,
    id0: u32,
    toks1: Seq<ExprToken>,
    id1: u32,
) -> bool {
    r is Ok ==> toks1.len() < toks0.len() && id1 + 2 * toks1.len() <= id0 + 2 * toks0.len()
}

/// The prefix operator of `k`, if it is one.
fn prefix_op(k: OperatorKind) -> (r: Option<CstUnaryOp>)
    ensures
        r == spec_prefix_op(k),
{
    match k {
        OperatorKind::Neg => Some(CstUnaryOp::Neg),
        OperatorKind::Not => Some(CstUnaryOp::Not),
        OperatorKind::Increment => Some(CstUnaryOp::Increment),
        OperatorKind::Decrement => Some(CstUnaryOp::Decrement),
        _ => None,
    }
}

/// The binary operator of an infix operator that is not a pipe.
fn binary_op(k: OperatorKind) -> (r: CstBinaryOp)
    ensures
        r == spec_binary_op(k),
{
    match k {
        OperatorKind::Add => CstBinaryOp::Add,
        OperatorKind::Sub => CstBinaryOp::Sub,
        OperatorKind::Mul => CstBinaryOp::Mul,
        OperatorKind::Div => CstBinaryOp::Div,
        OperatorKind::Modulo => CstBinaryOp::Mod,
        OperatorKind::Pow => CstBinaryOp::Pow,
        OperatorKind::And => CstBinaryOp::And,
        OperatorKind::Or => CstBinaryOp::Or,
        OperatorKind::Eq => CstBinaryOp::Eq,
        OperatorKind::Ne => CstBinaryOp::Ne,
        OperatorKind::Gt => CstBinaryOp::Gt,
        OperatorKind::Lt => CstBinaryOp::Lt,
        OperatorKind::Ge => CstBinaryOp::Ge,
        _ => CstBinaryOp::Le,
    }
}

/// Parse an operand from the token stack.
fn parse_prefix(toks: &mut Vec<ExprToken>, id_gen: &mut CstIdGenerator) -> (r: Result<
    Spanned<CstExpr>,
    PrattError,
>)
    requires
        old(id_gen).counter() + 2 * old(toks)@.len() < u32::MAX,
    ensures
        outcome_agrees(
            spec_parse_prefix(old(toks)@, old(id_gen).counter()),
            r,
            final(toks)@,
            final(id_gen).counter(),
        ),
        consumed_within_budget(r, old(toks)@, old(id_gen).counter(), final(toks)@, final(id_gen).counter()),
    decreases old(toks)@.len(),
{
    let ghost toks0 = toks@;
    match toks.pop() {
        None => Err(PrattError::UnexpectedEnd),
        Some(ExprToken::Atom(e)) => Ok(e),
        Some(ExprToken::Operator { kind, span }) => {
            match prefix_op(kind) {
                Some(op) => {
                    match parse_prefix(toks, id_gen) {
                        Ok(rhs) => {
                            let id = id_gen.next();
                            let op_id = id_gen.next();
                            let merged = span.merge(rhs.span);
                            Ok(
                                Spanned::new(
                                    id,
                                    merged,
                                    CstExpr::Prefix {
                                        op: Spanned::new(op_id, span, op),
                                        rhs: Box::new(rhs),
                                    },
                                ),
                            )
                        },
                        Err(e) => Err(e),
                    }
                },
                None => Err(PrattError::ExpectedAtom(span)),
            }
        },
    }
}

/// The operator on top of the stack, if it is an infix operator at `min` or tighter.
fn peek_infix(toks: &Vec<ExprToken>, min: Precedence) -> (r: Option<(OperatorKind, Span, Precedence)>)
    ensures
        match r {
            Some((k, sp, p)) => toks@.len() > 0 && toks@.last() == ExprToken::Operator {
                kind: k,
                span: sp,
            } && p == spec_operator_precedence(k) && p != Precedence::Prefix && prec_level(p)
                >= prec_level(min),
            None => toks@.len() == 0 || toks@.last() is Atom || (toks@.last() matches ExprToken::Operator {
                kind,
                ..
            } && (spec_operator_precedence(kind) == Precedence::Prefix || prec_level(
                spec_operator_precedence(kind),
            ) < prec_level(min))),
        },
{
    let n = toks.len();
    if n == 0 {
        return None;
    }
    match &toks[n - 1] {
        ExprToken::Atom(_) => None,
        ExprToken::Operator { kind, span } => {
            let p = operator_precedence(*kind);
            if p == Precedence::Prefix || p.level() < min.level() {
                None
            } else {
                Some((*kind, *span, p))
            }
        },
    }
}

/// Build the infix node for operator `k` between `lhs` and `rhs`.
fn infix_node(
    lhs: Spanned<CstExpr>,
    k: OperatorKind,
    span: Span,
    rhs: Spanned<CstExpr>,
    id_gen: &mut CstIdGenerator,
) -> (e: Spanned<CstExpr>)
    requires
        old(id_gen).counter() + 2 < u32::MAX,
    ensures
        e == spec_infix_node(lhs, k, span, rhs, old(id_gen).counter()),
        final(id_gen).counter() == old(id_gen).counter() + 2,
{
    let combined = lhs.span.merge(span).merge(rhs.span);
    let op_id = id_gen.next();
    let node = if k == OperatorKind::PipeForward {
        CstExpr::Compose {
            lhs: Box::new(lhs),
            op: Spanned::new(op_id, span, CstComposeOp::Forward),
            rhs: Box::new(rhs),
        }
    } else if k == OperatorKind::PipeReverse {
        CstExpr::Compose {
            lhs: Box::new(lhs),
            op: Spanned::new(op_id, span, CstComposeOp::Reverse),
            rhs: Box::new(rhs),
        }
    } else {
        CstExpr::Infix {
            lhs: Box::new(lhs),
            op: Spanned::new(op_id, span, binary_op(k)),
            rhs: Box::new(rhs),
        }
    };
    let id = id_gen.next();
    Spanned::new(id, combined, node)
}

/// Parse an expression whose infix operators are at `min_precedence` or tighter.
fn parse_expression_with_precedence(
    toks: &mut Vec<ExprToken>,
    id_gen: &mut CstIdGenerator,
    min_precedence: Precedence,
) -> (r: Result<Spanned<CstExpr>, PrattError>)
    requires
        old(id_gen).counter() + 2 * old(toks)@.len() < u32::MAX,
    ensures
        outcome_agrees(
            spec_parse_expr(old(toks)@, min_precedence, old(id_gen).counter()),
            r,
            final(toks)@,
            final(id_gen).counter(),
        ),
        consumed_within_budget(r, old(toks)@, old(id_gen).counter(), final(toks)@, final(id_gen).counter()),
    decreases old(toks)@.len(),
{
    let ghost toks0 = toks@;
    let ghost id0 = id_gen.counter();
    let mut expr = match parse_prefix(toks, id_gen) {
        Ok(e) => e,
        Err(e) => return Err(e),
    };
    let ghost target = spec_parse_expr(toks0, min_precedence, id0);
    assert(target == spec_climb(expr, toks@, min_precedence, id_gen.counter()));
    loop
        invariant
            toks@.len() < toks0.len(),
            id_gen.counter() + 2 * toks@.len() <= id0 + 2 * toks0.len(),
            id0 + 2 * toks0.len() < u32::MAX,
            toks0 == old(toks)@,
            id0 == old(id_gen).counter(),
            target == spec_parse_expr(toks0, min_precedence, id0),
            target == spec_climb(expr, toks@, min_precedence, id_gen.counter()),
        ensures
            toks@.len() < toks0.len(),
            id_gen.counter() + 2 * toks@.len() <= id0 + 2 * toks0.len(),
            target == Ok::<(Spanned<CstExpr>, Seq<ExprToken>, u32), (PrattError, u32)>(
                (expr, toks@, id_gen.counter()),
            ),
        decreases toks@.len(),
    {
        let (kind, span, p) = match peek_infix(toks, min_precedence) {
            None => {
                break ;
            },
            Some(t) => t,
        };
        let rhs_prec = if p.is_right_associative() {
            p
        } else {
            p.next_level()
        };
        let ghost tk = toks@;
        let ghost idk = id_gen.counter();
        let _ = toks.pop();
        assert(toks@ == tk.drop_last());
        let rhs = match parse_expression_with_precedence(toks, id_gen, rhs_prec) {
            Ok(e) => e,
            Err(e) => {
                assert(spec_climb(expr, tk, min_precedence, idk) == spec_parse_expr(
                    tk.drop_last(),
                    rhs_prec,
                    idk,
                ));
                return Err(e);
            },
        };
        expr = infix_node(expr, kind, span, rhs, id_gen);
    }
    Ok(expr)
}

/// Parse an expression from its tokens, in source order. Tokens after the
/// expression are left unparsed. The ID generator must have room for two IDs
/// per token.
pub fn parse_expression(tokens: Vec<ExprToken>, id_gen: &mut CstIdGenerator) -> (r: Result<
    Spanned<CstExpr>,
    PrattError,
>)
    requires
        old(id_gen).counter() + 2 * tokens@.len() < u32::MAX,
    ensures
        match spec_parse_expr(tokens@.reverse(), Precedence::Pipe, old(id_gen).counter()) {
            Ok((e, _, id)) => r == Ok::<Spanned<CstExpr>, PrattError>(e) && final(id_gen).counter()
                == id,
            Err((err, id)) => r == Err::<Spanned<CstExpr>, PrattError>(err)
                && final(id_gen).counter() == id,
        },
{
    let mut tokens = tokens;
    let mut stack: Vec<ExprToken> = Vec::new();
    let ghost orig = tokens@;
    while tokens.len() > 0
        invariant
            tokens@.len() <= orig.len(),
            stack@ == orig.subrange(tokens@.len() as int, orig.len() as int).reverse(),
            tokens@ == orig.subrange(0, tokens@.len() as int),
        decreases tokens@.len(),
    {
        let ghost before = tokens@;
        let ghost sbefore = stack@;
        let ghost l = before.len();
        assert(l > 0);
        let popped = tokens.pop();
        assert(tokens@ == before.subrange(0, l - 1));
        assert(popped == Some(before[l - 1]));
        match popped {
            Some(t) => stack.push(t),
            None => {},
        }
        assert(tokens@ =~= orig.subrange(0, l - 1));
        assert(stack@ == sbefore.push(orig[l - 1]));
        assert forall|j: int| 0 <= j < stack@.len() implies stack@[j] == orig.subrange(
            l - 1,
            orig.len() as int,
        ).reverse()[j] by {
            if j < sbefore.len() {
                assert(stack@[j] == sbefore[j]);
            }
        }
        assert(stack@ =~= orig.subrange(tokens@.len() as int, orig.len() as int).reverse());
    }
    assert(stack@ =~= orig.reverse());
    parse_expression_with_precedence(&mut stack, id_gen, Precedence::Pipe)
}

} // verus!
