use cantaloop::cst::{CstBinaryOp, CstComposeOp, CstExpr, CstUnaryOp};
use cantaloop::pratt::{
    operator_precedence, parse_expression, ExprToken, OperatorKind, PrattError, Precedence,
};
use cantaloop::span::{CstId, CstIdGenerator, Span, Spanned};

fn atom(name: &str, id: u32, start: u32) -> ExprToken {
    let span = Span::new(start, start + 1);
    ExprToken::Atom(Spanned::new(
        CstId(id),
        span,
        CstExpr::Identifier(Spanned::new(CstId(id + 1000), span, name.to_string())),
    ))
}

fn op(kind: OperatorKind, start: u32) -> ExprToken {
    ExprToken::Operator { kind, span: Span::new(start, start + 1) }
}

fn ident_name(e: &Spanned<CstExpr>) -> String {
    match &e.node {
        CstExpr::Identifier(s) => s.node.clone(),
        other => panic!("expected an identifier, got {:?}", other),
    }
}

#[test]
fn subtraction_is_left_associative() {
    // a - b - c  ==>  (a - b) - c
    let toks = vec![
        atom("a", 100, 0),
        op(OperatorKind::Sub, 2),
        atom("b", 101, 4),
        op(OperatorKind::Sub, 6),
        atom("c", 102, 8),
    ];
    let mut g = CstIdGenerator::new();
    let e = parse_expression(toks, &mut g).unwrap();
    assert_eq!(e.id, CstId(3));
    assert_eq!(e.span, Span::new(0, 9));
    match &e.node {
        CstExpr::Infix { lhs, op, rhs } => {
            assert_eq!(op.node, CstBinaryOp::Sub);
            assert_eq!(op.id, CstId(2));
            assert_eq!(op.span, Span::new(6, 7));
            assert_eq!(ident_name(rhs), "c");
            match &lhs.node {
                CstExpr::Infix { lhs: l2, op: op2, rhs: r2 } => {
                    assert_eq!(op2.id, CstId(0));
                    assert_eq!(lhs.id, CstId(1));
                    assert_eq!(lhs.span, Span::new(0, 5));
                    assert_eq!(ident_name(l2), "a");
                    assert_eq!(ident_name(r2), "b");
                }
                other => panic!("unexpected {:?}", other),
            }
        }
        other => panic!("unexpected {:?}", other),
    }
    assert_eq!(g.next(), CstId(4));
}

#[test]
fn power_is_right_associative() {
    // a ** b ** c  ==>  a ** (b ** c)
    let toks = vec![
        atom("a", 100, 0),
        op(OperatorKind::Pow, 2),
        atom("b", 101, 4),
        op(OperatorKind::Pow, 6),
        atom("c", 102, 8),
    ];
    let mut g = CstIdGenerator::new();
    let e = parse_expression(toks, &mut g).unwrap();
    match &e.node {
        CstExpr::Infix { lhs, op, rhs } => {
            assert_eq!(op.node, CstBinaryOp::Pow);
            assert_eq!(op.span, Span::new(2, 3));
            assert_eq!(ident_name(lhs), "a");
            match &rhs.node {
                CstExpr::Infix { lhs: l2, op: op2, rhs: r2 } => {
                    assert_eq!(op2.span, Span::new(6, 7));
                    assert_eq!(op2.id, CstId(0));
                    assert_eq!(ident_name(l2), "b");
                    assert_eq!(ident_name(r2), "c");
                }
                other => panic!("unexpected {:?}", other),
            }
        }
        other => panic!("unexpected {:?}", other),
    }
    assert_eq!(e.id, CstId(3));
}

#[test]
fn multiplication_binds_tighter_than_addition() {
    // a + b * c  ==>  a + (b * c)
    let toks = vec![
        atom("a", 100, 0),
        op(OperatorKind::Add, 2),
        atom("b", 101, 4),
        op(OperatorKind::Mul, 6),
        atom("c", 102, 8),
    ];
    let mut g = CstIdGenerator::new();
    let e = parse_expression(toks, &mut g).unwrap();
    match &e.node {
        CstExpr::Infix { lhs, op, rhs } => {
            assert_eq!(op.node, CstBinaryOp::Add);
            assert_eq!(ident_name(lhs), "a");
            match &rhs.node {
                CstExpr::Infix { op: op2, .. } => assert_eq!(op2.node, CstBinaryOp::Mul),
                other => panic!("unexpected {:?}", other),
            }
        }
        other => panic!("unexpected {:?}", other),
    }
    // a * b + c  ==>  (a * b) + c
    let toks = vec![
        atom("a", 100, 0),
        op(OperatorKind::Mul, 2),
        atom("b", 101, 4),
        op(OperatorKind::Add, 6),
        atom("c", 102, 8),
    ];
    let e = parse_expression(toks, &mut CstIdGenerator::new()).unwrap();
    match &e.node {
        CstExpr::Infix { lhs, op, .. } => {
            assert_eq!(op.node, CstBinaryOp::Add);
            match &lhs.node {
                CstExpr::Infix { op: op2, .. } => assert_eq!(op2.node, CstBinaryOp::Mul),
                other => panic!("unexpected {:?}", other),
            }
        }
        other => panic!("unexpected {:?}", other),
    }
}

#[test]
fn comparison_binds_tighter_than_logic() {
    // a == b && c  ==>  (a == b) && c
    let toks = vec![
        atom("a", 100, 0),
        op(OperatorKind::Eq, 2),
        atom("b", 101, 4),
        op(OperatorKind::And, 6),
        atom("c", 102, 8),
    ];
    let e = parse_expression(toks, &mut CstIdGenerator::new()).unwrap();
    match &e.node {
        CstExpr::Infix { lhs, op, .. } => {
            assert_eq!(op.node, CstBinaryOp::And);
            match &lhs.node {
                CstExpr::Infix { op: op2, .. } => assert_eq!(op2.node, CstBinaryOp::Eq),
                other => panic!("unexpected {:?}", other),
            }
        }
        other => panic!("unexpected {:?}", other),
    }
}

#[test]
fn prefix_operator_takes_node_id_then_operator_id() {
    // -a
    let toks = vec![op(OperatorKind::Neg, 0), atom("a", 100, 1)];
    let mut g = CstIdGenerator::new();
    let e = parse_expression(toks, &mut g).unwrap();
    assert_eq!(e.id, CstId(0));
    assert_eq!(e.span, Span::new(0, 2));
    match &e.node {
        CstExpr::Prefix { op, rhs } => {
            assert_eq!(op.node, CstUnaryOp::Neg);
            assert_eq!(op.id, CstId(1));
            assert_eq!(ident_name(rhs), "a");
        }
        other => panic!("unexpected {:?}", other),
    }
    assert_eq!(g.next(), CstId(2));
}

#[test]
fn prefix_binds_tighter_than_infix() {
    // !a || b  ==>  (!a) || b
    let toks = vec![
        op(OperatorKind::Not, 0),
        atom("a", 100, 1),
        op(OperatorKind::Or, 3),
        atom("b", 101, 6),
    ];
    let e = parse_expression(toks, &mut CstIdGenerator::new()).unwrap();
    match &e.node {
        CstExpr::Infix { lhs, op, .. } => {
            assert_eq!(op.node, CstBinaryOp::Or);
            match &lhs.node {
                CstExpr::Prefix { op: p, .. } => assert_eq!(p.node, CstUnaryOp::Not),
                other => panic!("unexpected {:?}", other),
            }
        }
        other => panic!("unexpected {:?}", other),
    }
}

#[test]
fn pipes_build_compositions() {
    // a |> f
    let toks = vec![atom("a", 100, 0), op(OperatorKind::PipeForward, 2), atom("f", 101, 5)];
    let e = parse_expression(toks, &mut CstIdGenerator::new()).unwrap();
    match &e.node {
        CstExpr::Compose { lhs, op, rhs } => {
            assert_eq!(op.node, CstComposeOp::Forward);
            assert_eq!(ident_name(lhs), "a");
            assert_eq!(ident_name(rhs), "f");
        }
        other => panic!("unexpected {:?}", other),
    }
    // f <| a
    let toks = vec![atom("f", 100, 0), op(OperatorKind::PipeReverse, 2), atom("a", 101, 5)];
    let e = parse_expression(toks, &mut CstIdGenerator::new()).unwrap();
    match &e.node {
        CstExpr::Compose { op, .. } => assert_eq!(op.node, CstComposeOp::Reverse),
        other => panic!("unexpected {:?}", other),
    }
}

#[test]
fn empty_input_is_unexpected_end() {
    let r = parse_expression(vec![], &mut CstIdGenerator::new());
    assert_eq!(r.unwrap_err(), PrattError::UnexpectedEnd);
}

#[test]
fn dangling_operator_is_unexpected_end() {
    let toks = vec![atom("a", 100, 0), op(OperatorKind::Add, 2)];
    let r = parse_expression(toks, &mut CstIdGenerator::new());
    assert_eq!(r.unwrap_err(), PrattError::UnexpectedEnd);
}

#[test]
fn infix_operator_in_operand_position_is_expected_atom() {
    let toks = vec![op(OperatorKind::Mul, 0), atom("a", 100, 2)];
    let r = parse_expression(toks, &mut CstIdGenerator::new());
    assert_eq!(r.unwrap_err(), PrattError::ExpectedAtom(Span::new(0, 1)));
}

#[test]
fn tokens_after_the_expression_are_left() {
    // a b  ==>  a
    let toks = vec![atom("a", 100, 0), atom("b", 101, 2)];
    let e = parse_expression(toks, &mut CstIdGenerator::new()).unwrap();
    assert_eq!(ident_name(&e), "a");
}

#[test]
fn precedence_levels() {
    assert_eq!(Precedence::Pipe.level(), 1);
    assert_eq!(Precedence::Postfix.level(), 9);
    assert_eq!(Precedence::Add.next_level(), Precedence::Mul);
    assert_eq!(Precedence::Postfix.next_level(), Precedence::Postfix);
    assert_eq!(Precedence::from_level(7), Precedence::Pow);
    assert_eq!(Precedence::from_level(0), Precedence::Pipe);
    assert_eq!(Precedence::from_level(42), Precedence::Pipe);
    assert!(Precedence::Pow.is_right_associative());
    assert!(!Precedence::Add.is_right_associative());
    for p in [
        Precedence::Pipe,
        Precedence::Or,
        Precedence::And,
        Precedence::Comparison,
        Precedence::Add,
        Precedence::Mul,
        Precedence::Pow,
        Precedence::Prefix,
        Precedence::Postfix,
    ] {
        assert_eq!(Precedence::from_level(p.level()), p);
    }
    assert_eq!(operator_precedence(OperatorKind::Modulo), Precedence::Mul);
    assert_eq!(operator_precedence(OperatorKind::PipeReverse), Precedence::Pipe);
    assert_eq!(operator_precedence(OperatorKind::Le), Precedence::Comparison);
    assert_eq!(operator_precedence(OperatorKind::Decrement), Precedence::Prefix);
}

#[test]
fn parsing_stops_only_where_the_expression_cannot_go_on() {
    // a + b ! c: the prefix operator cannot continue the expression
    let toks = vec![
        atom("a", 100, 0),
        op(OperatorKind::Add, 2),
        atom("b", 101, 4),
        op(OperatorKind::Not, 6),
        atom("c", 102, 8),
    ];
    let mut g = CstIdGenerator::new();
    let e = parse_expression(toks, &mut g).unwrap();
    match &e.node {
        CstExpr::Infix { lhs, op, rhs } => {
            assert_eq!(op.node, CstBinaryOp::Add);
            assert_eq!(ident_name(lhs), "a");
            assert_eq!(ident_name(rhs), "b");
        }
        other => panic!("unexpected {:?}", other),
    }
    // every infix operator is taken, however loose
    let toks = vec![
        atom("a", 100, 0),
        op(OperatorKind::Mul, 2),
        atom("b", 101, 4),
        op(OperatorKind::PipeForward, 6),
        atom("f", 102, 8),
    ];
    let e = parse_expression(toks, &mut CstIdGenerator::new()).unwrap();
    assert!(matches!(e.node, CstExpr::Compose { .. }));
    assert_eq!(e.span, Span::new(0, 9));
}
