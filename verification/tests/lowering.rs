use cantaloop::ast::{BinaryOp, Expression, Literal, Statement, UnaryOp};
use cantaloop::cst::{
    CstArgument, CstBinaryOp, CstBlock, CstExpr, CstLiteral, CstProgram, CstStatement, CstUnaryOp,
    ReturnTypeArrow,
};
use cantaloop::doc::DocBlock;
use cantaloop::lowering::{lower_binary_op, lower_cst_to_ast, lower_unary_op, make_ast_ident};
use cantaloop::span::{CstId, Span, Spanned};

fn sp<T>(id: u32, start: u32, end: u32, node: T) -> Spanned<T> {
    Spanned::new(CstId(id), Span::new(start, end), node)
}

fn number(id: u32, x: f64) -> Spanned<CstExpr> {
    sp(id, 0, 1, CstExpr::Literal(sp(id + 500, 0, 1, CstLiteral::Number(x.to_bits()))))
}

#[test]
fn lowering_keeps_identities_and_collects_docs() {
    let let_stmt = CstStatement::Let {
        pub_keyword: Some(Span::new(0, 3)),
        let_keyword: Span::new(4, 7),
        identifier: sp(2, 8, 9, "x".to_string()),
        type_annotation: Some(sp(3, 10, 13, "num".to_string())),
        eq: Span::new(14, 15),
        expression: sp(
            4,
            16,
            21,
            CstExpr::Infix {
                lhs: Box::new(number(5, 1.0)),
                op: sp(6, 18, 19, CstBinaryOp::Add),
                rhs: Box::new(number(7, 2.0)),
            },
        ),
    };
    let fn_stmt = CstStatement::FunctionDeclaration {
        pub_keyword: None,
        fn_keyword: Span::new(30, 32),
        identifier: sp(10, 33, 36, "neg".to_string()),
        arguments: vec![sp(
            11,
            37,
            43,
            CstArgument {
                identifier: sp(12, 37, 38, "a".to_string()),
                colon: Span::new(38, 39),
                type_annotation: sp(13, 40, 43, "num".to_string()),
            },
        )],
        return_type_arrow: Some(sp(
            14,
            45,
            51,
            ReturnTypeArrow { arrow: Span::new(45, 47), is_effectful: false, type_annotation: sp(15, 48, 51, "num".to_string()) },
        )),
        body: sp(
            16,
            52,
            70,
            CstBlock {
                statements: vec![sp(
                    17,
                    54,
                    68,
                    CstStatement::Return {
                        return_keyword: Span::new(54, 60),
                        expression: sp(
                            18,
                            61,
                            63,
                            CstExpr::Prefix {
                                op: sp(19, 61, 62, CstUnaryOp::Neg),
                                rhs: Box::new(sp(20, 62, 63, CstExpr::Identifier(sp(21, 62, 63, "a".to_string())))),
                            },
                        ),
                    },
                )],
            },
        ),
    };
    let cst = CstProgram {
        blocks: vec![sp(
            0,
            0,
            70,
            CstBlock {
                statements: vec![
                    sp(1, 0, 21, CstStatement::Mod { identifier: sp(22, 4, 8, "main".to_string()) }),
                    sp(8, 0, 21, let_stmt),
                    sp(9, 30, 70, fn_stmt),
                ],
            },
        )],
    };
    let docs = vec![
        (Span::new(8, 9), DocBlock::from_text("@returns unused\nThe answer.")),
        (Span::new(33, 36), DocBlock::from_text("Negates.\n@param a the number")),
        (Span::new(99, 100), DocBlock::from_text("nobody")),
    ];
    let (program, by_name) = lower_cst_to_ast(cst, docs).unwrap();
    assert_eq!(program.blocks.len(), 1);
    let stmts = &program.blocks[0].statements;
    assert_eq!(stmts.len(), 3);
    match &stmts[0] {
        Statement::Mod { identifier } => assert_eq!(identifier, "main"),
        other => panic!("unexpected {:?}", other),
    }
    match &stmts[1] {
        Statement::Let { identifier, type_annotation, expression, pub_visibility } => {
            assert_eq!(identifier.name, "x");
            assert_eq!(identifier.cst_id, CstId(2));
            assert_eq!(type_annotation.as_deref(), Some("num"));
            assert!(*pub_visibility);
            match expression {
                Expression::Infix { lhs, op, rhs } => {
                    assert_eq!(*op, BinaryOp::Add);
                    assert!(matches!(**lhs, Expression::Literal(Literal::Number(b)) if b == 1.0f64.to_bits()));
                    assert!(matches!(**rhs, Expression::Literal(Literal::Number(b)) if b == 2.0f64.to_bits()));
                }
                other => panic!("unexpected {:?}", other),
            }
        }
        other => panic!("unexpected {:?}", other),
    }
    match &stmts[2] {
        Statement::FunctionDeclaration { identifier, arguments, return_type, body, pub_visibility, .. } => {
            assert_eq!(identifier.name, "neg");
            assert_eq!(identifier.cst_id, CstId(10));
            assert!(!*pub_visibility);
            assert_eq!(arguments.len(), 1);
            assert_eq!(arguments[0].identifier.name, "a");
            assert_eq!(arguments[0].kind, "num");
            assert_eq!(return_type.as_deref(), Some("-> num"));
            match &body.statements[0] {
                Statement::Return { expression: Expression::Prefix { op, rhs } } => {
                    assert_eq!(*op, UnaryOp::Neg);
                    assert!(matches!(&**rhs, Expression::Identifier(id) if id.name == "a" && id.cst_id == CstId(21)));
                }
                other => panic!("unexpected {:?}", other),
            }
        }
        other => panic!("unexpected {:?}", other),
    }
    let names: Vec<&str> = by_name.iter().map(|(n, _)| n.as_str()).collect();
    assert_eq!(names, vec!["x", "neg"]);
    assert_eq!(by_name[1].1.tags.params.len(), 1);
}

#[test]
fn operators_lower_one_to_one() {
    assert_eq!(lower_binary_op(CstBinaryOp::Pow), BinaryOp::Pow);
    assert_eq!(lower_binary_op(CstBinaryOp::Le), BinaryOp::Le);
    assert_eq!(lower_binary_op(CstBinaryOp::Or), BinaryOp::Or);
    assert_eq!(lower_unary_op(CstUnaryOp::Not), UnaryOp::Not);
    assert_eq!(lower_unary_op(CstUnaryOp::Increment), UnaryOp::Increment);
    let id = make_ast_ident(&sp(42, 1, 4, "foo".to_string()));
    assert_eq!(id.name, "foo");
    assert_eq!(id.cst_id, CstId(42));
}
