use std::collections::HashMap;

use cantaloop::cst::{CstBinaryOp, CstBlock, CstCallArgument, CstExpr, CstProgram, CstStatement};
use cantaloop::hir::HirSpan;
use cantaloop::span::{CstId, Span, Spanned};
use cantaloop::spans::{
    collect_cst_spans, collect_index_cst_spans, extract_cst_identifier_spans, group_occurrences,
};

fn sp<T>(id: u32, start: u32, end: u32, node: T) -> Spanned<T> {
    Spanned::new(CstId(id), Span::new(start, end), node)
}

fn ident(id: u32, start: u32, name: &str) -> Spanned<CstExpr> {
    let end = start + name.len() as u32;
    sp(id, start, end, CstExpr::Identifier(sp(id + 1, start, end, name.to_string())))
}

/// let x = y + z; f(x)
fn sample() -> CstProgram {
    let let_stmt = CstStatement::Let {
        pub_keyword: None,
        let_keyword: Span::new(0, 3),
        identifier: sp(2, 4, 5, "x".to_string()),
        type_annotation: None,
        eq: Span::new(6, 7),
        expression: sp(
            3,
            8,
            13,
            CstExpr::Infix {
                lhs: Box::new(ident(4, 8, "y")),
                op: sp(6, 10, 11, CstBinaryOp::Add),
                rhs: Box::new(ident(7, 12, "z")),
            },
        ),
    };
    let call = sp(
        10,
        15,
        19,
        CstExpr::FunctionCall {
            callee: Box::new(ident(11, 15, "f")),
            open_paren: Span::new(16, 17),
            arguments: vec![sp(13, 17, 18, CstCallArgument::Expr(ident(14, 17, "x")))],
            close_paren: Span::new(18, 19),
        },
    );
    CstProgram {
        blocks: vec![sp(
            0,
            0,
            30,
            CstBlock {
                statements: vec![sp(1, 0, 13, let_stmt), sp(9, 15, 19, CstStatement::Expression(call))],
            },
        )],
    }
}

fn expected_spans() -> HashMap<u32, Span> {
    let mut m = HashMap::new();
    for (id, s, e) in [
        (0, 0, 30),
        (1, 0, 13),
        (2, 4, 5),
        (3, 8, 13),
        (4, 8, 9),
        (5, 8, 9),
        (6, 10, 11),
        (7, 12, 13),
        (8, 12, 13),
        (9, 15, 19),
        (10, 15, 19),
        (11, 15, 16),
        (12, 15, 16),
        (13, 17, 18),
        (14, 17, 18),
        (15, 17, 18),
    ] {
        m.insert(id, Span::new(s, e));
    }
    m
}

#[test]
fn collect_cst_spans_records_nodes_by_identity() {
    let mut m = HashMap::new();
    m.insert(999, Span::new(1, 2));
    collect_cst_spans(&sample(), &mut m);
    let mut expected = expected_spans();
    expected.insert(999, Span::new(1, 2));
    assert_eq!(m, expected);
}

#[test]
fn index_variant_records_the_same_nodes() {
    let mut m = HashMap::new();
    collect_index_cst_spans(&sample(), &mut m);
    assert_eq!(m, expected_spans());
}

#[test]
fn identifier_occurrences_are_grouped_by_name() {
    let groups = extract_cst_identifier_spans(&sample());
    assert_eq!(
        groups,
        vec![
            ("x".to_string(), vec![HirSpan::new(4, 5), HirSpan::new(17, 18)]),
            ("y".to_string(), vec![HirSpan::new(8, 9)]),
            ("z".to_string(), vec![HirSpan::new(12, 13)]),
            ("f".to_string(), vec![HirSpan::new(15, 16)]),
        ]
    );
}

#[test]
fn grouping_keeps_first_occurrence_order() {
    let occ = vec![
        ("b".to_string(), HirSpan::new(0, 1)),
        ("a".to_string(), HirSpan::new(2, 3)),
        ("b".to_string(), HirSpan::new(4, 5)),
    ];
    assert_eq!(
        group_occurrences(&occ),
        vec![
            ("b".to_string(), vec![HirSpan::new(0, 1), HirSpan::new(4, 5)]),
            ("a".to_string(), vec![HirSpan::new(2, 3)]),
        ]
    );
    assert!(group_occurrences(&vec![]).is_empty());
}
