use cantaloop::hir::HirSpan;
use cantaloop::semantic::{best_symbol_for, semantic_index, SymbolEntry};

fn sp(start: usize, end: usize) -> HirSpan {
    HirSpan { start, end }
}

fn sym(id: u32, name: &str, defined_at: Option<HirSpan>) -> SymbolEntry {
    SymbolEntry { id, name: name.to_string(), defined_at }
}

fn table() -> Vec<SymbolEntry> {
    vec![
        sym(1, "std.print", None),
        sym(2, "x", Some(sp(0, 1))),
        sym(3, "x", Some(sp(10, 11))),
        sym(4, "f", None),
        sym(5, "f", Some(sp(20, 21))),
        sym(6, "g", None),
        sym(7, "g", None),
        sym(8, "m.a.b", None),
    ]
}

#[test]
fn exact_names_come_before_unqualified_ones() {
    let t = table();
    assert_eq!(best_symbol_for(&t, "std.print"), Some(0));
    assert_eq!(best_symbol_for(&t, "print"), Some(0));
    assert_eq!(best_symbol_for(&t, "a.b"), Some(7));
    assert_eq!(best_symbol_for(&t, "b"), None);
    assert_eq!(best_symbol_for(&t, "y"), None);
}

#[test]
fn symbols_defined_in_source_are_preferred() {
    let t = table();
    assert_eq!(best_symbol_for(&t, "x"), Some(1));
    assert_eq!(best_symbol_for(&t, "f"), Some(4));
    assert_eq!(best_symbol_for(&t, "g"), Some(5));
}

#[test]
fn occurrences_map_to_their_symbols_after_the_definitions() {
    let t = table();
    let groups = vec![
        ("x".to_string(), vec![sp(0, 1), sp(5, 6)]),
        ("print".to_string(), vec![sp(7, 12)]),
        ("y".to_string(), vec![sp(13, 14)]),
        ("f".to_string(), vec![sp(10, 11), sp(20, 21), sp(30, 31)]),
    ];
    assert_eq!(
        semantic_index(&t, &groups),
        vec![
            (sp(0, 1), 2),
            (sp(10, 11), 3),
            (sp(20, 21), 5),
            (sp(5, 6), 2),
            (sp(7, 12), 1),
            (sp(30, 31), 5),
        ]
    );
}

#[test]
fn a_later_definition_at_a_span_replaces_an_earlier_one() {
    let t = vec![sym(1, "a", Some(sp(0, 1))), sym(2, "b", Some(sp(0, 1)))];
    assert_eq!(semantic_index(&t, &[]), vec![(sp(0, 1), 2)]);
}
