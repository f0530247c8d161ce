use cantaloop::span::{CstId, CstIdGenerator, Span, Spanned};

#[test]
fn span_new_and_length() {
    let s = Span::new(3, 10);
    assert_eq!(s.start, 3);
    assert_eq!(s.end, 10);
    assert_eq!(s.length(), 7);
    assert_eq!(Span::new(5, 5).length(), 0);
}

#[test]
fn span_from_usize_keeps_small_offsets() {
    let s = Span::from_usize(12, 40);
    assert_eq!(s, Span::new(12, 40));
}

#[test]
fn span_merge_runs_from_first_start_to_second_end() {
    assert_eq!(Span::new(2, 6).merge(Span::new(4, 9)), Span::new(2, 9));
    // the end comes from the second span, even when the first ends later
    assert_eq!(Span::new(2, 10).merge(Span::new(4, 8)), Span::new(2, 8));
    // disjoint spans in source order merge over the gap
    assert_eq!(Span::new(0, 1).merge(Span::new(7, 8)), Span::new(0, 8));
}

#[test]
fn span_merge_laws_on_values() {
    let a = Span::new(1, 4);
    let b = Span::new(3, 8);
    let c = Span::new(6, 12);
    assert_eq!(a.merge(b).merge(c), a.merge(b.merge(c)));
    assert_eq!(a.merge(a), a);
    let m = a.merge(b);
    assert!(m.start <= a.start && a.end <= m.end);
    assert!(m.start <= b.start && b.end <= m.end);
}

#[test]
fn cst_id_generator_counts_up_and_resets() {
    let mut g = CstIdGenerator::new();
    assert_eq!(g.next(), CstId(0));
    assert_eq!(g.next(), CstId(1));
    assert_eq!(g.next().as_u32(), 2);
    g.reset();
    assert_eq!(g.next(), CstId::new(0));
}

#[test]
fn spanned_accessors() {
    let mut s = Spanned::new(CstId(7), Span::new(1, 2), 41u32);
    assert_eq!(s.id(), CstId(7));
    assert_eq!(s.span(), Span::new(1, 2));
    assert_eq!(*s.node(), 41);
    *s.node_mut() += 1;
    assert_eq!(s.into_node(), 42);
}
