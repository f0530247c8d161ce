use cantaloop::index_spec::{classify_index_spec, IndexSpecError, IndexSpecShape};
use cantaloop::split::split_top_level;

#[test]
fn commas_split_at_the_top_level_only() {
    assert_eq!(split_top_level("a, b"), vec![(0, 1), (3, 4)]);
    assert_eq!(split_top_level("f(a, b), [1, 2], {x}"), vec![(0, 7), (9, 15), (17, 20)]);
    assert_eq!(split_top_level("\"a,b\", c"), vec![(0, 5), (7, 8)]);
    assert_eq!(split_top_level("\"a\\\",b\", c"), vec![(0, 7), (9, 10)]);
}

#[test]
fn empty_pieces_are_left_out() {
    assert_eq!(split_top_level(""), vec![]);
    assert_eq!(split_top_level("   "), vec![]);
    assert_eq!(split_top_level(" , ,x "), vec![(4, 5)]);
}

#[test]
fn unicode_whitespace_is_trimmed() {
    assert_eq!(split_top_level("\u{3000}a\u{a0}, é"), vec![(3, 4), (8, 10)]);
}

#[test]
fn an_unmatched_closing_bracket_keeps_later_commas_inside() {
    assert_eq!(split_top_level("a), b"), vec![(0, 5)]);
}

#[test]
fn full_and_open_ranges() {
    assert_eq!(classify_index_spec(".."), ((0, 2), Ok(IndexSpecShape::Full { dotdot: (0, 2) })));
    assert_eq!(
        classify_index_spec("  ..5 "),
        ((2, 5), Ok(IndexSpecShape::To { dotdot: (0, 2), end: (2, 3) }))
    );
    assert_eq!(
        classify_index_spec("i.."),
        ((0, 3), Ok(IndexSpecShape::From { start: (0, 1), dotdot: (1, 3) }))
    );
}

#[test]
fn expressions_are_placed_where_their_text_is_first_found() {
    assert_eq!(
        classify_index_spec("...5"),
        ((0, 4), Ok(IndexSpecShape::To { dotdot: (0, 2), end: (2, 4) }))
    );
    assert_eq!(
        classify_index_spec("...."),
        ((0, 4), Ok(IndexSpecShape::To { dotdot: (0, 2), end: (0, 2) }))
    );
    assert_eq!(
        classify_index_spec("a..=a"),
        ((0, 5), Ok(IndexSpecShape::Inclusive { start: (0, 1), dotdoteq: (1, 4), end: (0, 1) }))
    );
}

#[test]
fn inclusive_stepped_and_plain_ranges() {
    assert_eq!(
        classify_index_spec("1..=n"),
        ((0, 5), Ok(IndexSpecShape::Inclusive { start: (0, 1), dotdoteq: (1, 4), end: (4, 5) }))
    );
    assert_eq!(
        classify_index_spec("1..10..2"),
        (
            (0, 8),
            Ok(IndexSpecShape::Stepped {
                start: (0, 1),
                dotdot: (1, 3),
                end: (3, 5),
                step_dotdot: (5, 7),
                step: (7, 8),
            })
        )
    );
    assert_eq!(
        classify_index_spec("1 .. 5"),
        ((0, 6), Ok(IndexSpecShape::Range { start: (0, 1), dotdot: (2, 4), end: (5, 6) }))
    );
}

#[test]
fn single_indices() {
    assert_eq!(classify_index_spec(" x "), ((1, 2), Ok(IndexSpecShape::Single { expr: (0, 1) })));
    assert_eq!(
        classify_index_spec("a..b..c..d"),
        ((0, 10), Ok(IndexSpecShape::Single { expr: (0, 10) }))
    );
}

#[test]
fn malformed_index_specs() {
    assert_eq!(classify_index_spec("a..="), ((0, 4), Err(IndexSpecError::MissingInclusiveBound)));
    assert_eq!(classify_index_spec("1....2"), ((0, 6), Err(IndexSpecError::MissingStepPart)));
}

#[test]
fn pairs_of_dots_are_placed_by_counting_characters() {
    assert_eq!(
        classify_index_spec("éé..x"),
        ((0, 7), Ok(IndexSpecShape::Range { start: (0, 2), dotdot: (2, 4), end: (4, 7) }))
    );
}
