use cantaloop::chars::{
    find_newline, find_white_space, is_white_space_char, skip_white_space, starts_with_at,
    trim_bounds,
};
use cantaloop::span::Span;
use cantaloop::text::{
    extract_braced_content, find_bytes, find_keyword_span, find_matching_brace,
    find_opening_brace, find_word_boundary,
};

#[test]
fn find_bytes_gives_first_occurrence() {
    assert_eq!(find_bytes(b"let x = let", b"let"), Some(0));
    assert_eq!(find_bytes(b"a let", b"let"), Some(2));
    assert_eq!(find_bytes(b"abc", b"d"), None);
    assert_eq!(find_bytes(b"abc", b""), Some(0));
    assert_eq!(find_bytes(b"ab", b"abc"), None);
}

#[test]
fn find_keyword_span_offsets_by_start() {
    assert_eq!(find_keyword_span("pub fn add", "fn", 100), Some(Span::new(104, 106)));
    assert_eq!(find_keyword_span("a |> b", "|>", 10), Some(Span::new(12, 14)));
    assert_eq!(find_keyword_span("let x", "const", 0), None);
}

#[test]
fn find_opening_brace_finds_first() {
    assert_eq!(find_opening_brace("if x { a { b } }"), Some(5));
    assert_eq!(find_opening_brace("no braces"), None);
}

#[test]
fn find_matching_brace_counts_nesting() {
    let text = "a {b {c} d} e";
    assert_eq!(find_matching_brace(text, 2), Some(11));
    assert_eq!(find_matching_brace(text, 5), Some(8));
    assert_eq!(find_matching_brace("{ unclosed", 0), None);
    assert_eq!(find_matching_brace("{{}", 0), None);
}

#[test]
fn find_matching_brace_passes_over_closing_braces_before_the_first_opening_one() {
    assert_eq!(find_matching_brace("}{}", 0), Some(3));
    assert_eq!(find_matching_brace("a } {b}", 0), Some(7));
    assert_eq!(find_matching_brace("a } b", 0), None);
    assert_eq!(find_matching_brace("é{}", 0), Some(4));
    assert_eq!(extract_braced_content("x{a}", 0), Some("{a"));
}

#[test]
fn extract_braced_content_takes_inner_text() {
    assert_eq!(extract_braced_content("fn f() { x + { y } }", 7), Some(" x + { y } "));
    assert_eq!(extract_braced_content("{}", 0), Some(""));
    assert_eq!(extract_braced_content("{ a", 0), None);
}

#[test]
fn find_word_boundary_skips_longer_words() {
    assert_eq!(find_word_boundary("letter let x", "let"), Some(7));
    assert_eq!(find_word_boundary("let", "let"), Some(0));
    assert_eq!(find_word_boundary("let(", "let"), Some(0));
    assert_eq!(find_word_boundary("lets", "let"), None);
    assert_eq!(find_word_boundary("let1 let_", "let"), Some(5));
    // an occurrence at the end of another word is not a whole word
    assert_eq!(find_word_boundary("myelse else", "else"), Some(7));
    assert_eq!(find_word_boundary("(else)", "else"), Some(1));
    // text beyond ASCII is accepted
    assert_eq!(find_word_boundary("else é", "else"), Some(0));
    assert_eq!(find_word_boundary("é else", "else"), Some(3));
}

#[test]
fn white_space_agrees_with_std() {
    for c in [' ', '\t', '\n', '\r', '\u{b}', '\u{c}', '\u{85}', '\u{a0}', '\u{2003}', '\u{3000}', 'a', '_', '0', '\u{200b}'] {
        assert_eq!(is_white_space_char(c), c.is_whitespace(), "{:?}", c);
    }
}

#[test]
fn trimming_bounds() {
    let s = "  ab c \t";
    assert_eq!(skip_white_space(s, 0, 8), 2);
    assert_eq!(trim_bounds(s, 0, 8), (2, 6));
    assert_eq!(trim_bounds("   ", 0, 3).0, trim_bounds("   ", 0, 3).1);
    assert_eq!(trim_bounds(s, 3, 5), (3, 4));
}

#[test]
fn finding_white_space_and_newlines() {
    let s = "ab cd\nef";
    assert_eq!(find_white_space(s, 0, 8), 2);
    assert_eq!(find_white_space(s, 3, 5), 5);
    assert_eq!(find_newline(s, 0, 8), 5);
    assert_eq!(find_newline(s, 6, 8), 8);
}

#[test]
fn starts_with_inside_a_range() {
    let s = "x @param y";
    assert!(starts_with_at(s, 2, 10, "@param"));
    assert!(!starts_with_at(s, 2, 5, "@param"));
    assert!(!starts_with_at(s, 0, 10, "@param"));
    assert!(starts_with_at(s, 0, 10, ""));
}

#[test]
fn sub_string_takes_characters() {
    assert_eq!(cantaloop::chars::sub_string("héllo", 1, 4), "éll");
    assert_eq!(cantaloop::chars::sub_string("abc", 2, 2), "");
}
