use cantaloop::doc::{DocBlock, DocTags, TagMap};
use cantaloop::span::Span;

fn get<'a>(m: &'a TagMap, key: &str) -> Option<&'a String> {
    m.get(&key.to_string())
}

#[test]
fn tag_map_insert_replaces_and_appends() {
    let mut m = TagMap::new();
    assert_eq!(m.len(), 0);
    m.insert("a".to_string(), "one".to_string());
    m.insert("b".to_string(), "two".to_string());
    m.insert("a".to_string(), "uno".to_string());
    assert_eq!(m.len(), 2);
    assert_eq!(get(&m, "a").map(|s| s.as_str()), Some("uno"));
    assert_eq!(get(&m, "b").map(|s| s.as_str()), Some("two"));
    assert_eq!(get(&m, "c"), None);
    let c = m.copy();
    assert_eq!(c.len(), 2);
    assert_eq!(get(&c, "a").map(|s| s.as_str()), Some("uno"));
}

#[test]
fn parse_tags_reads_every_tag_kind() {
    let text = "Adds two numbers.\n  @param a first number\n@param b   second  number \n@returns the sum\n@effects none\n@since 1.0\n@param a replaced";
    let tags = DocBlock::parse_tags(text);
    assert_eq!(tags.params.len(), 2);
    assert_eq!(get(&tags.params, "a").map(|s| s.as_str()), Some("replaced"));
    assert_eq!(get(&tags.params, "b").map(|s| s.as_str()), Some("second  number"));
    assert_eq!(tags.returns.as_deref(), Some("the sum"));
    assert_eq!(tags.effects.as_deref(), Some("none"));
    assert_eq!(tags.other.len(), 1);
    assert_eq!(get(&tags.other, "since").map(|s| s.as_str()), Some("1.0"));
}

#[test]
fn parse_tags_ignores_incomplete_tags() {
    let text = "@returns\n@effects   \n@param x\n@param\n@deprecated\n@\nplain text";
    let tags = DocBlock::parse_tags(text);
    assert_eq!(tags.params.len(), 0);
    assert_eq!(tags.returns, None);
    assert_eq!(tags.effects, None);
    assert_eq!(tags.other.len(), 0);
}

#[test]
fn parse_tags_of_empty_text() {
    let tags = DocBlock::parse_tags("");
    assert_eq!(tags.params.len(), 0);
    assert_eq!(tags.other.len(), 0);
    assert!(tags.returns.is_none() && tags.effects.is_none());
}

#[test]
fn doc_block_new_parses_its_text() {
    let d = DocBlock::new(Span::new(3, 30), "@returns a value\r\n@param n count".to_string());
    assert_eq!(d.span, Span::new(3, 30));
    assert_eq!(d.text, "@returns a value\r\n@param n count");
    assert_eq!(d.tags.returns.as_deref(), Some("a value"));
    assert_eq!(get(&d.tags.params, "n").map(|s| s.as_str()), Some("count"));
}

#[test]
fn doc_block_from_text_has_zero_span() {
    let d = DocBlock::from_text("@effects io");
    assert_eq!(d.span, Span::new(0, 0));
    assert_eq!(d.tags.effects.as_deref(), Some("io"));
    let c = d.copy();
    assert_eq!(c.text, d.text);
    assert_eq!(c.tags.effects.as_deref(), Some("io"));
}

#[test]
fn empty_doc_tags() {
    let t = DocTags::empty();
    assert_eq!(t.params.len(), 0);
    assert!(t.returns.is_none());
    let c = t.copy();
    assert_eq!(c.other.len(), 0);
}

#[test]
fn copies_of_pairs_and_optional_text() {
    let v = vec![("a".to_string(), "1".to_string()), ("b".to_string(), "2".to_string())];
    assert_eq!(cantaloop::doc::copy_pairs(&v), v);
    assert_eq!(cantaloop::doc::copy_opt_string(&Some("x".to_string())), Some("x".to_string()));
    assert_eq!(cantaloop::doc::copy_opt_string(&None), None);
}
