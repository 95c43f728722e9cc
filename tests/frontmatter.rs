use bread::frontmatter::Frontmatter;

#[test]
fn parse_without_marker_is_all_body() {
    let text = "# Hello\n\nsome: text\n---\n";
    let (meta, body) = Frontmatter::parse(text);
    assert!(meta.title.is_none());
    assert!(meta.date.is_none());
    assert!(meta.tags.is_none());
    assert!(meta.slug.is_none());
    assert_eq!(body, text);
}

#[test]
fn parse_empty_text() {
    let (meta, body) = Frontmatter::parse("");
    assert!(meta.title.is_none());
    assert_eq!(body, "");
}

#[test]
fn parse_unclosed_marker_keeps_everything() {
    let text = "---\nkey: v\nno closer";
    let (meta, body) = Frontmatter::parse(text);
    assert!(meta.title.is_none());
    assert!(meta.date.is_none());
    assert!(meta.tags.is_none());
    assert!(meta.slug.is_none());
    assert_eq!(body, "---\nkey: v\nno closer");
}

#[test]
fn parse_half_marker() {
    let (meta, body) = Frontmatter::parse("---\nhalf");
    assert!(meta.title.is_none());
    assert_eq!(body, "---\nhalf");
}

#[test]
fn parse_all_fields() {
    let text = "---\ntitle:  Hello World \ndate: 2024-01-02\nslug: hello\nauthor: me\n---\n\n  # Body\n";
    let (meta, body) = Frontmatter::parse(text);
    assert_eq!(meta.title.as_deref(), Some("Hello World"));
    assert_eq!(meta.date.as_deref(), Some("2024-01-02"));
    assert_eq!(meta.slug.as_deref(), Some("hello"));
    assert!(meta.tags.is_none());
    assert_eq!(body, "# Body\n");
}

#[test]
fn inline_and_block_tags_agree() {
    let (a, _) = Frontmatter::parse("---\ntags: a, b, c\n---\nx");
    let (b, _) = Frontmatter::parse("---\ntags:\n- a\n- b\n- c\n---\nx");
    let expected = vec!["a".to_string(), "b".to_string(), "c".to_string()];
    assert_eq!(a.tags, Some(expected.clone()));
    assert_eq!(b.tags, Some(expected));
}

#[test]
fn inline_tags_drop_empty_items() {
    let (m, _) = Frontmatter::parse("---\ntags: , x ,, y,\n---\n");
    assert_eq!(m.tags, Some(vec!["x".to_string(), "y".to_string()]));
}

#[test]
fn block_tags() {
    let (m, body) = Frontmatter::parse("---\ntags:\n- rust\n- web dev\n---\nText");
    assert_eq!(m.tags, Some(vec!["rust".to_string(), "web dev".to_string()]));
    assert_eq!(body, "Text");
}

#[test]
fn block_tags_end_at_next_key() {
    let (m, _) = Frontmatter::parse("---\ntags:\n  - one\n  -\n  - two\ntitle: T\n- ignored\n---\n");
    assert_eq!(m.tags, Some(vec!["one".to_string(), "two".to_string()]));
    assert_eq!(m.title.as_deref(), Some("T"));
}

#[test]
fn inline_tags_override_block_list() {
    let (m, _) = Frontmatter::parse("---\ntags:\n- a\ntags: z\n- b\n---\n");
    assert_eq!(m.tags, Some(vec!["z".to_string()]));
}

#[test]
fn list_items_after_other_keys_are_ignored() {
    let (m, _) = Frontmatter::parse("---\nauthor:\n- a\nplain line\n---\n");
    assert!(m.tags.is_none());
}

#[test]
fn crlf_lines_are_trimmed() {
    let (m, body) = Frontmatter::parse("---\r\ntitle: T\r\ndate: D\r\n---\r\nBody");
    assert_eq!(m.title.as_deref(), Some("T"));
    assert_eq!(m.date.as_deref(), Some("D"));
    assert_eq!(body, "Body");
}

#[test]
fn value_keeps_later_colons() {
    let (m, _) = Frontmatter::parse("---\ntitle: a: b\n---\n");
    assert_eq!(m.title.as_deref(), Some("a: b"));
}

#[test]
fn empty_section() {
    let (m, body) = Frontmatter::parse("---\n---\nrest");
    assert!(m.title.is_none());
    assert!(m.tags.is_none());
    assert_eq!(body, "rest");
}
