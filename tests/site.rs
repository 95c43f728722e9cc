use bread::frontmatter::Frontmatter;
use bread::site::{
    collect_post_metadata, is_index, join_with, normalize_tag, output_filename, page_tag_chips,
    post_url, prepare_page,
};

#[test]
fn url_shapes() {
    assert_eq!(post_url("a/b", "post.html"), "/a/b/post.html");
    assert_eq!(post_url("", "post.html"), "/post.html");
    let nested = collect_post_metadata("a/b", Some("post"), "text").unwrap();
    assert_eq!(nested.url, "/a/b/post.html");
    let slugged = collect_post_metadata("a/b", Some("post"), "---\nslug: x\n---\ntext").unwrap();
    assert_eq!(slugged.url, "/a/b/x.html");
    let top = collect_post_metadata("", Some("post"), "text").unwrap();
    assert_eq!(top.url, "/post.html");
}

#[test]
fn filename_fallbacks() {
    let (with_slug, _) = Frontmatter::parse("---\nslug: s\n---\n");
    assert_eq!(output_filename(&with_slug, Some("stem")), "s.html");
    let (plain, _) = Frontmatter::parse("body");
    assert_eq!(output_filename(&plain, Some("stem")), "stem.html");
    assert_eq!(output_filename(&plain, None), "output.html");
}

#[test]
fn slug_override() {
    let doc = "---\nslug: intro\n---\nHello";
    let page = prepare_page(Some("2024-01-my-post"), doc);
    assert_eq!(page.file_name, "intro.html");
    let post = collect_post_metadata("notes", Some("2024-01-my-post"), doc).unwrap();
    assert_eq!(post.url, "/notes/intro.html");
}

#[test]
fn index_names() {
    assert!(is_index("index.html"));
    assert!(is_index("myindex-2.html"));
    assert!(!is_index("Index.html"));
    assert!(!is_index("post.html"));
    assert!(collect_post_metadata("", Some("index"), "# Home").is_none());
    assert!(collect_post_metadata("", Some("post"), "---\nslug: reindex\n---\n").is_none());
}

#[test]
fn metadata_defaults() {
    let p = collect_post_metadata("", Some("hello"), "# Hi").unwrap();
    assert_eq!(p.title, "Untitled");
    assert_eq!(p.date, "");
    assert!(p.tags.is_empty());
    assert_eq!(p.url, "/hello.html");
}

#[test]
fn tag_normalization() {
    assert_eq!(normalize_tag("  hello world  "), "helloworld");
    let tags = vec!["  hello world  ".to_string()];
    assert_eq!(page_tag_chips(&tags), "<span class=\"tag\">#helloworld</span>");
    assert_eq!(join_with(&tags, ", "), "  hello world  ");
}

#[test]
fn chips_and_keywords() {
    let tags = vec!["rust".to_string(), "web dev".to_string()];
    assert_eq!(
        page_tag_chips(&tags),
        "<span class=\"tag\">#rust</span><span class=\"tag\">#webdev</span>"
    );
    assert_eq!(join_with(&tags, ", "), "rust, web dev");
    assert_eq!(join_with(&Vec::new(), ", "), "");
}

#[test]
fn single_post_page() {
    let page = prepare_page(Some("hello"), "# Hi");
    assert_eq!(page.file_name, "hello.html");
    assert_eq!(page.context.title, "Untitled");
    assert!(page.context.content.contains("<h1>Hi</h1>"));
    assert_eq!(page.context.tags, "");
    assert_eq!(page.context.keywords, "");
    assert_eq!(page.context.date, "");
}

#[test]
fn block_tags_page() {
    let page = prepare_page(Some("p"), "---\ntitle: T\ndate: 2024-05-06\ntags:\n- rust\n- web dev\n---\nBody *em*");
    assert_eq!(page.context.title, "T");
    assert_eq!(page.context.date, "2024-05-06");
    assert!(page.context.tags.contains("#rust"));
    assert!(page.context.tags.contains("#webdev"));
    assert!(page.context.keywords.contains("rust, web dev"));
    assert!(page.context.content.contains("<em>em</em>"));
    let post = collect_post_metadata("", Some("p"), "---\ntags:\n- rust\n- web dev\n---\n").unwrap();
    assert_eq!(post.tags, vec!["rust".to_string(), "web dev".to_string()]);
}

#[test]
fn markdown_features() {
    let page = prepare_page(Some("f"), "~~gone~~\n\n| a | b |\n|---|---|\n| 1 | 2 |\n\n- [x] done\n");
    assert!(page.context.content.contains("<del>gone</del>"));
    assert!(page.context.content.contains("<table>"));
    assert!(page.context.content.contains("checkbox"));
}

#[test]
fn unclosed_marker_page() {
    let page = prepare_page(Some("half"), "---\nhalf");
    assert_eq!(page.file_name, "half.html");
    assert!(page.context.content.contains("half"));
    assert_eq!(page.context.title, "Untitled");
}
