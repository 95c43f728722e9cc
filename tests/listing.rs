use bread::listing::{posts_context, posts_page, sort_posts, text_less, unique_sorted};
use bread::plan::{plan_site, SourceDoc};
use bread::site::PostMetadata;

fn post(title: &str, date: &str, tags: &[&str]) -> PostMetadata {
    PostMetadata {
        title: title.to_string(),
        date: date.to_string(),
        tags: tags.iter().map(|t| t.to_string()).collect(),
        url: format!("/{}.html", title),
    }
}

fn doc(rel_dir: &str, stem: &str, content: &str) -> SourceDoc {
    SourceDoc { rel_dir: rel_dir.to_string(), stem: Some(stem.to_string()), content: content.to_string() }
}

#[test]
fn string_order() {
    assert!(text_less("2024-01-01", "2024-02-01"));
    assert!(!text_less("b", "a"));
    assert!(text_less("", "a"));
    assert!(!text_less("a", "a"));
    assert!(text_less("ab", "abc"));
}

#[test]
fn sort_newest_first() {
    let sorted = sort_posts(vec![post("a", "2024-01-01", &[]), post("b", "2024-03-01", &[]), post("c", "2024-02-01", &[])]);
    let titles: Vec<&str> = sorted.iter().map(|p| p.title.as_str()).collect();
    assert_eq!(titles, vec!["b", "c", "a"]);
}

#[test]
fn sort_keeps_order_of_ties() {
    let sorted = sort_posts(vec![post("x", "", &[]), post("y", "2024", &[]), post("z", "", &[]), post("w", "2024", &[])]);
    let titles: Vec<&str> = sorted.iter().map(|p| p.title.as_str()).collect();
    assert_eq!(titles, vec!["y", "w", "x", "z"]);
}

#[test]
fn tags_sorted_unique() {
    let tags = unique_sorted(vec!["b".to_string(), "ab".to_string(), "a".to_string(), "b".to_string(), "ab".to_string()]);
    assert_eq!(tags, vec!["a".to_string(), "ab".to_string(), "b".to_string()]);
    assert!(unique_sorted(Vec::new()).is_empty());
}

#[test]
fn listing_context() {
    let posts = vec![post("p1", "2024-02-02", &["  hello world  ", "b"]), post("p2", "2024-01-01", &["b", "a"])];
    let ctx = posts_context(&posts);
    assert_eq!(ctx.post_count, 2);
    assert_eq!(
        ctx.tag_options,
        "        <option value=\"a\">#a</option>        <option value=\"b\">#b</option>        <option value=\"helloworld\">#helloworld</option>"
    );
    let first_row = "          <div class=\"post-item\">\n            <h3><a href=\"/bread//p1.html\">p1</a></h3>\n            <div class=\"post-meta\">\n              <span class=\"post-date\">2024-02-02</span>\n              <span class=\"post-tags\"><span class=\"tag clickable-tag\" data-tag=\"helloworld\">#helloworld</span><span class=\"tag clickable-tag\" data-tag=\"b\">#b</span></span>\n            </div>\n          </div>\n";
    assert!(ctx.posts.starts_with(first_row));
    assert!(ctx.posts.contains("#helloworld"));
}

#[test]
fn no_listing_without_posts() {
    assert!(posts_page(Vec::new()).is_none());
    let one = posts_page(vec![post("solo", "", &[])]).unwrap();
    assert_eq!(one.post_count, 1);
}

#[test]
fn index_filter_and_order() {
    let docs = vec![
        doc("", "index", "---\ndate: 2024-01-01\n---\nHome"),
        doc("", "a", "---\ntitle: A\ndate: 2024-03-01\n---\nA"),
        doc("", "b", "---\ntitle: B\ndate: 2024-02-01\n---\nB"),
    ];
    let plan = plan_site(&docs);
    assert_eq!(plan.pages.len(), 3);
    assert_eq!(plan.pages[0].file_name, "index.html");
    let listing = plan.listing.unwrap();
    assert_eq!(listing.post_count, 2);
    let a = listing.posts.find("/bread//a.html").unwrap();
    let b = listing.posts.find("/bread//b.html").unwrap();
    assert!(a < b);
    assert!(!listing.posts.contains("index"));
}

#[test]
fn single_post_site() {
    let plan = plan_site(&vec![doc("", "hello", "# Hi")]);
    assert_eq!(plan.pages.len(), 1);
    assert_eq!(plan.pages[0].file_name, "hello.html");
    assert!(plan.pages[0].context.content.contains("<h1>Hi</h1>"));
    assert_eq!(plan.listing.unwrap().post_count, 1);
}

#[test]
fn empty_site() {
    let plan = plan_site(&Vec::new());
    assert!(plan.pages.is_empty());
    assert!(plan.listing.is_none());
}

#[test]
fn only_index_pages_give_no_listing() {
    let plan = plan_site(&vec![doc("docs", "index", "x")]);
    assert_eq!(plan.pages.len(), 1);
    assert!(plan.listing.is_none());
}

#[test]
fn build_is_deterministic() {
    let docs = vec![doc("a/b", "post", "---\ntags: x, y\n---\nText"), doc("", "other", "# O")];
    let first = plan_site(&docs);
    let second = plan_site(&docs);
    assert_eq!(first.pages.len(), second.pages.len());
    for (p, q) in first.pages.iter().zip(second.pages.iter()) {
        assert_eq!(p.file_name, q.file_name);
        assert_eq!(p.context.content, q.context.content);
        assert_eq!(p.context.tags, q.context.tags);
        assert_eq!(p.context.keywords, q.context.keywords);
    }
    let (l1, l2) = (first.listing.unwrap(), second.listing.unwrap());
    assert_eq!(l1.posts, l2.posts);
    assert_eq!(l1.tag_options, l2.tag_options);
}
