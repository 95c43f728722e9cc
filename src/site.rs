//! Output names, public URLs, post records and the context of each page.
use vstd::prelude::*;
use vstd::string::StringExecFns;
use crate::frontmatter::{parse_doc, Frontmatter, FrontmatterView};
use crate::text::{chars_of, contains_seq, remove_char, remove_char_exec, string_of, trim, trim_range};

verus! {

/// `o`'s value, or `d` where there is none.
pub open spec fn or_else<T>(o: Option<T>, d: T) -> T {
    match o {
        Some(x) => x,
        None => d,
    }
}

/// The output file name: the slug, else the file stem, with `.html`; `output.html`
/// when neither is known.
pub open spec fn file_name(slug: Option<Seq<char>>, stem: Option<Seq<char>>) -> Seq<char> {
    match slug {
        Some(s) => s + ".html"@,
        None => match stem {
            Some(t) => t + ".html"@,
            None => "output.html"@,
        },
    }
}

/// The public URL of a page in directory `rel_dir` (relative to the content root).
pub open spec fn url_of(rel_dir: Seq<char>, name: Seq<char>) -> Seq<char> {
    if rel_dir.len() == 0 {
        "/"@ + name
    } else {
        "/"@ + rel_dir + "/"@ + name
    }
}

/// Index pages are rendered but left out of the post listing.
pub open spec fn is_index_name(name: Seq<char>) -> bool {
    contains_seq(name, "index"@)
}

/// A tag as chips show it: trimmed, with its spaces taken out.
pub open spec fn norm_tag(t: Seq<char>) -> Seq<char> {
    remove_char(trim(t), ' ')
}

/// The items joined with `sep` between each two.
pub open spec fn join(items: Seq<Seq<char>>, sep: Seq<char>) -> Seq<char>
    decreases items.len(),
{
    if items.len() == 0 {
        seq![]
    } else if items.len() == 1 {
        items[0]
    } else {
        join(items.drop_last(), sep) + sep + items.last()
    }
}

/// One tag chip of a page.
pub open spec fn page_chip(t: Seq<char>) -> Seq<char> {
    "<span class=\"tag\">#"@ + norm_tag(t) + "</span>"@
}

/// The tag chips of a page, with nothing between them.
pub open spec fn page_chips(tags: Seq<Seq<char>>) -> Seq<char>
    decreases tags.len(),
{
    if tags.len() == 0 {
        seq![]
    } else {
        page_chips(tags.drop_last()) + page_chip(tags.last())
    }
}

/// The record of one post in the listing.
pub struct PostMetadata {
    pub title: String,
    pub date: String,
    pub tags: Vec<String>,
    pub url: String,
}

pub struct PostView {
    pub title: Seq<char>,
    pub date: Seq<char>,
    pub tags: Seq<Seq<char>>,
    pub url: Seq<char>,
}

impl View for PostMetadata {
    type V = PostView;

    open spec fn view(&self) -> PostView {
        PostView {
            title: self.title@,
            date: self.date@,
            tags: self.tags.deep_view(),
            url: self.url@,
        }
    }
}

/// The listing record of a document, or `None` for an index page.
pub open spec fn post_of(rel_dir: Seq<char>, stem: Option<Seq<char>>, content: Seq<char>) -> Option<
    PostView,
> {
    let m = parse_doc(content).0;
    let name = file_name(m.slug, stem);
    if is_index_name(name) {
        None
    } else {
        Some(
            PostView {
                title: or_else(m.title, "Untitled"@),
                date: or_else(m.date, seq![]),
                tags: or_else(m.tags, seq![]),
                url: url_of(rel_dir, name),
            },
        )
    }
}

/// What the page template receives.
pub struct PageContext {
    pub title: String,
    pub content: String,
    pub tags: String,
    pub keywords: String,
    pub date: String,
}

pub struct PageContextView {
    pub title: Seq<char>,
    pub content: Seq<char>,
    pub tags: Seq<char>,
    pub keywords: Seq<char>,
    pub date: Seq<char>,
}

impl View for PageContext {
    type V = PageContextView;

    open spec fn view(&self) -> PageContextView {
        PageContextView {
            title: self.title@,
            content: self.content@,
            tags: self.tags@,
            keywords: self.keywords@,
            date: self.date@,
        }
    }
}

/// The HTML that the Markdown engine makes of a text.
pub uninterp spec fn markdown_html(md: Seq<char>) -> Seq<char>;

/// Relies on `pulldown_cmark::Parser::new_ext` and `pulldown_cmark::html::push_html`: the
/// HTML of a Markdown text, with strikethrough, tables, footnotes and task lists on; it
/// depends on the text alone.
#[verifier::external_body]
fn markdown_to_html(markdown: &str) -> (r: String)
    ensures
        r@ == markdown_html(markdown@),
{
    let mut options = pulldown_cmark::Options::empty();
    options.insert(pulldown_cmark::Options::ENABLE_STRIKETHROUGH);
    options.insert(pulldown_cmark::Options::ENABLE_TABLES);
    options.insert(pulldown_cmark::Options::ENABLE_FOOTNOTES);
    options.insert(pulldown_cmark::Options::ENABLE_TASKLISTS);
    let parser = pulldown_cmark::Parser::new_ext(markdown, options);
    let mut html = String::new();
    pulldown_cmark::html::push_html(&mut html, parser);
    html
}

/// The template context of a page with the given metadata and body HTML.
pub open spec fn page_context_of(m: FrontmatterView, html: Seq<char>) -> PageContextView {
    let tags = or_else(m.tags, seq![]);
    PageContextView {
        title: or_else(m.title, "Untitled"@),
        content: html,
        tags: page_chips(tags),
        keywords: join(tags, ", "@),
        date: or_else(m.date, seq![]),
    }
}

/// A page ready for the template: where it goes and what the template receives.
pub struct PreparedPage {
    pub file_name: String,
    pub context: PageContext,
}

/// The page made of a document.
pub open spec fn prepared_of(stem: Option<Seq<char>>, content: Seq<char>) -> (
    Seq<char>,
    PageContextView,
) {
    let (m, body) = parse_doc(content);
    (file_name(m.slug, stem), page_context_of(m, markdown_html(body)))
}

pub open spec fn opt_str(o: Option<&str>) -> Option<Seq<char>> {
    match o {
        Some(s) => Some(s@),
        None => None,
    }
}

pub open spec fn opt_post(o: Option<PostMetadata>) -> Option<PostView> {
    match o {
        Some(p) => Some(p@),
        None => None,
    }
}

/// The output file name of a document with metadata `meta` and file stem `stem`.
pub fn output_filename(meta: &Frontmatter, stem: Option<&str>) -> (r: String)
    ensures
        r@ == file_name(meta@.slug, opt_str(stem)),
{
    let mut r = String::new();
    match &meta.slug {
        Some(s) => {
            r.append(s.as_str());
            r.append(".html");
        },
        None => match stem {
            Some(t) => {
                r.append(t);
                r.append(".html");
            },
            None => r.append("output.html"),
        },
    }
    r
}

/// The public URL of the page `name` in directory `rel_dir`.
pub fn post_url(rel_dir: &str, name: &str) -> (r: String)
    ensures
        r@ == url_of(rel_dir@, name@),
{
    let mut r = String::new();
    r.append("/");
    if !rel_dir.is_empty() {
        r.append(rel_dir);
        r.append("/");
    }
    r.append(name);
    r
}

/// Whether a page of this name is an index page.
pub fn is_index(name: &str) -> (r: bool)
    ensures
        r == is_index_name(name@),
{
    let s = chars_of(name);
    let p = chars_of("index");
    crate::text::contains_exec(&s, &p)
}

/// The listing record of a document in directory `rel_dir` with file stem `stem`;
/// `None` where its output name marks an index page.
pub fn collect_post_metadata(rel_dir: &str, stem: Option<&str>, content: &str) -> (r: Option<
    PostMetadata,
>)
    ensures
        opt_post(r) == post_of(rel_dir@, opt_str(stem), content@),
{
    let (meta, _) = Frontmatter::parse(content);
    let name = output_filename(&meta, stem);
    if is_index(name.as_str()) {
        return None;
    }
    let url = post_url(rel_dir, name.as_str());
    let Frontmatter { title, date, tags, slug: _ } = meta;
    let title = match title {
        Some(t) => t,
        None => "Untitled".to_owned(),
    };
    let date = match date {
        Some(d) => d,
        None => String::new(),
    };
    let tags = match tags {
        Some(v) => v,
        None => {
            let e: Vec<String> = Vec::new();
            assert(e.deep_view() =~= Seq::<Seq<char>>::empty());
            e
        },
    };
    Some(PostMetadata { title, date, tags, url })
}

/// A tag as chips show it.
pub fn normalize_tag(t: &str) -> (r: String)
    ensures
        r@ == norm_tag(t@),
{
    let s = chars_of(t);
    let trimmed = trim_range(&s, 0, s.len());
    assert(s@.subrange(0, s@.len() as int) =~= s@);
    let bare = remove_char_exec(&trimmed, ' ');
    string_of(&bare)
}

/// The tag chips of a page.
pub fn page_tag_chips(tags: &Vec<String>) -> (r: String)
    ensures
        r@ == page_chips(tags.deep_view()),
{
    let mut r = String::new();
    let mut i: usize = 0;
    assert(tags.deep_view().subrange(0, 0) =~= Seq::<Seq<char>>::empty());
    while i < tags.len()
        invariant
            i <= tags@.len(),
            r@ == page_chips(tags.deep_view().subrange(0, i as int)),
        decreases tags@.len() - i,
    {
        assert(tags.deep_view().subrange(0, i + 1).drop_last() =~= tags.deep_view().subrange(
            0,
            i as int,
        ));
        let n = normalize_tag(tags[i].as_str());
        r.append("<span class=\"tag\">#");
        r.append(n.as_str());
        r.append("</span>");
        i = i + 1;
    }
    assert(tags.deep_view().subrange(0, tags@.len() as int) =~= tags.deep_view());
    r
}

/// The items joined with `sep`.
pub fn join_with(items: &Vec<String>, sep: &str) -> (r: String)
    ensures
        r@ == join(items.deep_view(), sep@),
{
    let mut r = String::new();
    let mut i: usize = 0;
    assert(items.deep_view().subrange(0, 0) =~= Seq::<Seq<char>>::empty());
    while i < items.len()
        invariant
            i <= items@.len(),
            r@ == join(items.deep_view().subrange(0, i as int), sep@),
        decreases items@.len() - i,
    {
        assert(items.deep_view().subrange(0, i + 1).drop_last() =~= items.deep_view().subrange(
            0,
            i as int,
        ));
        if i > 0 {
            r.append(sep);
        } else {
            assert(r@ + items.deep_view()[0] =~= items.deep_view()[0]);
        }
        r.append(items[i].as_str());
        i = i + 1;
    }
    assert(items.deep_view().subrange(0, items@.len() as int) =~= items.deep_view());
    r
}

/// The output name and template context of a document with file stem `stem`.
pub fn prepare_page(stem: Option<&str>, content: &str) -> (r: PreparedPage)
    ensures
        (r.file_name@, r.context@) == prepared_of(opt_str(stem), content@),
{
    let (meta, body) = Frontmatter::parse(content);
    let file_name = output_filename(&meta, stem);
    let html = markdown_to_html(body);
    let Frontmatter { title, date, tags, slug: _ } = meta;
    let tags = match tags {
        Some(v) => v,
        None => {
            let e: Vec<String> = Vec::new();
            assert(e.deep_view() =~= Seq::<Seq<char>>::empty());
            e
        },
    };
    let chips = page_tag_chips(&tags);
    let keywords = join_with(&tags, ", ");
    let title = match title {
        Some(t) => t,
        None => "Untitled".to_owned(),
    };
    let date = match date {
        Some(d) => d,
        None => String::new(),
    };
    PreparedPage {
        file_name,
        context: PageContext { title, content: html, tags: chips, keywords, date },
    }
}

} // verus!
