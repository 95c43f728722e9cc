//! The build of a whole site from its documents: every page, and the listing.
use vstd::prelude::*;
use crate::listing::{posts_context_of, posts_page, sort_desc, views, PostsContext, PostsContextView};
use crate::site::{
    collect_post_metadata, is_index_name, opt_post, post_of, prepare_page, prepared_of, url_of,
    PageContextView, PostMetadata, PostView, PreparedPage,
};

verus! {

/// A document as discovery hands it over: its directory relative to the content
/// root (`/`-separated, empty at the root), its file stem if it has a readable one,
/// and its text.
pub struct SourceDoc {
    pub rel_dir: String,
    pub stem: Option<String>,
    pub content: String,
}

pub struct DocView {
    pub rel_dir: Seq<char>,
    pub stem: Option<Seq<char>>,
    pub content: Seq<char>,
}

impl View for SourceDoc {
    type V = DocView;

    open spec fn view(&self) -> DocView {
        DocView {
            rel_dir: self.rel_dir@,
            stem: match self.stem {
                Some(s) => Some(s@),
                None => None,
            },
            content: self.content@,
        }
    }
}

/// Everything a build writes: one page per document, in discovery order, and the
/// listing when any post is left.
pub struct SitePlan {
    pub pages: Vec<PreparedPage>,
    pub listing: Option<PostsContext>,
}

pub struct SitePlanView {
    pub pages: Seq<(Seq<char>, PageContextView)>,
    pub listing: Option<PostsContextView>,
}

impl View for SitePlan {
    type V = SitePlanView;

    open spec fn view(&self) -> SitePlanView {
        SitePlanView {
            pages: Seq::new(self.pages@.len(), |i: int| (self.pages@[i].file_name@, self.pages@[i].context@)),
            listing: match self.listing {
                Some(c) => Some(c@),
                None => None,
            },
        }
    }
}

/// The listing records of the documents that are not index pages, in discovery order.
pub open spec fn posts_of(docs: Seq<DocView>) -> Seq<PostView>
    decreases docs.len(),
{
    if docs.len() == 0 {
        seq![]
    } else {
        let d = docs.last();
        match post_of(d.rel_dir, d.stem, d.content) {
            Some(p) => posts_of(docs.drop_last()).push(p),
            None => posts_of(docs.drop_last()),
        }
    }
}

/// What a build of these documents writes.
pub open spec fn site_of(docs: Seq<DocView>) -> SitePlanView {
    let posts = posts_of(docs);
    SitePlanView {
        pages: Seq::new(docs.len(), |i: int| prepared_of(docs[i].stem, docs[i].content)),
        listing: if posts.len() == 0 {
            None
        } else {
            Some(posts_context_of(sort_desc(posts)))
        },
    }
}

pub open spec fn doc_views(docs: Seq<SourceDoc>) -> Seq<DocView> {
    Seq::new(docs.len(), |i: int| docs[i]@)
}

/// Both passes of a build: the listing records, sorted newest first, then every page.
pub fn plan_site(docs: &Vec<SourceDoc>) -> (r: SitePlan)
    ensures
        r@ == site_of(doc_views(docs@)),
{
    let ghost dv = doc_views(docs@);
    let mut posts: Vec<PostMetadata> = Vec::new();
    let mut i: usize = 0;
    assert(dv.subrange(0, 0) =~= Seq::<DocView>::empty());
    assert(views(posts@) =~= Seq::<PostView>::empty());
    while i < docs.len()
        invariant
            dv == doc_views(docs@),
            i <= dv.len(),
            views(posts@) == posts_of(dv.subrange(0, i as int)),
        decreases dv.len() - i,
    {
        assert(dv.subrange(0, i + 1).drop_last() =~= dv.subrange(0, i as int));
        let d = &docs[i];
        let stem = match &d.stem {
            Some(s) => Some(s.as_str()),
            None => None,
        };
        let found = collect_post_metadata(d.rel_dir.as_str(), stem, d.content.as_str());
        match found {
            Some(p) => {
                let ghost before = views(posts@);
                posts.push(p);
                assert(views(posts@) =~= before.push(opt_post(Some(p))->0));
            },
            None => {},
        }
        i = i + 1;
    }
    assert(dv.subrange(0, dv.len() as int) =~= dv);
    let ghost post_views = views(posts@);
    let mut pages: Vec<PreparedPage> = Vec::new();
    let mut k: usize = 0;
    while k < docs.len()
        invariant
            dv == doc_views(docs@),
            k <= dv.len(),
            pages@.len() == k,
            forall|j: int|
                0 <= j < k ==> (#[trigger] pages@[j].file_name@, pages@[j].context@) == prepared_of(
                    dv[j].stem,
                    dv[j].content,
                ),
        decreases dv.len() - k,
    {
        let d = &docs[k];
        let stem = match &d.stem {
            Some(s) => Some(s.as_str()),
            None => None,
        };
        pages.push(prepare_page(stem, d.content.as_str()));
        k = k + 1;
    }
    let listing = posts_page(posts);
    let r = SitePlan { pages, listing };
    assert(r@.pages =~= site_of(dv).pages);
    r
}

/// A document whose output name marks an index page is left out of the listing but
/// still has its page; any other document is listed under the URL of that page.
pub proof fn lemma_index_excluded(d: DocView)
    ensures
        is_index_name(prepared_of(d.stem, d.content).0) ==> post_of(d.rel_dir, d.stem, d.content)
            is None,
        !is_index_name(prepared_of(d.stem, d.content).0) ==> post_of(
            d.rel_dir,
            d.stem,
            d.content,
        ) is Some && post_of(d.rel_dir, d.stem, d.content)->0.url == url_of(
            d.rel_dir,
            prepared_of(d.stem, d.content).0,
        ),
{
}

/// A build is a function of its documents: the same documents give the same pages
/// and the same listing, byte for byte.
pub proof fn lemma_build_deterministic(a: Seq<DocView>, b: Seq<DocView>)
    requires
        a =~= b,
    ensures
        site_of(a) == site_of(b),
{
}

} // verus!
