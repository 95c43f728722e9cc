//! The aggregate page: posts newest first, their rows and the tag filter options.
use vstd::prelude::*;
use vstd::string::StringExecFns;
use crate::site::{norm_tag, normalize_tag, PostMetadata, PostView};
use crate::text::chars_of;

verus! {

/// Lexicographic order of texts by code point, the order of `String`'s `Ord`.
pub open spec fn text_lt(a: Seq<char>, b: Seq<char>) -> bool
    decreases a.len(),
{
    if b.len() == 0 {
        false
    } else if a.len() == 0 {
        true
    } else if a[0] != b[0] {
        (a[0] as u32) < (b[0] as u32)
    } else {
        text_lt(a.drop_first(), b.drop_first())
    }
}

pub proof fn lemma_lt_irreflexive(a: Seq<char>)
    ensures
        !text_lt(a, a),
    decreases a.len(),
{
    if a.len() > 0 {
        lemma_lt_irreflexive(a.drop_first());
    }
}

pub proof fn lemma_lt_transitive(a: Seq<char>, b: Seq<char>, c: Seq<char>)
    requires
        text_lt(a, b),
        text_lt(b, c),
    ensures
        text_lt(a, c),
    decreases a.len(),
{
    if a.len() > 0 && b.len() > 0 && c.len() > 0 && a[0] == b[0] && b[0] == c[0] {
        lemma_lt_transitive(a.drop_first(), b.drop_first(), c.drop_first());
    }
}

pub proof fn lemma_lt_total(a: Seq<char>, b: Seq<char>)
    requires
        a != b,
    ensures
        text_lt(a, b) || text_lt(b, a),
    decreases a.len(),
{
    if a.len() > 0 && b.len() > 0 {
        if a[0] == b[0] {
            if a.drop_first() == b.drop_first() {
                assert(a =~= seq![a[0]] + a.drop_first());
                assert(b =~= seq![b[0]] + b.drop_first());
            }
            lemma_lt_total(a.drop_first(), b.drop_first());
        } else {
            vstd::utf8::char_u32_cast(a[0], a[0] as u32);
            vstd::utf8::char_u32_cast(b[0], b[0] as u32);
        }
    } else if a.len() == 0 && b.len() == 0 {
        assert(a =~= b);
    }
}

/// `text_lt` is a strict order: its negation, "not before", is transitive.
pub proof fn lemma_not_lt_transitive(a: Seq<char>, b: Seq<char>, c: Seq<char>)
    requires
        !text_lt(a, b),
        !text_lt(b, c),
    ensures
        !text_lt(a, c),
{
    if a != b && b != c {
        lemma_lt_total(a, b);
        lemma_lt_total(b, c);
        lemma_lt_transitive(c, b, a);
        if text_lt(a, c) {
            lemma_lt_transitive(a, c, a);
            lemma_lt_irreflexive(a);
        }
    }
}

/// No post comes before a later one with a newer date.
pub open spec fn newest_first(s: Seq<PostView>) -> bool {
    forall|i: int, j: int| 0 <= i < j < s.len() ==> !text_lt(#[trigger] s[i].date, #[trigger] s[j].date)
}

/// `p` placed into a list sorted newest first, after every post that is not older.
pub open spec fn insert_desc(sorted: Seq<PostView>, p: PostView) -> Seq<PostView>
    decreases sorted.len(),
{
    if sorted.len() == 0 {
        seq![p]
    } else if text_lt(sorted.last().date, p.date) {
        insert_desc(sorted.drop_last(), p).push(sorted.last())
    } else {
        sorted.push(p)
    }
}

/// The posts sorted by date, newest first; posts of equal date keep their order.
pub open spec fn sort_desc(posts: Seq<PostView>) -> Seq<PostView>
    decreases posts.len(),
{
    if posts.len() == 0 {
        seq![]
    } else {
        insert_desc(sort_desc(posts.drop_last()), posts.last())
    }
}

proof fn lemma_insert_desc_bound(s: Seq<PostView>, p: PostView, x: Seq<char>)
    requires
        forall|i: int| 0 <= i < s.len() ==> !text_lt(#[trigger] s[i].date, x),
        !text_lt(p.date, x),
    ensures
        forall|i: int|
            0 <= i < insert_desc(s, p).len() ==> !text_lt(#[trigger] insert_desc(s, p)[i].date, x),
        insert_desc(s, p).len() == s.len() + 1,
    decreases s.len(),
{
    if s.len() > 0 && text_lt(s.last().date, p.date) {
        lemma_insert_desc_bound(s.drop_last(), p, x);
    }
}

proof fn lemma_insert_desc_sorted(s: Seq<PostView>, p: PostView)
    requires
        newest_first(s),
    ensures
        newest_first(insert_desc(s, p)),
    decreases s.len(),
{
    if s.len() == 0 {
    } else if text_lt(s.last().date, p.date) {
        let rest = s.drop_last();
        assert(newest_first(rest));
        lemma_insert_desc_sorted(rest, p);
        assert forall|i: int| 0 <= i < rest.len() implies !text_lt(#[trigger] rest[i].date, s.last().date) by {
            assert(s[i] == rest[i]);
        }
        lemma_lt_irreflexive(p.date);
        if text_lt(p.date, s.last().date) {
            lemma_lt_transitive(p.date, s.last().date, p.date);
        }
        lemma_insert_desc_bound(rest, p, s.last().date);
    } else {
        assert forall|i: int| 0 <= i < s.len() implies !text_lt(#[trigger] s[i].date, p.date) by {
            if i < s.len() - 1 {
                lemma_not_lt_transitive(s[i].date, s.last().date, p.date);
            }
        }
    }
}

/// The listing order: every post comes before any post with a newer date, so
/// posts of distinct dates stand in strictly descending order of date.
pub proof fn lemma_sorted_newest_first(posts: Seq<PostView>)
    ensures
        newest_first(sort_desc(posts)),
        sort_desc(posts).len() == posts.len(),
    decreases posts.len(),
{
    if posts.len() > 0 {
        lemma_sorted_newest_first(posts.drop_last());
        lemma_insert_desc_sorted(sort_desc(posts.drop_last()), posts.last());
        lemma_insert_desc_bound(sort_desc(posts.drop_last()), posts.last(), seq![]);
    }
}

/// The posts of date `d`, in their order in `s`.
pub open spec fn with_date(s: Seq<PostView>, d: Seq<char>) -> Seq<PostView>
    decreases s.len(),
{
    if s.len() == 0 {
        seq![]
    } else if s.last().date == d {
        with_date(s.drop_last(), d).push(s.last())
    } else {
        with_date(s.drop_last(), d)
    }
}

proof fn lemma_with_date_push(s: Seq<PostView>, p: PostView, d: Seq<char>)
    ensures
        with_date(s.push(p), d) == if p.date == d {
            with_date(s, d).push(p)
        } else {
            with_date(s, d)
        },
{
    assert(s.push(p).drop_last() =~= s);
}

proof fn lemma_insert_desc_stable(s: Seq<PostView>, p: PostView, d: Seq<char>)
    ensures
        with_date(insert_desc(s, p), d) == if p.date == d {
            with_date(s, d).push(p)
        } else {
            with_date(s, d)
        },
    decreases s.len(),
{
    if s.len() == 0 {
        assert(insert_desc(s, p) =~= s.push(p));
        lemma_with_date_push(s, p, d);
    } else if text_lt(s.last().date, p.date) {
        let rest = s.drop_last();
        lemma_insert_desc_stable(rest, p, d);
        lemma_with_date_push(insert_desc(rest, p), s.last(), d);
        lemma_lt_irreflexive(p.date);
        assert(rest.push(s.last()) =~= s);
        lemma_with_date_push(rest, s.last(), d);
    } else {
        assert(insert_desc(s, p) == s.push(p));
        lemma_with_date_push(s, p, d);
    }
}

/// Sorting keeps the order of posts of equal date: for every date, the posts of that
/// date stand in the listing in the order they were found.
pub proof fn lemma_sort_keeps_ties(posts: Seq<PostView>, d: Seq<char>)
    ensures
        with_date(sort_desc(posts), d) == with_date(posts, d),
    decreases posts.len(),
{
    if posts.len() > 0 {
        lemma_sort_keeps_ties(posts.drop_last(), d);
        lemma_insert_desc_stable(sort_desc(posts.drop_last()), posts.last(), d);
    }
}

/// `t` placed into an ascending list of distinct texts, unless it is there already.
pub open spec fn insert_asc(sorted: Seq<Seq<char>>, t: Seq<char>) -> Seq<Seq<char>>
    decreases sorted.len(),
{
    if sorted.len() == 0 {
        seq![t]
    } else if sorted.last() == t {
        sorted
    } else if text_lt(sorted.last(), t) {
        sorted.push(t)
    } else {
        insert_asc(sorted.drop_last(), t).push(sorted.last())
    }
}

/// The distinct items, ascending.
pub open spec fn sorted_unique(items: Seq<Seq<char>>) -> Seq<Seq<char>>
    decreases items.len(),
{
    if items.len() == 0 {
        seq![]
    } else {
        insert_asc(sorted_unique(items.drop_last()), items.last())
    }
}

/// Each text comes strictly before every later one, so none repeats.
pub open spec fn strictly_ascending(s: Seq<Seq<char>>) -> bool {
    forall|i: int, j: int| 0 <= i < j < s.len() ==> text_lt(#[trigger] s[i], #[trigger] s[j])
}

proof fn lemma_insert_asc(s: Seq<Seq<char>>, t: Seq<char>)
    requires
        strictly_ascending(s),
    ensures
        strictly_ascending(insert_asc(s, t)),
        forall|x: Seq<char>| #[trigger] insert_asc(s, t).contains(x) <==> (s.contains(x) || x == t),
    decreases s.len(),
{
    if s.len() == 0 {
        assert(insert_asc(s, t) =~= seq![t]);
        assert forall|x: Seq<char>| #[trigger] insert_asc(s, t).contains(x) <==> (s.contains(x) || x
            == t) by {
            if x == t {
                assert(insert_asc(s, t)[0] == t);
            }
        }
    } else if s.last() == t {
        assert(s.contains(s[s.len() - 1]));
    } else if text_lt(s.last(), t) {
        let r = s.push(t);
        assert forall|i: int, j: int| 0 <= i < j < r.len() implies text_lt(#[trigger] r[i], #[trigger] r[j]) by {
            if j == s.len() && i < s.len() - 1 {
                lemma_lt_transitive(s[i], s.last(), t);
            }
        }
        assert forall|x: Seq<char>| #[trigger] r.contains(x) <==> (s.contains(x) || x == t) by {
            if x == t {
                assert(r[s.len() as int] == t);
            }
            if s.contains(x) {
                let k = choose|k: int| 0 <= k < s.len() && s[k] == x;
                assert(r[k] == x);
            }
            if r.contains(x) && x != t {
                let k = choose|k: int| 0 <= k < r.len() && r[k] == x;
                assert(s[k] == x);
            }
        }
    } else {
        let rest = s.drop_last();
        let last = s.last();
        assert(strictly_ascending(rest));
        lemma_insert_asc(rest, t);
        lemma_lt_total(last, t);
        let mid = insert_asc(rest, t);
        let r = mid.push(last);
        assert(insert_asc(s, t) == r);
        assert forall|i: int| 0 <= i < mid.len() implies text_lt(#[trigger] mid[i], last) by {
            assert(mid.contains(mid[i]));
            if mid[i] != t {
                let k = choose|k: int| 0 <= k < rest.len() && rest[k] == mid[i];
                assert(s[k] == rest[k]);
            }
        }
        assert forall|i: int, j: int| 0 <= i < j < r.len() implies text_lt(#[trigger] r[i], #[trigger] r[j]) by {
            if j == mid.len() {
                assert(r[i] == mid[i]);
            } else {
                assert(r[i] == mid[i] && r[j] == mid[j]);
            }
        }
        assert(s =~= rest.push(last));
        assert forall|x: Seq<char>| #[trigger] r.contains(x) <==> (s.contains(x) || x == t) by {
            if r.contains(x) {
                let k = choose|k: int| 0 <= k < r.len() && r[k] == x;
                if k < mid.len() {
                    assert(mid[k] == x);
                    assert(mid.contains(x));
                    if rest.contains(x) {
                        let m = choose|m: int| 0 <= m < rest.len() && rest[m] == x;
                        assert(s[m] == x);
                    }
                } else {
                    assert(s[s.len() - 1] == x);
                }
            }
            if s.contains(x) {
                let k = choose|k: int| 0 <= k < s.len() && s[k] == x;
                if k < rest.len() {
                    assert(rest[k] == x);
                    assert(rest.contains(x));
                    assert(mid.contains(x));
                    let m = choose|m: int| 0 <= m < mid.len() && mid[m] == x;
                    assert(r[m] == x);
                } else {
                    assert(r[mid.len() as int] == x);
                }
            }
            if x == t {
                assert(mid.contains(t));
                let m = choose|m: int| 0 <= m < mid.len() && mid[m] == t;
                assert(r[m] == t);
            }
        }
    }
}

/// The filter options hold each normalized tag exactly once, in ascending order.
pub proof fn lemma_sorted_unique(items: Seq<Seq<char>>)
    ensures
        strictly_ascending(sorted_unique(items)),
        forall|x: Seq<char>| #[trigger] sorted_unique(items).contains(x) <==> items.contains(x),
    decreases items.len(),
{
    if items.len() > 0 {
        let rest = items.drop_last();
        lemma_sorted_unique(rest);
        lemma_insert_asc(sorted_unique(rest), items.last());
        assert(items =~= rest.push(items.last()));
        assert forall|x: Seq<char>| #[trigger] sorted_unique(items).contains(x) <==> items.contains(x) by {
            if items.contains(x) {
                let k = choose|k: int| 0 <= k < items.len() && items[k] == x;
                if k < rest.len() {
                    assert(rest[k] == x);
                    assert(rest.contains(x));
                }
            }
            if rest.contains(x) {
                let k = choose|k: int| 0 <= k < rest.len() && rest[k] == x;
                assert(items[k] == x);
            }
            if x == items.last() {
                assert(items[items.len() - 1] == x);
            }
        }
    }
}

pub open spec fn views(posts: Seq<PostMetadata>) -> Seq<PostView> {
    Seq::new(posts.len(), |i: int| posts[i]@)
}

/// One tag chip of the listing, which the filter can select.
pub open spec fn listing_chip(t: Seq<char>) -> Seq<char> {
    let n = norm_tag(t);
    "<span class=\"tag clickable-tag\" data-tag=\""@ + n + "\">#"@ + n + "</span>"@
}

pub open spec fn listing_chips(tags: Seq<Seq<char>>) -> Seq<char>
    decreases tags.len(),
{
    if tags.len() == 0 {
        seq![]
    } else {
        listing_chips(tags.drop_last()) + listing_chip(tags.last())
    }
}

/// The row of one post; its link goes under the `/bread` base path.
pub open spec fn post_row(p: PostView) -> Seq<char> {
    "          <div class=\"post-item\">\n            <h3><a href=\"/bread/"@ + p.url + "\">"@
        + p.title + "</a></h3>\n            <div class=\"post-meta\">\n              <span class=\"post-date\">"@
        + p.date + "</span>\n              <span class=\"post-tags\">"@ + listing_chips(p.tags)
        + "</span>\n            </div>\n          </div>\n"@
}

pub open spec fn post_rows(posts: Seq<PostView>) -> Seq<char>
    decreases posts.len(),
{
    if posts.len() == 0 {
        seq![]
    } else {
        post_rows(posts.drop_last()) + post_row(posts.last())
    }
}

/// The normalized tags of all posts, in order, with repeats.
pub open spec fn all_tags(posts: Seq<PostView>) -> Seq<Seq<char>>
    decreases posts.len(),
{
    if posts.len() == 0 {
        seq![]
    } else {
        all_tags(posts.drop_last()) + posts.last().tags.map_values(|t: Seq<char>| norm_tag(t))
    }
}

pub open spec fn tag_option(t: Seq<char>) -> Seq<char> {
    "        <option value=\""@ + t + "\">#"@ + t + "</option>"@
}

pub open spec fn tag_options(tags: Seq<Seq<char>>) -> Seq<char>
    decreases tags.len(),
{
    if tags.len() == 0 {
        seq![]
    } else {
        tag_options(tags.drop_last()) + tag_option(tags.last())
    }
}

/// What the listing template receives.
pub struct PostsContext {
    pub post_count: usize,
    pub posts: String,
    pub tag_options: String,
}

pub struct PostsContextView {
    pub post_count: nat,
    pub posts: Seq<char>,
    pub tag_options: Seq<char>,
}

impl View for PostsContext {
    type V = PostsContextView;

    open spec fn view(&self) -> PostsContextView {
        PostsContextView {
            post_count: self.post_count as nat,
            posts: self.posts@,
            tag_options: self.tag_options@,
        }
    }
}

/// The listing context of posts given in listing order.
pub open spec fn posts_context_of(posts: Seq<PostView>) -> PostsContextView {
    PostsContextView {
        post_count: posts.len(),
        posts: post_rows(posts),
        tag_options: tag_options(sorted_unique(all_tags(posts))),
    }
}

/// Whether `a` comes before `b` in `String`'s order.
pub fn text_less(a: &str, b: &str) -> (r: bool)
    ensures
        r == text_lt(a@, b@),
{
    let x = chars_of(a);
    let y = chars_of(b);
    let mut i: usize = 0;
    assert(x@.subrange(0, x@.len() as int) =~= x@);
    assert(y@.subrange(0, y@.len() as int) =~= y@);
    while i < x.len() && i < y.len() && x[i] == y[i]
        invariant
            i <= x@.len(),
            i <= y@.len(),
            text_lt(x@, y@) == text_lt(
                x@.subrange(i as int, x@.len() as int),
                y@.subrange(i as int, y@.len() as int),
            ),
        decreases x@.len() - i,
    {
        assert(x@.subrange(i as int, x@.len() as int).drop_first() =~= x@.subrange(
            i + 1,
            x@.len() as int,
        ));
        assert(y@.subrange(i as int, y@.len() as int).drop_first() =~= y@.subrange(
            i + 1,
            y@.len() as int,
        ));
        i = i + 1;
    }
    if i == y.len() {
        false
    } else if i == x.len() {
        true
    } else {
        (x[i] as u32) < (y[i] as u32)
    }
}

/// Places `p` into posts sorted newest first, after every post that is not older.
pub fn insert_post(sorted: &mut Vec<PostMetadata>, p: PostMetadata)
    ensures
        views(final(sorted)@) == insert_desc(views(old(sorted)@), p@),
{
    let ghost v = views(sorted@);
    let mut j: usize = sorted.len();
    assert(v.subrange(0, v.len() as int) =~= v);
    assert(v.subrange(v.len() as int, v.len() as int) =~= Seq::<PostView>::empty());
    while j > 0 && text_less(sorted[j - 1].date.as_str(), p.date.as_str())
        invariant
            v == views(sorted@),
            j <= v.len(),
            insert_desc(v, p@) == insert_desc(v.subrange(0, j as int), p@) + v.subrange(
                j as int,
                v.len() as int,
            ),
        decreases j,
    {
        assert(v.subrange(0, j as int).drop_last() =~= v.subrange(0, j - 1));
        assert(v.subrange(j - 1, v.len() as int) =~= seq![v[j - 1]] + v.subrange(
            j as int,
            v.len() as int,
        ));
        assert(insert_desc(v.subrange(0, j - 1), p@).push(v[j - 1]) + v.subrange(
            j as int,
            v.len() as int,
        ) =~= insert_desc(v.subrange(0, j - 1), p@) + v.subrange(j - 1, v.len() as int));
        j = j - 1;
    }
    if j == 0 {
        assert(v.subrange(0, 0) =~= Seq::<PostView>::empty());
    } else {
        assert(v.subrange(0, j as int).last() == v[j - 1]);
    }
    sorted.insert(j, p);
    assert(views(sorted@) =~= v.subrange(0, j as int).push(p@) + v.subrange(j as int, v.len() as int));
}

/// The posts sorted by date, newest first, posts of equal date in their given order.
pub fn sort_posts(posts: Vec<PostMetadata>) -> (r: Vec<PostMetadata>)
    ensures
        views(r@) == sort_desc(views(posts@)),
{
    let ghost orig = views(posts@);
    let mut input = posts;
    let mut out: Vec<PostMetadata> = Vec::new();
    let ghost mut k: int = 0;
    assert(orig.subrange(0, 0) =~= Seq::<PostView>::empty());
    assert(views(out@) =~= Seq::<PostView>::empty());
    assert(orig.subrange(0, orig.len() as int) =~= orig);
    while input.len() > 0
        invariant
            0 <= k <= orig.len(),
            views(out@) == sort_desc(orig.subrange(0, k)),
            views(input@) == orig.subrange(k, orig.len() as int),
        decreases input@.len(),
    {
        assert(views(input@).len() == input@.len());
        assert(views(input@)[0] == orig[k]);
        let ghost before = input@;
        let p = input.remove(0);
        assert(p@ == orig[k]);
        assert(orig.subrange(0, k + 1).drop_last() =~= orig.subrange(0, k));
        insert_post(&mut out, p);
        assert(input@ =~= before.subrange(1, before.len() as int));
        assert(views(input@) =~= views(before).subrange(1, before.len() as int));
        assert(views(before).subrange(1, before.len() as int) =~= orig.subrange(
            k + 1,
            orig.len() as int,
        ));
        proof {
            k = k + 1;
        }
    }
    assert(orig.subrange(0, k) =~= orig);
    out
}

/// Places `t` into an ascending list of distinct texts, unless it is there already.
pub fn insert_tag(sorted: &mut Vec<String>, t: String)
    ensures
        final(sorted).deep_view() == insert_asc(old(sorted).deep_view(), t@),
{
    let ghost v = sorted.deep_view();
    let mut j: usize = sorted.len();
    assert(v.subrange(0, v.len() as int) =~= v);
    assert(v.subrange(v.len() as int, v.len() as int) =~= Seq::<Seq<char>>::empty());
    while j > 0 && !(sorted[j - 1] == t) && !text_less(sorted[j - 1].as_str(), t.as_str())
        invariant
            v == sorted.deep_view(),
            j <= v.len(),
            insert_asc(v, t@) == insert_asc(v.subrange(0, j as int), t@) + v.subrange(
                j as int,
                v.len() as int,
            ),
        decreases j,
    {
        assert(v.subrange(0, j as int).drop_last() =~= v.subrange(0, j - 1));
        assert(v.subrange(j - 1, v.len() as int) =~= seq![v[j - 1]] + v.subrange(
            j as int,
            v.len() as int,
        ));
        assert(insert_asc(v.subrange(0, j - 1), t@).push(v[j - 1]) + v.subrange(
            j as int,
            v.len() as int,
        ) =~= insert_asc(v.subrange(0, j - 1), t@) + v.subrange(j - 1, v.len() as int));
        j = j - 1;
    }
    if j == 0 {
        assert(v.subrange(0, 0) =~= Seq::<Seq<char>>::empty());
        sorted.insert(j, t);
        assert(sorted.deep_view() =~= v.subrange(0, j as int).push(t@) + v.subrange(
            j as int,
            v.len() as int,
        ));
    } else if sorted[j - 1] == t {
        assert(v.subrange(0, j as int).last() == v[j - 1]);
        assert(v.subrange(0, j as int) + v.subrange(j as int, v.len() as int) =~= v);
    } else {
        assert(v.subrange(0, j as int).last() == v[j - 1]);
        sorted.insert(j, t);
        assert(sorted.deep_view() =~= v.subrange(0, j as int).push(t@) + v.subrange(
            j as int,
            v.len() as int,
        ));
    }
}

/// The normalized tags of all posts, in order, with repeats.
pub fn collect_tags(posts: &Vec<PostMetadata>) -> (r: Vec<String>)
    ensures
        r.deep_view() == all_tags(views(posts@)),
{
    let ghost vs = views(posts@);
    let mut r: Vec<String> = Vec::new();
    let mut i: usize = 0;
    assert(vs.subrange(0, 0) =~= Seq::<PostView>::empty());
    assert(r.deep_view() =~= Seq::<Seq<char>>::empty());
    while i < posts.len()
        invariant
            vs == views(posts@),
            i <= vs.len(),
            r.deep_view() == all_tags(vs.subrange(0, i as int)),
        decreases vs.len() - i,
    {
        assert(vs.subrange(0, i + 1).drop_last() =~= vs.subrange(0, i as int));
        let tags = &posts[i].tags;
        let ghost base = r.deep_view();
        let ghost tv = tags.deep_view();
        let mut j: usize = 0;
        assert(base + tv.subrange(0, 0).map_values(|t: Seq<char>| norm_tag(t)) =~= base);
        while j < tags.len()
            invariant
                tv == tags.deep_view(),
                j <= tv.len(),
                r.deep_view() == base + tv.subrange(0, j as int).map_values(
                    |t: Seq<char>| norm_tag(t),
                ),
            decreases tv.len() - j,
        {
            let ghost before = r.deep_view();
            let n = normalize_tag(tags[j].as_str());
            r.push(n);
            assert(r.deep_view() =~= before.push(n@));
            assert(tv.subrange(0, j + 1).map_values(|t: Seq<char>| norm_tag(t)) =~= tv.subrange(
                0,
                j as int,
            ).map_values(|t: Seq<char>| norm_tag(t)).push(norm_tag(tv[j as int])));
            j = j + 1;
        }
        assert(tv.subrange(0, tv.len() as int) =~= tv);
        assert(vs.subrange(0, i + 1).last() == posts@[i as int]@);
        i = i + 1;
    }
    assert(vs.subrange(0, vs.len() as int) =~= vs);
    r
}

/// The distinct items, ascending.
pub fn unique_sorted(items: Vec<String>) -> (r: Vec<String>)
    ensures
        r.deep_view() == sorted_unique(items.deep_view()),
{
    let ghost orig = items.deep_view();
    let mut input = items;
    let mut out: Vec<String> = Vec::new();
    let ghost mut k: int = 0;
    assert(orig.subrange(0, 0) =~= Seq::<Seq<char>>::empty());
    assert(out.deep_view() =~= Seq::<Seq<char>>::empty());
    assert(orig.subrange(0, orig.len() as int) =~= orig);
    while input.len() > 0
        invariant
            0 <= k <= orig.len(),
            out.deep_view() == sorted_unique(orig.subrange(0, k)),
            input.deep_view() == orig.subrange(k, orig.len() as int),
        decreases input@.len(),
    {
        let ghost before = input.deep_view();
        let ghost raw = input@;
        assert(before.len() == input@.len());
        assert(before[0] == orig[k]);
        let t = input.remove(0);
        assert(t@ == before[0]);
        assert(input@ =~= raw.subrange(1, raw.len() as int));
        assert(input.deep_view() =~= before.subrange(1, before.len() as int));
        assert(before.subrange(1, before.len() as int) =~= orig.subrange(
            k + 1,
            orig.len() as int,
        ));
        assert(orig.subrange(0, k + 1).drop_last() =~= orig.subrange(0, k));
        insert_tag(&mut out, t);
        proof {
            k = k + 1;
        }
    }
    assert(orig.subrange(0, k) =~= orig);
    out
}

/// The tag chips of one listing row.
pub fn listing_tag_chips(tags: &Vec<String>) -> (r: String)
    ensures
        r@ == listing_chips(tags.deep_view()),
{
    let ghost tv = tags.deep_view();
    let mut r = String::new();
    let mut i: usize = 0;
    assert(tv.subrange(0, 0) =~= Seq::<Seq<char>>::empty());
    while i < tags.len()
        invariant
            tv == tags.deep_view(),
            i <= tv.len(),
            r@ == listing_chips(tv.subrange(0, i as int)),
        decreases tv.len() - i,
    {
        assert(tv.subrange(0, i + 1).drop_last() =~= tv.subrange(0, i as int));
        let n = normalize_tag(tags[i].as_str());
        r.append("<span class=\"tag clickable-tag\" data-tag=\"");
        r.append(n.as_str());
        r.append("\">#");
        r.append(n.as_str());
        r.append("</span>");
        proof {
            assert(r@ =~= listing_chips(tv.subrange(0, i as int)) + listing_chip(tv[i as int]));
        }
        i = i + 1;
    }
    assert(tv.subrange(0, tv.len() as int) =~= tv);
    r
}

/// The listing row of one post.
pub fn post_row_html(p: &PostMetadata) -> (r: String)
    ensures
        r@ == post_row(p@),
{
    let chips = listing_tag_chips(&p.tags);
    let mut r = String::new();
    r.append("          <div class=\"post-item\">\n            <h3><a href=\"/bread/");
    r.append(p.url.as_str());
    r.append("\">");
    r.append(p.title.as_str());
    r.append("</a></h3>\n            <div class=\"post-meta\">\n              <span class=\"post-date\">");
    r.append(p.date.as_str());
    r.append("</span>\n              <span class=\"post-tags\">");
    r.append(chips.as_str());
    r.append("</span>\n            </div>\n          </div>\n");
    assert(r@ =~= post_row(p@));
    r
}

/// The rows of all posts, in the given order.
pub fn post_rows_html(posts: &Vec<PostMetadata>) -> (r: String)
    ensures
        r@ == post_rows(views(posts@)),
{
    let ghost vs = views(posts@);
    let mut r = String::new();
    let mut i: usize = 0;
    assert(vs.subrange(0, 0) =~= Seq::<PostView>::empty());
    while i < posts.len()
        invariant
            vs == views(posts@),
            i <= vs.len(),
            r@ == post_rows(vs.subrange(0, i as int)),
        decreases vs.len() - i,
    {
        assert(vs.subrange(0, i + 1).drop_last() =~= vs.subrange(0, i as int));
        let row = post_row_html(&posts[i]);
        r.append(row.as_str());
        i = i + 1;
    }
    assert(vs.subrange(0, vs.len() as int) =~= vs);
    r
}

/// The filter options, one per tag, in the given order.
pub fn tag_options_html(tags: &Vec<String>) -> (r: String)
    ensures
        r@ == tag_options(tags.deep_view()),
{
    let ghost tv = tags.deep_view();
    let mut r = String::new();
    let mut i: usize = 0;
    assert(tv.subrange(0, 0) =~= Seq::<Seq<char>>::empty());
    while i < tags.len()
        invariant
            tv == tags.deep_view(),
            i <= tv.len(),
            r@ == tag_options(tv.subrange(0, i as int)),
        decreases tv.len() - i,
    {
        assert(tv.subrange(0, i + 1).drop_last() =~= tv.subrange(0, i as int));
        r.append("        <option value=\"");
        r.append(tags[i].as_str());
        r.append("\">#");
        r.append(tags[i].as_str());
        r.append("</option>");
        proof {
            assert(r@ =~= tag_options(tv.subrange(0, i as int)) + tag_option(tv[i as int]));
        }
        i = i + 1;
    }
    assert(tv.subrange(0, tv.len() as int) =~= tv);
    r
}

/// The listing context of posts given in listing order.
pub fn posts_context(posts: &Vec<PostMetadata>) -> (r: PostsContext)
    ensures
        r@ == posts_context_of(views(posts@)),
{
    let rows = post_rows_html(posts);
    let tags = unique_sorted(collect_tags(posts));
    let options = tag_options_html(&tags);
    PostsContext { post_count: posts.len(), posts: rows, tag_options: options }
}

/// The listing of the given posts, sorted newest first; `None` when there are none,
/// as no listing page is made then.
pub fn posts_page(posts: Vec<PostMetadata>) -> (r: Option<PostsContext>)
    ensures
        posts@.len() == 0 ==> r is None,
        posts@.len() > 0 ==> r is Some && r->0@ == posts_context_of(sort_desc(views(posts@))),
{
    if posts.len() == 0 {
        return None;
    }
    let sorted = sort_posts(posts);
    Some(posts_context(&sorted))
}

} // verus!
