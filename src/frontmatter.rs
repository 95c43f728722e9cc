//! The metadata block at the head of a document, delimited by `---` lines.
use vstd::prelude::*;
use crate::text::{
    chars_of, eq_str, find_exec, find_from, index_of, occurs_at_exec, skip_ws, slice_of,
    split_exec, split_on, starts_with, string_of, texts, trim, trim_range, trim_start,
};

verus! {

/// The metadata of one document; every field may be absent.
pub struct Frontmatter {
    pub title: Option<String>,
    pub date: Option<String>,
    pub tags: Option<Vec<String>>,
    pub slug: Option<String>,
}

/// The mathematical value of a `Frontmatter`.
pub struct FrontmatterView {
    pub title: Option<Seq<char>>,
    pub date: Option<Seq<char>>,
    pub tags: Option<Seq<Seq<char>>>,
    pub slug: Option<Seq<char>>,
}

pub open spec fn opt_text(o: Option<String>) -> Option<Seq<char>> {
    match o {
        Some(s) => Some(s@),
        None => None,
    }
}

impl View for Frontmatter {
    type V = FrontmatterView;

    open spec fn view(&self) -> FrontmatterView {
        FrontmatterView {
            title: opt_text(self.title),
            date: opt_text(self.date),
            tags: match self.tags {
                Some(v) => Some(v.deep_view()),
                None => None,
            },
            slug: opt_text(self.slug),
        }
    }
}

/// Metadata with no field set.
pub open spec fn empty_meta() -> FrontmatterView {
    FrontmatterView { title: None, date: None, tags: None, slug: None }
}

impl Default for Frontmatter {
    fn default() -> (r: Self)
        ensures
            r@ == empty_meta(),
    {
        Frontmatter { title: None, date: None, tags: None, slug: None }
    }
}

/// The trimmed, non-empty items among `pieces`, in order.
pub open spec fn kept_items(pieces: Seq<Seq<char>>) -> Seq<Seq<char>>
    decreases pieces.len(),
{
    if pieces.len() == 0 {
        seq![]
    } else {
        let rest = kept_items(pieces.drop_last());
        let t = trim(pieces.last());
        if t.len() > 0 {
            rest.push(t)
        } else {
            rest
        }
    }
}

/// The tags of an inline `tags: a, b, c` value.
pub open spec fn inline_tags(value: Seq<char>) -> Seq<Seq<char>> {
    kept_items(split_on(value, ','))
}

/// Where the line scan stands: the metadata so far, whether `- item` lines
/// currently feed the tag list, and the tags collected from such lines.
pub struct ScanState {
    pub meta: FrontmatterView,
    pub in_tags: bool,
    pub pending: Seq<Seq<char>>,
}

pub open spec fn start_state() -> ScanState {
    ScanState { meta: empty_meta(), in_tags: false, pending: seq![] }
}

/// The metadata with `tags` replaced.
pub open spec fn with_tags(m: FrontmatterView, tags: Seq<Seq<char>>) -> FrontmatterView {
    FrontmatterView { title: m.title, date: m.date, tags: Some(tags), slug: m.slug }
}

/// The effect of a `key: value` line, after a pending block list was committed.
pub open spec fn apply_key(
    m: FrontmatterView,
    pending: Seq<Seq<char>>,
    key: Seq<char>,
    value: Seq<char>,
) -> ScanState {
    if key == "title"@ {
        ScanState {
            meta: FrontmatterView { title: Some(value), date: m.date, tags: m.tags, slug: m.slug },
            in_tags: false,
            pending,
        }
    } else if key == "date"@ {
        ScanState {
            meta: FrontmatterView { title: m.title, date: Some(value), tags: m.tags, slug: m.slug },
            in_tags: false,
            pending,
        }
    } else if key == "slug"@ {
        ScanState {
            meta: FrontmatterView { title: m.title, date: m.date, tags: m.tags, slug: Some(value) },
            in_tags: false,
            pending,
        }
    } else if key == "tags"@ {
        if value.len() > 0 {
            ScanState { meta: with_tags(m, inline_tags(value)), in_tags: false, pending }
        } else {
            ScanState { meta: m, in_tags: true, pending }
        }
    } else {
        ScanState { meta: m, in_tags: false, pending }
    }
}

/// One line of the metadata block.
pub open spec fn scan_line(st: ScanState, line: Seq<char>) -> ScanState {
    let t = trim(line);
    if t.len() == 0 {
        st
    } else if t[0] == '-' {
        let tag = trim(t.drop_first());
        if st.in_tags && tag.len() > 0 {
            ScanState { meta: st.meta, in_tags: st.in_tags, pending: st.pending.push(tag) }
        } else {
            st
        }
    } else {
        match index_of(t, ':') {
            None => st,
            Some(p) => {
                let commit = st.in_tags && st.pending.len() > 0;
                let m = if commit {
                    with_tags(st.meta, st.pending)
                } else {
                    st.meta
                };
                let pending = if commit {
                    seq![]
                } else {
                    st.pending
                };
                apply_key(m, pending, trim(t.subrange(0, p)), trim(t.subrange(p + 1, t.len() as int)))
            },
        }
    }
}

/// The state after the given lines.
pub open spec fn scan_lines(lines: Seq<Seq<char>>) -> ScanState
    decreases lines.len(),
{
    if lines.len() == 0 {
        start_state()
    } else {
        scan_line(scan_lines(lines.drop_last()), lines.last())
    }
}

/// The metadata once the scan is over: a block list still open is committed.
pub open spec fn finish(st: ScanState) -> FrontmatterView {
    if st.in_tags && st.pending.len() > 0 {
        with_tags(st.meta, st.pending)
    } else {
        st.meta
    }
}

/// The metadata that a block (the text between the markers) holds.
pub open spec fn section_meta(section: Seq<char>) -> FrontmatterView {
    finish(scan_lines(split_on(section, '\n')))
}

/// A document split into its metadata and its body.
pub open spec fn parse_doc(s: Seq<char>) -> (FrontmatterView, Seq<char>) {
    if !starts_with(s, "---"@) {
        (empty_meta(), s)
    } else {
        match find_from(s, "\n---"@, 3) {
            None => (empty_meta(), s),
            Some(e) => (section_meta(s.subrange(3, e)), trim_start(s.subrange(e + 4, s.len() as int))),
        }
    }
}

/// A document that does not open with `---` is all body, with no metadata.
pub proof fn lemma_unmarked_is_body(s: Seq<char>)
    requires
        !starts_with(s, "---"@),
    ensures
        parse_doc(s) == (empty_meta(), s),
{
}

/// A document whose opening `---` is never closed by a `\n---` is all body: the
/// opening marker is not consumed.
pub proof fn lemma_unclosed_is_body(s: Seq<char>)
    requires
        find_from(s, "\n---"@, 3) is None,
    ensures
        parse_doc(s) == (empty_meta(), s),
{
}

/// The scan's state in executable form.
struct Scan {
    title: Option<Vec<char>>,
    date: Option<Vec<char>>,
    tags: Option<Vec<Vec<char>>>,
    slug: Option<Vec<char>>,
    in_tags: bool,
    pending: Vec<Vec<char>>,
}

pub open spec fn opt_chars(o: Option<Vec<char>>) -> Option<Seq<char>> {
    match o {
        Some(v) => Some(v@),
        None => None,
    }
}

impl View for Scan {
    type V = ScanState;

    closed spec fn view(&self) -> ScanState {
        ScanState {
            meta: FrontmatterView {
                title: opt_chars(self.title),
                date: opt_chars(self.date),
                tags: match self.tags {
                    Some(v) => Some(texts(v@)),
                    None => None,
                },
                slug: opt_chars(self.slug),
            },
            in_tags: self.in_tags,
            pending: texts(self.pending@),
        }
    }
}

/// The trimmed, non-empty items among `pieces`.
fn kept_items_exec(pieces: &Vec<Vec<char>>) -> (r: Vec<Vec<char>>)
    ensures
        texts(r@) == kept_items(texts(pieces@)),
{
    let mut r: Vec<Vec<char>> = Vec::new();
    let mut i: usize = 0;
    assert(texts(pieces@).subrange(0, 0) =~= Seq::<Seq<char>>::empty());
    assert(texts(r@) =~= Seq::<Seq<char>>::empty());
    while i < pieces.len()
        invariant
            i <= pieces@.len(),
            texts(r@) == kept_items(texts(pieces@).subrange(0, i as int)),
        decreases pieces@.len() - i,
    {
        assert(texts(pieces@).subrange(0, i + 1).drop_last() =~= texts(pieces@).subrange(
            0,
            i as int,
        ));
        let piece = &pieces[i];
        let t = trim_range(piece, 0, piece.len());
        assert(piece@.subrange(0, piece@.len() as int) =~= piece@);
        if t.len() > 0 {
            let ghost before = texts(r@);
            r.push(t);
            assert(texts(r@) =~= before.push(t@));
        }
        i = i + 1;
    }
    assert(texts(pieces@).subrange(0, pieces@.len() as int) =~= texts(pieces@));
    r
}

/// The effect of a `key: value` line on the scan.
fn apply_key_exec(
    title: Option<Vec<char>>,
    date: Option<Vec<char>>,
    tags: Option<Vec<Vec<char>>>,
    slug: Option<Vec<char>>,
    pending: Vec<Vec<char>>,
    key: &Vec<char>,
    value: Vec<char>,
) -> (r: Scan)
    ensures
        r@ == apply_key(
            FrontmatterView {
                title: opt_chars(title),
                date: opt_chars(date),
                tags: match tags {
                    Some(v) => Some(texts(v@)),
                    None => None,
                },
                slug: opt_chars(slug),
            },
            texts(pending@),
            key@,
            value@,
        ),
{
    if eq_str(key, "title") {
        Scan { title: Some(value), date, tags, slug, in_tags: false, pending }
    } else if eq_str(key, "date") {
        Scan { title, date: Some(value), tags, slug, in_tags: false, pending }
    } else if eq_str(key, "slug") {
        Scan { title, date, tags, slug: Some(value), in_tags: false, pending }
    } else if eq_str(key, "tags") {
        if value.len() > 0 {
            let pieces = split_exec(&value, ',');
            let items = kept_items_exec(&pieces);
            Scan { title, date, tags: Some(items), slug, in_tags: false, pending }
        } else {
            Scan { title, date, tags, slug, in_tags: true, pending }
        }
    } else {
        Scan { title, date, tags, slug, in_tags: false, pending }
    }
}

/// One line of the metadata block.
fn scan_line_exec(st: Scan, line: &Vec<char>) -> (r: Scan)
    ensures
        r@ == scan_line(st@, line@),
{
    let t = trim_range(line, 0, line.len());
    assert(line@.subrange(0, line@.len() as int) =~= line@);
    if t.len() == 0 {
        return st;
    }
    if t[0] == '-' {
        let tag = trim_range(&t, 1, t.len());
        assert(t@.subrange(1, t@.len() as int) =~= t@.drop_first());
        if st.in_tags && tag.len() > 0 {
            let mut st = st;
            let ghost before = texts(st.pending@);
            st.pending.push(tag);
            assert(texts(st.pending@) =~= before.push(tag@));
            return st;
        }
        return st;
    }
    let colon: Vec<char> = vec![':'];
    assert(colon@ =~= seq![':']);
    match find_exec(&t, &colon, 0) {
        None => st,
        Some(p) => {
            let Scan { title, date, tags, slug, in_tags, pending } = st;
            let key = trim_range(&t, 0, p);
            let value = trim_range(&t, p + 1, t.len());
            if in_tags && pending.len() > 0 {
                let fresh: Vec<Vec<char>> = Vec::new();
                assert(texts(fresh@) =~= Seq::<Seq<char>>::empty());
                apply_key_exec(title, date, Some(pending), slug, fresh, &key, value)
            } else {
                apply_key_exec(title, date, tags, slug, pending, &key, value)
            }
        },
    }
}

fn opt_string(o: Option<Vec<char>>) -> (r: Option<String>)
    ensures
        opt_text(r) == opt_chars(o),
{
    match o {
        Some(v) => Some(string_of(&v)),
        None => None,
    }
}

fn strings_of(v: &Vec<Vec<char>>) -> (r: Vec<String>)
    ensures
        r.deep_view() == texts(v@),
{
    let mut r: Vec<String> = Vec::new();
    let mut i: usize = 0;
    while i < v.len()
        invariant
            i <= v@.len(),
            r.deep_view() =~= texts(v@).subrange(0, i as int),
        decreases v@.len() - i,
    {
        let ghost before = r.deep_view();
        let x = string_of(&v[i]);
        r.push(x);
        assert(r.deep_view() =~= before.push(x@));
        assert(texts(v@).subrange(0, i + 1) =~= texts(v@).subrange(0, i as int).push(v@[i as int]@));
        i = i + 1;
    }
    r
}

/// The metadata that a block (the text between the markers) holds.
fn parse_section(section: &[char]) -> (r: Frontmatter)
    ensures
        r@ == section_meta(section@),
{
    let lines = split_exec(section, '\n');
    let mut st = Scan {
        title: None,
        date: None,
        tags: None,
        slug: None,
        in_tags: false,
        pending: Vec::new(),
    };
    assert(texts(st.pending@) =~= Seq::<Seq<char>>::empty());
    assert(texts(lines@).subrange(0, 0) =~= Seq::<Seq<char>>::empty());
    let mut i: usize = 0;
    while i < lines.len()
        invariant
            i <= lines@.len(),
            st@ == scan_lines(texts(lines@).subrange(0, i as int)),
        decreases lines@.len() - i,
    {
        assert(texts(lines@).subrange(0, i + 1).drop_last() =~= texts(lines@).subrange(
            0,
            i as int,
        ));
        st = scan_line_exec(st, &lines[i]);
        i = i + 1;
    }
    assert(texts(lines@).subrange(0, lines@.len() as int) =~= texts(lines@));
    let Scan { title, date, tags, slug, in_tags, pending } = st;
    let tags = if in_tags && pending.len() > 0 {
        Some(pending)
    } else {
        tags
    };
    let tags = match tags {
        Some(v) => Some(strings_of(&v)),
        None => None,
    };
    Frontmatter { title: opt_string(title), date: opt_string(date), tags, slug: opt_string(slug) }
}

impl Frontmatter {
    /// Splits a document into its metadata and its body. A document that does not
    /// open with `---`, or has no closing `\n---` after it, is all body.
    pub fn parse(content: &str) -> (r: (Frontmatter, &str))
        ensures
            (r.0@, r.1@) == parse_doc(content@),
    {
        let s = chars_of(content);
        let open = chars_of("---");
        if !occurs_at_exec(&s, &open, 0) {
            return (Frontmatter::default(), content);
        }
        let close = chars_of("\n---");
        proof {
            reveal_strlit("---");
            reveal_strlit("\n---");
        }
        match find_exec(&s, &close, 3) {
            None => (Frontmatter::default(), content),
            Some(e) => {
                assert(close@.len() == 4);
                assert(e + 4 <= s.len());
                let section = slice_of(&s, 3, e);
                let meta = parse_section(&section);
                let b = skip_ws(&s, e + 4, s.len());
                (meta, content.substring_char(b, s.len()))
            },
        }
    }
}

} // verus!
