//! Index pages: finding the marker, locating the directory to list, and
//! splicing the generated list into the page.

use vstd::prelude::*;
use crate::text::{
    chars_of, contains_chars, contains_seq, ends_with_chars, ends_with_seq, replace_all,
    replace_chars,
};
use crate::text::{lemma_occurs_shift, lemma_replace_clean_prefix, lemma_replace_front, lemma_replace_leaves_none, occurs_at};
use crate::toc::{entry_line, generate, lemma_link_tree_edges, lemma_link_tree_empty, link_tree, ChildEntry};

verus! {

/// A page of the book: its path relative to the source root, and its text.
#[derive(Debug)]
pub struct Document {
    pub path: String,
    pub content: String,
}

/// The placeholder that the generated list replaces: `{{TOC}}`.
pub open spec fn marker() -> Seq<char> {
    seq!['{', '{', 'T', 'O', 'C', '}', '}']
}

/// Pages named like this may receive a table of contents.
pub open spec fn index_suffix() -> Seq<char> {
    seq!['i', 'n', 'd', 'e', 'x', '.', 'm', 'd']
}

/// The root under which page paths are resolved: `./src/`.
pub open spec fn source_root() -> Seq<char> {
    seq!['.', '/', 's', 'r', 'c', '/']
}

/// The path without its last segment: everything before the last `/`, or
/// nothing when there is no `/`.
pub open spec fn parent_of(path: Seq<char>) -> Seq<char>
    decreases path.len(),
{
    if path.len() == 0 {
        path
    } else if path.last() == '/' {
        path.drop_last()
    } else {
        parent_of(path.drop_last())
    }
}

/// The directory whose children a page lists: the page's parent under the
/// source root, with a trailing `/`.
pub open spec fn directory_context(path: Seq<char>) -> Seq<char> {
    source_root() + parent_of(path) + seq!['/']
}

/// The page is an index page that holds the marker.
pub open spec fn needs_toc(path: Seq<char>, content: Seq<char>) -> bool {
    ends_with_seq(path, index_suffix()) && contains_seq(content, marker())
}

/// The text of a page after the generator ran on it, given the listing of its
/// directory (`None` when the scan failed): every marker replaced by the list
/// when the page needs one and the scan succeeded, the text unchanged otherwise.
pub open spec fn applied(
    path: Seq<char>,
    content: Seq<char>,
    listing: Option<Seq<ChildEntry>>,
    include_drafts: bool,
) -> Seq<char> {
    if needs_toc(path, content) && listing is Some {
        replace_all(content, marker(), link_tree(listing->0, include_drafts))
    } else {
        content
    }
}

/// The view of an optional listing.
pub open spec fn listing_view(listing: Option<Vec<ChildEntry>>) -> Option<Seq<ChildEntry>> {
    match listing {
        Some(v) => Some(v@),
        None => None,
    }
}

/// Running the generator a second time with the same listing changes
/// nothing: after a successful run no marker is left, so the page is no
/// longer picked (a page that is no index page is never changed). This
/// holds when the list is not empty and holds no marker itself (a listed
/// name could spell one).
pub proof fn law_apply_idempotent(
    path: Seq<char>,
    content: Seq<char>,
    listing: Option<Seq<ChildEntry>>,
    include_drafts: bool,
)
    requires
        listing is Some ==> link_tree(listing->0, include_drafts).len() > 0,
        listing is Some ==> !contains_seq(link_tree(listing->0, include_drafts), marker()),
    ensures
        listing is Some && ends_with_seq(path, index_suffix()) ==> !contains_seq(
            applied(path, content, listing, include_drafts),
            marker(),
        ),
        applied(path, applied(path, content, listing, include_drafts), listing, include_drafts)
            == applied(path, content, listing, include_drafts),
{
    if listing is Some {
        let rep = link_tree(listing->0, include_drafts);
        if needs_toc(path, content) {
            lemma_link_tree_edges(listing->0, include_drafts);
            assert(!marker().contains(rep[0])) by {
                if marker().contains(rep[0]) {
                    let i = choose|i: int| 0 <= i < marker().len() && marker()[i] == rep[0];
                }
            }
            assert(!marker().contains(rep.last())) by {
                if marker().contains(rep.last()) {
                    let i = choose|i: int| 0 <= i < marker().len() && marker()[i] == rep.last();
                }
            }
            lemma_replace_leaves_none(content, marker(), rep);
        }
    }
}

/// Every marker receives the same list: a page whose text holds the marker
/// exactly twice, between `a`, `b` and `c`, gets the list at both places and
/// keeps the rest of its text.
pub proof fn law_marker_twice(
    path: Seq<char>,
    a: Seq<char>,
    b: Seq<char>,
    c: Seq<char>,
    listing: Seq<ChildEntry>,
    include_drafts: bool,
)
    requires
        ends_with_seq(path, index_suffix()),
        forall|k: int|
            occurs_at(a + marker() + b + marker() + c, marker(), k) <==> (k == a.len() || k
                == a.len() + marker().len() + b.len()),
    ensures
        applied(path, a + marker() + b + marker() + c, Some(listing), include_drafts) == a
            + link_tree(listing, include_drafts) + b + link_tree(listing, include_drafts) + c,
{
    let m = marker();
    let rep = link_tree(listing, include_drafts);
    let doc = a + m + b + m + c;
    assert(occurs_at(doc, m, a.len() as int));
    let tail1 = m + b + m + c;
    let tail2 = m + c;
    assert(doc =~= a + tail1);
    assert forall|k: int| 0 <= k < a.len() implies !occurs_at(a + tail1, m, k) by {}
    lemma_replace_clean_prefix(a, tail1, m, rep);
    assert(tail1 =~= m + (b + tail2));
    lemma_replace_front(b + tail2, m, rep);
    assert forall|k: int| 0 <= k < b.len() implies !occurs_at(b + tail2, m, k) by {
        lemma_occurs_shift(a + m, b + tail2, m, k);
        assert((a + m) + (b + tail2) =~= doc);
    }
    lemma_replace_clean_prefix(b, tail2, m, rep);
    lemma_replace_front(c, m, rep);
    assert forall|k: int| 0 <= k < c.len() implies !occurs_at(c + Seq::<char>::empty(), m, k) by {
        lemma_occurs_shift(a + m + b + m, c, m, k);
        assert((a + m + b + m) + c =~= doc);
        assert(c + Seq::<char>::empty() =~= c);
    }
    lemma_replace_clean_prefix(c, Seq::<char>::empty(), m, rep);
    assert(c + Seq::<char>::empty() =~= c);
    assert(replace_all(Seq::<char>::empty(), m, rep) =~= Seq::<char>::empty());
    assert(a + (rep + (b + (rep + c))) =~= a + rep + b + rep + c);
}

/// A directory with no qualifying child gives an empty list, and the marker
/// of the page is replaced by nothing rather than left in place.
pub proof fn law_no_qualifying_entries(
    path: Seq<char>,
    a: Seq<char>,
    c: Seq<char>,
    listing: Seq<ChildEntry>,
    include_drafts: bool,
)
    requires
        ends_with_seq(path, index_suffix()),
        forall|i: int|
            0 <= i < listing.len() ==> #[trigger] entry_line(listing[i], include_drafts).len() == 0,
        forall|k: int| occurs_at(a + marker() + c, marker(), k) <==> k == a.len(),
    ensures
        link_tree(listing, include_drafts) == Seq::<char>::empty(),
        applied(path, a + marker() + c, Some(listing), include_drafts) == a + c,
{
    let m = marker();
    lemma_link_tree_empty(listing, include_drafts);
    let rep = link_tree(listing, include_drafts);
    let doc = a + m + c;
    assert(occurs_at(doc, m, a.len() as int));
    let tail = m + c;
    assert(doc =~= a + tail);
    assert forall|k: int| 0 <= k < a.len() implies !occurs_at(a + tail, m, k) by {}
    lemma_replace_clean_prefix(a, tail, m, rep);
    lemma_replace_front(c, m, rep);
    assert forall|k: int| 0 <= k < c.len() implies !occurs_at(c + Seq::<char>::empty(), m, k) by {
        lemma_occurs_shift(a + m, c, m, k);
        assert((a + m) + c =~= doc);
        assert(c + Seq::<char>::empty() =~= c);
    }
    lemma_replace_clean_prefix(c, Seq::<char>::empty(), m, rep);
    assert(c + Seq::<char>::empty() =~= c);
    assert(a + (Seq::<char>::empty() + c) =~= a + c);
}

fn marker_chars() -> (r: Vec<char>)
    ensures
        r@ == marker(),
{
    let r = vec!['{', '{', 'T', 'O', 'C', '}', '}'];
    assert(r@ =~= marker());
    r
}

/// Whether the text holds the `{{TOC}}` marker.
pub fn has_toc(chapter_content: &str) -> (r: bool)
    ensures
        r == contains_seq(chapter_content@, marker()),
{
    let cs = chars_of(chapter_content);
    contains_chars(&cs, &marker_chars())
}

/// Whether the path names an index page.
pub fn is_index_page(path: &str) -> (r: bool)
    ensures
        r == ends_with_seq(path@, index_suffix()),
{
    let cs = chars_of(path);
    let suffix = vec!['i', 'n', 'd', 'e', 'x', '.', 'm', 'd'];
    assert(suffix@ =~= index_suffix());
    ends_with_chars(&cs, &suffix)
}

/// The directory to list for the page at `path`.
pub fn directory_of(path: &str) -> (r: String)
    ensures
        r@ == directory_context(path@),
{
    let cs = chars_of(path);
    let mut end: usize = cs.len();
    assert(cs@.subrange(0, end as int) =~= cs@);
    while end > 0 && cs[end - 1] != '/'
        invariant
            end <= cs.len(),
            parent_of(cs@.subrange(0, end as int)) == parent_of(cs@),
        decreases end,
    {
        assert(cs@.subrange(0, end - 1) =~= cs@.subrange(0, end as int).drop_last());
        end = end - 1;
    }
    let mut parent_len: usize = 0;
    if end > 0 {
        parent_len = end - 1;
        assert(cs@.subrange(0, end - 1) =~= cs@.subrange(0, end as int).drop_last());
    } else {
        assert(cs@.subrange(0, 0) =~= Seq::<char>::empty());
    }
    assert(cs@.subrange(0, cs@.len() as int) =~= cs@);
    let mut out = String::new();
    let root = vec!['.', '/', 's', 'r', 'c', '/'];
    let mut i: usize = 0;
    while i < root.len()
        invariant
            i <= root.len(),
            root@ == source_root(),
            out@ == root@.subrange(0, i as int),
        decreases root.len() - i,
    {
        out.push(root[i]);
        i = i + 1;
        assert(root@.subrange(0, i as int) =~= root@.subrange(0, i - 1) + seq![root@[i - 1]]);
    }
    assert(root@.subrange(0, i as int) =~= root@);
    let mut j: usize = 0;
    while j < parent_len
        invariant
            j <= parent_len <= cs.len(),
            out@ == source_root() + cs@.subrange(0, j as int),
        decreases parent_len - j,
    {
        out.push(cs[j]);
        j = j + 1;
        assert(cs@.subrange(0, j as int) =~= cs@.subrange(0, j - 1) + seq![cs@[j - 1]]);
    }
    out.push('/');
    out
}

/// The directory to scan for the page, when it is an index page holding the
/// marker; `None` when the page is to be left alone.
pub fn toc_directory(doc: &Document) -> (r: Option<String>)
    ensures
        r is Some <==> needs_toc(doc.path@, doc.content@),
        r is Some ==> r->0@ == directory_context(doc.path@),
{
    if is_index_page(doc.path.as_str()) && has_toc(doc.content.as_str()) {
        Some(directory_of(doc.path.as_str()))
    } else {
        None
    }
}

/// The text with every marker replaced by `snippet`.
pub fn substitute(content: &str, snippet: &str) -> (r: String)
    ensures
        r@ == replace_all(content@, marker(), snippet@),
{
    let cs = chars_of(content);
    replace_chars(&cs, &marker_chars(), snippet)
}

/// Runs the generator on one page, given the listing of its directory
/// (`None` when the scan failed). The path never changes.
pub fn apply(doc: &mut Document, listing: &Option<Vec<ChildEntry>>, include_drafts: bool)
    ensures
        final(doc).path == old(doc).path,
        final(doc).content@ == applied(
            old(doc).path@,
            old(doc).content@,
            listing_view(*listing),
            include_drafts,
        ),
{
    if is_index_page(doc.path.as_str()) && has_toc(doc.content.as_str()) {
        match listing {
            Some(entries) => {
                let snippet = generate(entries, include_drafts);
                let replaced = substitute(doc.content.as_str(), snippet.as_str());
                doc.content = replaced;
            },
            None => {},
        }
    }
}

/// Runs the generator on every page, the `i`-th page with the `i`-th listing.
/// Each page is transformed independently: a failed scan leaves its own page
/// unchanged and has no effect on any other page.
pub fn transform(
    docs: &Vec<Document>,
    listings: &Vec<Option<Vec<ChildEntry>>>,
    include_drafts: bool,
) -> (r: Vec<Document>)
    requires
        docs@.len() == listings@.len(),
    ensures
        r@.len() == docs@.len(),
        forall|i: int|
            0 <= i < docs@.len() ==> {
                &&& #[trigger] r@[i].path == docs@[i].path
                &&& r@[i].content@ == applied(
                    docs@[i].path@,
                    docs@[i].content@,
                    listing_view(listings@[i]),
                    include_drafts,
                )
            },
{
    let mut out: Vec<Document> = Vec::new();
    let mut i: usize = 0;
    while i < docs.len()
        invariant
            i <= docs.len() == listings.len(),
            out@.len() == i,
            forall|k: int|
                0 <= k < i ==> {
                    &&& #[trigger] out@[k].path == docs@[k].path
                    &&& out@[k].content@ == applied(
                        docs@[k].path@,
                        docs@[k].content@,
                        listing_view(listings@[k]),
                        include_drafts,
                    )
                },
        decreases docs.len() - i,
    {
        let mut d = Document { path: docs[i].path.clone(), content: docs[i].content.clone() };
        apply(&mut d, &listings[i], include_drafts);
        out.push(d);
        i = i + 1;
    }
    out
}

} // verus!
