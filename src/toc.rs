//! The link-tree generator: turns the listing of a directory into the
//! markdown list that replaces the `{{TOC}}` marker of an index page.

use vstd::prelude::*;
use crate::text::{contains_chars, contains_seq, chars_of};

verus! {

/// What a directory entry is, as far as the table of contents cares.
#[derive(Clone, Copy, Debug, PartialEq, Eq)]
pub enum EntryKind {
    /// A subdirectory; `has_readme` tells whether it holds a `README.md`.
    Directory { has_readme: bool },
    /// A regular file.
    File,
    /// Anything else (a symbolic link, a socket, ...): never listed.
    Other,
}

/// One direct child of a scanned directory.
#[derive(Debug)]
pub struct ChildEntry {
    pub name: String,
    pub kind: EntryKind,
}

/// The reserved file name that is never listed and that marks a
/// subdirectory as a sub-book.
pub open spec fn readme_name() -> Seq<char> {
    seq!['R', 'E', 'A', 'D', 'M', 'E', '.', 'm', 'd']
}

/// Names holding this word are drafts.
pub open spec fn draft_word() -> Seq<char> {
    seq!['d', 'r', 'a', 'f', 't']
}

/// The entry passes the name rules: it is not the README itself, and it is
/// not a draft unless drafts are included.
pub open spec fn passes_name_rules(name: Seq<char>, include_drafts: bool) -> bool {
    name != readme_name() && (include_drafts || !contains_seq(name, draft_word()))
}

/// The link text of a file: its name without the last three characters
/// (the `.md` extension); empty for a name shorter than that.
pub open spec fn display_name(name: Seq<char>) -> Seq<char> {
    if name.len() >= 3 {
        name.subrange(0, name.len() - 3)
    } else {
        Seq::<char>::empty()
    }
}

/// `- [<name>/](./<name>/)` and a newline.
pub open spec fn directory_line(name: Seq<char>) -> Seq<char> {
    seq!['-', ' ', '['] + name + seq!['/', ']', '(', '.', '/'] + name + seq!['/', ')', '\n']
}

/// `- [<display name>](./<name>)` and a newline.
pub open spec fn file_line(name: Seq<char>) -> Seq<char> {
    seq!['-', ' ', '['] + display_name(name) + seq![']', '(', '.', '/'] + name + seq![')', '\n']
}

/// The line that one entry contributes; empty when it is skipped.
pub open spec fn entry_line(e: ChildEntry, include_drafts: bool) -> Seq<char> {
    if !passes_name_rules(e.name@, include_drafts) {
        Seq::<char>::empty()
    } else {
        match e.kind {
            EntryKind::Directory { has_readme } => if has_readme {
                directory_line(e.name@)
            } else {
                Seq::<char>::empty()
            },
            EntryKind::File => file_line(e.name@),
            EntryKind::Other => Seq::<char>::empty(),
        }
    }
}

/// The lines of all entries, concatenated in listing order.
pub open spec fn link_tree(entries: Seq<ChildEntry>, include_drafts: bool) -> Seq<char>
    decreases entries.len(),
{
    if entries.len() == 0 {
        Seq::<char>::empty()
    } else {
        link_tree(entries.drop_last(), include_drafts) + entry_line(entries.last(), include_drafts)
    }
}

/// A non-empty list starts with the `-` of its first line and ends with the
/// newline of its last.
pub proof fn lemma_link_tree_edges(entries: Seq<ChildEntry>, include_drafts: bool)
    ensures
        link_tree(entries, include_drafts).len() > 0 ==> {
            &&& link_tree(entries, include_drafts)[0] == '-'
            &&& link_tree(entries, include_drafts).last() == '\n'
        },
    decreases entries.len(),
{
    if entries.len() > 0 {
        lemma_link_tree_edges(entries.drop_last(), include_drafts);
        let front = link_tree(entries.drop_last(), include_drafts);
        let line = entry_line(entries.last(), include_drafts);
        if line.len() > 0 {
            assert(line[0] == '-');
            assert(line.last() == '\n');
            assert((front + line).last() == line.last());
            if front.len() == 0 {
                assert((front + line)[0] == line[0]);
            }
        }
    }
}

/// A listing in which no entry qualifies gives an empty list.
pub proof fn lemma_link_tree_empty(entries: Seq<ChildEntry>, include_drafts: bool)
    requires
        forall|i: int|
            0 <= i < entries.len() ==> #[trigger] entry_line(entries[i], include_drafts).len() == 0,
    ensures
        link_tree(entries, include_drafts) == Seq::<char>::empty(),
    decreases entries.len(),
{
    if entries.len() > 0 {
        let front = entries.drop_last();
        assert forall|i: int| 0 <= i < front.len() implies #[trigger] entry_line(
            front[i],
            include_drafts,
        ).len() == 0 by {
            assert(front[i] == entries[i]);
        }
        lemma_link_tree_empty(front, include_drafts);
        assert(entry_line(entries.last(), include_drafts).len() == 0);
        assert(link_tree(entries, include_drafts) =~= Seq::<char>::empty());
    }
}

fn push_chars(out: &mut String, cs: &Vec<char>)
    ensures
        final(out)@ == old(out)@ + cs@,
{
    let mut i: usize = 0;
    while i < cs.len()
        invariant
            i <= cs.len(),
            out@ == old(out)@ + cs@.subrange(0, i as int),
        decreases cs.len() - i,
    {
        out.push(cs[i]);
        i = i + 1;
        assert(cs@.subrange(0, i as int) =~= cs@.subrange(0, i - 1) + seq![cs@[i - 1]]);
    }
    assert(cs@.subrange(0, i as int) =~= cs@);
}

fn push_prefix(out: &mut String, cs: &Vec<char>, n: usize)
    requires
        n <= cs@.len(),
    ensures
        final(out)@ == old(out)@ + cs@.subrange(0, n as int),
{
    let mut i: usize = 0;
    while i < n
        invariant
            i <= n <= cs.len(),
            out@ == old(out)@ + cs@.subrange(0, i as int),
        decreases n - i,
    {
        out.push(cs[i]);
        i = i + 1;
        assert(cs@.subrange(0, i as int) =~= cs@.subrange(0, i - 1) + seq![cs@[i - 1]]);
    }
}

/// Whether an entry with this name is listed at all.
pub fn passes_name_rules_exec(name: &str, include_drafts: bool) -> (r: bool)
    ensures
        r == passes_name_rules(name@, include_drafts),
{
    let cs = chars_of(name);
    let readme = vec!['R', 'E', 'A', 'D', 'M', 'E', '.', 'm', 'd'];
    let draft = vec!['d', 'r', 'a', 'f', 't'];
    assert(readme@ =~= readme_name());
    assert(draft@ =~= draft_word());
    let is_readme = cs.len() == readme.len() && crate::text::matches_at(&cs, &readme, 0);
    proof {
        if cs@.len() == readme@.len() {
            assert(cs@.subrange(0, cs@.len() as int) =~= cs@);
        }
    }
    !is_readme && (include_drafts || !contains_chars(&cs, &draft))
}

/// Appends the line of one entry to `out`.
pub fn push_entry_line(out: &mut String, e: &ChildEntry, include_drafts: bool)
    ensures
        final(out)@ == old(out)@ + entry_line(*e, include_drafts),
{
    if !passes_name_rules_exec(e.name.as_str(), include_drafts) {
        return;
    }
    let name = chars_of(e.name.as_str());
    match e.kind {
        EntryKind::Directory { has_readme } => {
            if has_readme {
                push_chars(out, &vec!['-', ' ', '[']);
                push_chars(out, &name);
                push_chars(out, &vec!['/', ']', '(', '.', '/']);
                push_chars(out, &name);
                push_chars(out, &vec!['/', ')', '\n']);
            }
        },
        EntryKind::File => {
            push_chars(out, &vec!['-', ' ', '[']);
            let kept: usize = if name.len() >= 3 { name.len() - 3 } else { 0 };
            push_prefix(out, &name, kept);
            push_chars(out, &vec![']', '(', '.', '/']);
            push_chars(out, &name);
            push_chars(out, &vec![')', '\n']);
            proof {
                if name@.len() < 3 {
                    assert(name@.subrange(0, 0) =~= Seq::<char>::empty());
                }
            }
        },
        EntryKind::Other => {},
    }
}

/// The markdown list for a directory whose direct children are `entries`,
/// in the order given: one line per listed entry, possibly empty.
pub fn generate(entries: &Vec<ChildEntry>, include_drafts: bool) -> (r: String)
    ensures
        r@ == link_tree(entries@, include_drafts),
{
    let mut out = String::new();
    let mut i: usize = 0;
    while i < entries.len()
        invariant
            i <= entries.len(),
            out@ == link_tree(entries@.subrange(0, i as int), include_drafts),
        decreases entries.len() - i,
    {
        push_entry_line(&mut out, &entries[i], include_drafts);
        i = i + 1;
        assert(entries@.subrange(0, i as int).drop_last() =~= entries@.subrange(0, i - 1));
    }
    assert(entries@.subrange(0, i as int) =~= entries@);
    out
}

} // verus!
