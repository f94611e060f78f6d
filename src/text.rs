//! Character-level text operations: substring search and substitution.

use vstd::prelude::*;

verus! {

/// `pat` occurs in `s` starting at position `i`.
pub open spec fn occurs_at(s: Seq<char>, pat: Seq<char>, i: int) -> bool {
    0 <= i && i + pat.len() <= s.len() && s.subrange(i, i + pat.len()) == pat
}

/// `pat` occurs somewhere in `s` as a contiguous substring.
pub open spec fn contains_seq(s: Seq<char>, pat: Seq<char>) -> bool {
    exists|i: int| occurs_at(s, pat, i)
}

/// `s` ends with `suffix`.
pub open spec fn ends_with_seq(s: Seq<char>, suffix: Seq<char>) -> bool {
    suffix.len() <= s.len() && s.subrange(s.len() - suffix.len(), s.len() as int) == suffix
}

/// Every occurrence of `pat` in `s` replaced by `rep`, scanning from the left
/// and resuming after each replaced occurrence.
pub open spec fn replace_all(s: Seq<char>, pat: Seq<char>, rep: Seq<char>) -> Seq<char>
    decreases s.len(),
{
    if s.len() == 0 || pat.len() == 0 {
        s
    } else if occurs_at(s, pat, 0) {
        rep + replace_all(s.subrange(pat.len() as int, s.len() as int), pat, rep)
    } else {
        seq![s[0]] + replace_all(s.subrange(1, s.len() as int), pat, rep)
    }
}

/// Shifting a text right by a prefix shifts every occurrence with it.
pub proof fn lemma_occurs_shift(p: Seq<char>, t: Seq<char>, pat: Seq<char>, k: int)
    requires
        0 <= k,
    ensures
        occurs_at(t, pat, k) == occurs_at(p + t, pat, p.len() + k),
{
    if k + pat.len() <= t.len() {
        assert((p + t).subrange(p.len() + k, p.len() + k + pat.len()) =~= t.subrange(
            k,
            k + pat.len(),
        ));
    }
}

/// Text before the first occurrence passes through a replacement unchanged.
pub proof fn lemma_replace_clean_prefix(x: Seq<char>, y: Seq<char>, pat: Seq<char>, rep: Seq<char>)
    requires
        pat.len() > 0,
        forall|k: int| 0 <= k < x.len() ==> !occurs_at(x + y, pat, k),
    ensures
        replace_all(x + y, pat, rep) == x + replace_all(y, pat, rep),
    decreases x.len(),
{
    if x.len() == 0 {
        assert(x + y =~= y);
        assert(x + replace_all(y, pat, rep) =~= replace_all(y, pat, rep));
    } else {
        let s = x + y;
        let x1 = x.subrange(1, x.len() as int);
        assert(!occurs_at(s, pat, 0));
        assert(s.subrange(1, s.len() as int) =~= x1 + y);
        assert forall|k: int| 0 <= k < x1.len() implies !occurs_at(x1 + y, pat, k) by {
            lemma_occurs_shift(seq![x[0]], x1 + y, pat, k);
            assert(seq![x[0]] + (x1 + y) =~= s);
            assert(!occurs_at(s, pat, k + 1));
        }
        lemma_replace_clean_prefix(x1, y, pat, rep);
        assert(x =~= seq![x[0]] + x1);
        assert(x + replace_all(y, pat, rep) =~= seq![x[0]] + (x1 + replace_all(y, pat, rep)));
    }
}

/// An occurrence at the front is replaced, and the scan resumes after it.
pub proof fn lemma_replace_front(y: Seq<char>, pat: Seq<char>, rep: Seq<char>)
    requires
        pat.len() > 0,
    ensures
        replace_all(pat + y, pat, rep) == rep + replace_all(y, pat, rep),
{
    let s = pat + y;
    assert(s.subrange(0, pat.len() as int) =~= pat);
    assert(s.subrange(pat.len() as int, s.len() as int) =~= y);
}

/// Where the replacement does not start with a character of the pattern, a
/// prefix of the result that matches a piece of the pattern was already there
/// in the text.
proof fn lemma_replaced_head(t: Seq<char>, pat: Seq<char>, rep: Seq<char>, k: int, off: int)
    requires
        pat.len() > 0,
        rep.len() > 0,
        !pat.contains(rep[0]),
        0 <= k,
        0 <= off,
        off + k <= pat.len(),
        k <= replace_all(t, pat, rep).len(),
        replace_all(t, pat, rep).subrange(0, k) == pat.subrange(off, off + k),
    ensures
        k <= t.len(),
        t.subrange(0, k) == pat.subrange(off, off + k),
    decreases k,
{
    let r = replace_all(t, pat, rep);
    if k == 0 {
        assert(t.subrange(0, 0) =~= pat.subrange(off, off));
    } else {
        assert(t.len() > 0);
        if occurs_at(t, pat, 0) {
            assert(r[0] == rep[0]);
            assert(r.subrange(0, k)[0] == pat[off]);
            assert(pat.contains(rep[0]));
        } else {
            let t1 = t.subrange(1, t.len() as int);
            let r1 = replace_all(t1, pat, rep);
            assert(r == seq![t[0]] + r1);
            assert(r.subrange(0, k)[0] == pat.subrange(off, off + k)[0]);
            assert(r1.subrange(0, k - 1) =~= r.subrange(1, k));
            assert(r.subrange(1, k) =~= r.subrange(0, k).subrange(1, k));
            assert(pat.subrange(off + 1, off + k) =~= pat.subrange(off, off + k).subrange(1, k));
            lemma_replaced_head(t1, pat, rep, k - 1, off + 1);
            assert(t.subrange(0, k) =~= seq![t[0]] + t1.subrange(0, k - 1));
            assert(pat.subrange(off, off + k) =~= seq![pat[off]] + pat.subrange(off + 1, off + k));
        }
    }
}

/// A replacement that holds no occurrence of the pattern, and neither starts
/// nor ends with one of its characters, leaves no occurrence in the result.
pub proof fn lemma_replace_leaves_none(s: Seq<char>, pat: Seq<char>, rep: Seq<char>)
    requires
        pat.len() > 0,
        rep.len() > 0,
        !contains_seq(rep, pat),
        !pat.contains(rep[0]),
        !pat.contains(rep.last()),
    ensures
        !contains_seq(replace_all(s, pat, rep), pat),
    decreases s.len(),
{
    let r = replace_all(s, pat, rep);
    if s.len() == 0 {
        assert forall|q: int| !occurs_at(r, pat, q) by {}
    } else if occurs_at(s, pat, 0) {
        let s1 = s.subrange(pat.len() as int, s.len() as int);
        lemma_replace_leaves_none(s1, pat, rep);
        let r1 = replace_all(s1, pat, rep);
        assert forall|q: int| !occurs_at(r, pat, q) by {
            if occurs_at(r, pat, q) {
                if q >= rep.len() {
                    lemma_occurs_shift(rep, r1, pat, q - rep.len());
                } else if q + pat.len() <= rep.len() {
                    assert(r.subrange(q, q + pat.len()) =~= rep.subrange(q, q + pat.len()));
                    assert(occurs_at(rep, pat, q));
                } else {
                    let j = rep.len() - 1 - q;
                    assert(r.subrange(q, q + pat.len())[j] == r[rep.len() - 1]);
                    assert(pat[j] == rep.last());
                    assert(pat.contains(rep.last()));
                }
            }
        }
    } else {
        let s1 = s.subrange(1, s.len() as int);
        lemma_replace_leaves_none(s1, pat, rep);
        let r1 = replace_all(s1, pat, rep);
        assert(r == seq![s[0]] + r1);
        assert forall|q: int| !occurs_at(r, pat, q) by {
            if occurs_at(r, pat, q) {
                if q >= 1 {
                    lemma_occurs_shift(seq![s[0]], r1, pat, q - 1);
                } else {
                    let w = r.subrange(0, pat.len() as int);
                    assert(r1.subrange(0, pat.len() - 1) =~= w.subrange(1, pat.len() as int));
                    lemma_replaced_head(s1, pat, rep, pat.len() - 1, 1);
                    assert(s.subrange(0, pat.len() as int) =~= seq![s[0]] + s1.subrange(
                        0,
                        pat.len() - 1,
                    ));
                    assert(w[0] == s[0]);
                    assert(pat =~= seq![pat[0]] + pat.subrange(1, pat.len() as int));
                    assert(occurs_at(s, pat, 0));
                }
            }
        }
    }
}

/// Relies on std's `String::push`: appends one character.
pub assume_specification[ String::push ](s: &mut String, ch: char)
    ensures
        final(s)@ == old(s)@.push(ch),
;

/// The characters of `s`, in order.
pub fn chars_of(s: &str) -> (r: Vec<char>)
    ensures
        r@ == s@,
{
    let mut r: Vec<char> = Vec::new();
    for c in it: s.chars()
        invariant
            r@ == it.seq().subrange(0, it.index() as int),
            it.seq() == s@,
    {
        r.push(c);
    }
    r
}

/// Whether `pat` occurs in `s` at position `i`.
pub fn matches_at(s: &Vec<char>, pat: &Vec<char>, i: usize) -> (r: bool)
    ensures
        r == occurs_at(s@, pat@, i as int),
{
    if pat.len() > s.len() || i > s.len() - pat.len() {
        return false;
    }
    let mut j: usize = 0;
    while j < pat.len()
        invariant
            j <= pat.len(),
            i + pat.len() <= s.len(),
            forall|k: int| 0 <= k < j ==> s@[i + k] == pat@[k],
        decreases pat.len() - j,
    {
        if s[i + j] != pat[j] {
            assert(s@.subrange(i as int, i + pat.len())[j as int] != pat@[j as int]);
            return false;
        }
        j = j + 1;
    }
    assert(s@.subrange(i as int, i + pat.len()) =~= pat@);
    true
}

/// Whether `pat` occurs anywhere in `s`.
pub fn contains_chars(s: &Vec<char>, pat: &Vec<char>) -> (r: bool)
    ensures
        r == contains_seq(s@, pat@),
{
    if pat.len() == 0 {
        assert(s@.subrange(0, 0) =~= pat@);
        assert(occurs_at(s@, pat@, 0));
        return true;
    }
    let mut i: usize = 0;
    while i < s.len()
        invariant
            pat@.len() > 0,
            forall|k: int| 0 <= k < i ==> !occurs_at(s@, pat@, k),
        decreases s.len() - i,
    {
        if matches_at(s, pat, i) {
            return true;
        }
        i = i + 1;
    }
    assert forall|k: int| !occurs_at(s@, pat@, k) by {
        if 0 <= k < i {
        }
    }
    false
}

/// Whether `s` ends with `suffix`.
pub fn ends_with_chars(s: &Vec<char>, suffix: &Vec<char>) -> (r: bool)
    ensures
        r == ends_with_seq(s@, suffix@),
{
    if suffix.len() > s.len() {
        return false;
    }
    let r = matches_at(s, suffix, s.len() - suffix.len());
    r
}

/// `s` with every occurrence of `pat` replaced by `rep`, as `replace_all` states.
pub fn replace_chars(s: &Vec<char>, pat: &Vec<char>, rep: &str) -> (r: String)
    requires
        pat@.len() > 0,
    ensures
        r@ == replace_all(s@, pat@, rep@),
{
    let mut out = String::new();
    let mut i: usize = 0;
    assert(s@.subrange(0, s@.len() as int) =~= s@);
    while i < s.len()
        invariant
            i <= s.len(),
            pat@.len() > 0,
            out@ + replace_all(s@.subrange(i as int, s@.len() as int), pat@, rep@)
                == replace_all(s@, pat@, rep@),
        decreases s.len() - i,
    {
        let ghost rest = s@.subrange(i as int, s@.len() as int);
        if matches_at(s, pat, i) {
            proof {
                assert(rest.subrange(0, pat@.len() as int) =~= s@.subrange(i as int, i + pat@.len()));
                assert(rest.subrange(pat@.len() as int, rest.len() as int)
                    =~= s@.subrange(i + pat@.len(), s@.len() as int));
            }
            out.append(rep);
            i = i + pat.len();
        } else {
            proof {
                if occurs_at(rest, pat@, 0) {
                    assert(rest.subrange(0, pat@.len() as int) =~= s@.subrange(i as int, i + pat@.len()));
                }
                assert(rest.subrange(1, rest.len() as int) =~= s@.subrange(i + 1, s@.len() as int));
            }
            out.push(s[i]);
            i = i + 1;
        }
    }
    assert(s@.subrange(i as int, s@.len() as int) =~= Seq::<char>::empty());
    out
}

} // verus!
