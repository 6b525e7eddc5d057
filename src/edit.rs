//! The override edit workflow: finding the managed region of an existing
//! document and rebuilding it around freshly edited overrides.

use vstd::prelude::*;
use crate::merge::{override_tail, MARKER};
use crate::text::{same_chars, chars_of, join_lines, lines, push_all, split_lines, string_of, views};

verus! {

/// Whether `c` has the Unicode `White_Space` property.
pub open spec fn white_space(c: char) -> bool {
    ('\u{9}' <= c && c <= '\u{d}') || c == ' ' || c == '\u{85}' || c == '\u{a0}' || c
        == '\u{1680}' || ('\u{2000}' <= c && c <= '\u{200a}') || c == '\u{2028}' || c
        == '\u{2029}' || c == '\u{202f}' || c == '\u{205f}' || c == '\u{3000}'
}

/// Whether `c` is white space, as `char::is_whitespace` decides it.
pub fn is_white(c: char) -> (r: bool)
    ensures
        r == white_space(c),
{
    ('\u{9}' <= c && c <= '\u{d}') || c == ' ' || c == '\u{85}' || c == '\u{a0}' || c
        == '\u{1680}' || ('\u{2000}' <= c && c <= '\u{200a}') || c == '\u{2028}' || c
        == '\u{2029}' || c == '\u{202f}' || c == '\u{205f}' || c == '\u{3000}'
}

/// `s` without leading white space.
pub open spec fn trim_start(s: Seq<char>) -> Seq<char>
    decreases s.len(),
{
    if s.len() > 0 && white_space(s[0]) {
        trim_start(s.drop_first())
    } else {
        s
    }
}

/// `s` without trailing white space.
pub open spec fn trim_end(s: Seq<char>) -> Seq<char>
    decreases s.len(),
{
    if s.len() > 0 && white_space(s.last()) {
        trim_end(s.drop_last())
    } else {
        s
    }
}

/// `s` without leading or trailing white space.
pub open spec fn trim(s: Seq<char>) -> Seq<char> {
    trim_end(trim_start(s))
}

/// `s` without leading or trailing white space.
pub fn trim_exec(s: &[char]) -> (r: Vec<char>)
    ensures
        r@ == trim(s@),
{
    let mut a: usize = 0;
    assert(s@.subrange(0, s@.len() as int) =~= s@);
    while a < s.len() && is_white(s[a])
        invariant
            a <= s@.len(),
            trim_start(s@) == trim_start(s@.subrange(a as int, s@.len() as int)),
        decreases s.len() - a,
    {
        assert(s@.subrange(a as int, s@.len() as int).drop_first() =~= s@.subrange(
            a + 1,
            s@.len() as int,
        ));
        a += 1;
    }
    let ghost t = s@.subrange(a as int, s@.len() as int);
    assert(trim_start(s@) == t);
    let mut b: usize = s.len();
    while b > a && is_white(s[b - 1])
        invariant
            a <= b <= s@.len(),
            t == s@.subrange(a as int, s@.len() as int),
            trim_end(t) == trim_end(s@.subrange(a as int, b as int)),
        decreases b,
    {
        assert(s@.subrange(a as int, b as int).drop_last() =~= s@.subrange(a as int, b - 1));
        b -= 1;
    }
    let mut out: Vec<char> = Vec::new();
    let mut i: usize = a;
    while i < b
        invariant
            a <= i <= b,
            b <= s@.len(),
            out@ == s@.subrange(a as int, i as int),
        decreases b - i,
    {
        out.push(s[i]);
        i += 1;
        assert(out@ =~= s@.subrange(a as int, i as int));
    }
    out
}

/// The lines before the first line that reads as the marker once trimmed.
pub open spec fn before_marker(ls: Seq<Seq<char>>) -> Seq<Seq<char>>
    decreases ls.len(),
{
    if ls.len() == 0 || trim(ls[0]) == MARKER@ {
        Seq::<Seq<char>>::empty()
    } else {
        seq![ls[0]] + before_marker(ls.drop_first())
    }
}

/// The template-owned part of a merged document.
pub open spec fn preserved_prefix(doc: Seq<char>) -> Seq<char> {
    join_lines(before_marker(lines(doc)))
}

/// What to do with freshly edited overrides.
#[derive(Debug, PartialEq, Eq)]
pub enum Reapply {
    /// The document has no managed region; a full update is needed.
    NoManagedRegion,
    /// The document to write.
    Rewrite(String),
}

/// `ls[0..n]` joined with newlines.
fn join_prefix(ls: &Vec<Vec<char>>, n: usize) -> (r: Vec<char>)
    requires
        n <= ls@.len(),
    ensures
        r@ == join_lines(views(ls@).subrange(0, n as int)),
{
    let ghost lv = views(ls@);
    let mut out: Vec<char> = Vec::new();
    let mut j: usize = 0;
    assert(lv.subrange(0, 0) =~= Seq::<Seq<char>>::empty());
    while j < n
        invariant
            j <= n <= ls@.len(),
            lv == views(ls@),
            out@ == join_lines(lv.subrange(0, j as int)),
        decreases n - j,
    {
        let ghost pre = lv.subrange(0, j as int);
        assert(lv.subrange(0, j + 1).drop_last() =~= pre);
        assert(lv.subrange(0, j + 1).last() == ls@[j as int]@);
        if j > 0 {
            out.push('\n');
        } else {
            assert(pre =~= Seq::<Seq<char>>::empty());
        }
        push_all(&mut out, ls[j].as_slice());
        j += 1;
        assert(out@ =~= join_lines(lv.subrange(0, j as int)));
    }
    out
}

/// Some line of `doc` reads as the marker once trimmed.
pub open spec fn has_marker_line(doc: Seq<char>) -> bool {
    exists|j: int| 0 <= j < lines(doc).len() && trim(#[trigger] lines(doc)[j]) == MARKER@
}

/// Decides how to rebuild `existing` around `overrides`: where a line
/// reads as the marker, keep what comes before it and append the marker
/// and the overrides; where none does, there is no managed region.
pub fn plan_reapply(existing: &str, overrides: &str) -> (r: Reapply)
    ensures
        (r == Reapply::NoManagedRegion) <==> !has_marker_line(existing@),
        r matches Reapply::Rewrite(d) ==> d@ == preserved_prefix(existing@) + seq!['\n']
            + override_tail(overrides@),
{
    let doc = chars_of(existing);
    let ls = split_lines(&doc);
    let ghost lv = views(ls@);
    let marker = chars_of(MARKER);
    let mut n: usize = 0;
    assert(lv.subrange(0, 0) =~= Seq::<Seq<char>>::empty());
    assert(lv.subrange(0, lv.len() as int) =~= lv);
    loop
        invariant
            n <= ls@.len(),
            lv == views(ls@),
            lv == lines(existing@),
            marker@ == MARKER@,
            forall|j: int| 0 <= j < n ==> trim(#[trigger] lv[j]) != MARKER@,
            before_marker(lv) == lv.subrange(0, n as int) + before_marker(
                lv.subrange(n as int, lv.len() as int),
            ),
        ensures
            n <= ls@.len(),
            before_marker(lv) == lv.subrange(0, n as int),
            n == ls@.len() <==> !has_marker_line(existing@),
        decreases ls.len() - n,
    {
        let ghost rest = lv.subrange(n as int, lv.len() as int);
        if n == ls.len() {
            assert(before_marker(rest) =~= Seq::<Seq<char>>::empty());
            assert(before_marker(lv) =~= lv.subrange(0, n as int));
            break;
        }
        let t = trim_exec(ls[n].as_slice());
        assert(rest[0] == ls@[n as int]@);
        if same_chars(t.as_slice(), marker.as_slice()) {
            assert(trim(lv[n as int]) == MARKER@);
            assert(before_marker(rest) =~= Seq::<Seq<char>>::empty());
            assert(before_marker(lv) =~= lv.subrange(0, n as int));
            break;
        }
        assert(rest.drop_first() =~= lv.subrange(n + 1, lv.len() as int));
        assert(lv.subrange(0, n + 1) =~= lv.subrange(0, n as int) + seq![rest[0]]);
        n += 1;
    }
    if n == ls.len() {
        Reapply::NoManagedRegion
    } else {
        let prefix = join_prefix(&ls, n);
        assert(prefix@ == preserved_prefix(existing@));
        let mut out = prefix;
        out.push('\n');
        push_all(&mut out, marker.as_slice());
        out.push('\n');
        out.push('\n');
        let o = chars_of(overrides);
        push_all(&mut out, o.as_slice());
        assert(out@ =~= preserved_prefix(existing@) + seq!['\n'] + override_tail(overrides@));
        Reapply::Rewrite(string_of(&out))
    }
}

} // verus!
