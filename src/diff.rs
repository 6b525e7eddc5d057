//! A line-level diff between two documents, grouped into hunks with two
//! lines of context.

use vstd::prelude::*;
use similar::ChangeTag;
use crate::text::{chars_of, join_lines, push_all, string_of};

verus! {

/// The role of a line in a diff.
#[derive(Debug, Clone, Copy, PartialEq, Eq)]
pub enum ChangeKind {
    Equal,
    Delete,
    Insert,
}

/// One line of a diff hunk.
pub struct DiffLine {
    pub kind: ChangeKind,
    /// The line, with its line ending.
    pub text: String,
}

pub open spec fn hunk_views(h: Seq<Vec<DiffLine>>) -> Seq<Seq<(ChangeKind, Seq<char>)>> {
    h.map_values(|v: Vec<DiffLine>| v@.map_values(|l: DiffLine| (l.kind, l.text@)))
}

/// The hunks of the line diff of `old` and `new`, with `radius` lines of
/// context around each change.
pub uninterp spec fn line_diff(old: Seq<char>, new: Seq<char>, radius: usize) -> Seq<
    Seq<(ChangeKind, Seq<char>)>,
>;

/// Relies on `similar::TextDiff::from_lines` and `UnifiedDiff::iter_hunks`:
/// the changes of each hunk in order, with their tag and their text.
#[verifier::external_body]
fn hunks_with(old: &str, new: &str, radius: usize) -> (r: Vec<Vec<DiffLine>>)
    ensures
        hunk_views(r@) == line_diff(old@, new@, radius),
{
    let diff = similar::TextDiff::from_lines(old, new);
    let mut udiff = diff.unified_diff();
    let hunks = udiff.context_radius(radius).iter_hunks();
    hunks.map(|h| h.iter_changes().map(|c| DiffLine {
        kind: match c.tag() {
            ChangeTag::Equal => ChangeKind::Equal,
            ChangeTag::Delete => ChangeKind::Delete,
            ChangeTag::Insert => ChangeKind::Insert,
        },
        text: c.to_string(),
    }).collect()).collect()
}

/// Lines of context around each change.
pub const CONTEXT_RADIUS: usize = 2;

/// The hunks of the line diff of `old` and `new`.
pub fn diff_hunks(old: &str, new: &str) -> (r: Vec<Vec<DiffLine>>)
    ensures
        hunk_views(r@) == line_diff(old@, new@, CONTEXT_RADIUS),
{
    hunks_with(old, new, CONTEXT_RADIUS)
}

pub open spec fn tag_char(k: ChangeKind) -> char {
    match k {
        ChangeKind::Equal => ' ',
        ChangeKind::Delete => '-',
        ChangeKind::Insert => '+',
    }
}

/// A diff line as shown: its tag, a tab, then its text.
pub open spec fn formatted(k: ChangeKind, text: Seq<char>) -> Seq<char> {
    seq![tag_char(k), '\t'] + text
}

/// The lines of a hunk, formatted and concatenated.
pub open spec fn hunk_text(h: Seq<(ChangeKind, Seq<char>)>) -> Seq<char>
    decreases h.len(),
{
    if h.len() == 0 {
        Seq::<char>::empty()
    } else {
        hunk_text(h.drop_last()) + formatted(h.last().0, h.last().1)
    }
}

/// The hunks as shown, separated by newlines.
pub open spec fn rendered(hunks: Seq<Seq<(ChangeKind, Seq<char>)>>) -> Seq<char> {
    join_lines(hunks.map_values(|h: Seq<(ChangeKind, Seq<char>)>| hunk_text(h)))
}

fn push_formatted(out: &mut Vec<char>, line: &DiffLine)
    ensures
        final(out)@ == old(out)@ + formatted(line.kind, line.text@),
{
    let tag = match line.kind {
        ChangeKind::Equal => ' ',
        ChangeKind::Delete => '-',
        ChangeKind::Insert => '+',
    };
    let ghost start = out@;
    out.push(tag);
    out.push('\t');
    let t = chars_of(line.text.as_str());
    push_all(out, t.as_slice());
    assert(out@ =~= start + formatted(line.kind, line.text@));
}

/// A diff line as shown: its tag (` `, `-` or `+`), a tab, then its text.
pub fn format_change(line: &DiffLine) -> (r: String)
    ensures
        r@ == formatted(line.kind, line.text@),
{
    let mut out: Vec<char> = Vec::new();
    push_formatted(&mut out, line);
    string_of(&out)
}

/// The diff of `old` and `new` as text: each hunk's formatted lines, with
/// a newline between hunks.
pub fn render_diff(old: &str, new: &str) -> (r: String)
    ensures
        r@ == rendered(line_diff(old@, new@, CONTEXT_RADIUS)),
{
    let hunks = diff_hunks(old, new);
    let ghost hv = hunk_views(hunks@);
    let ghost texts = hv.map_values(|h: Seq<(ChangeKind, Seq<char>)>| hunk_text(h));
    let mut out: Vec<char> = Vec::new();
    let mut i: usize = 0;
    assert(texts.subrange(0, 0) =~= Seq::<Seq<char>>::empty());
    while i < hunks.len()
        invariant
            i <= hunks@.len(),
            hv == hunk_views(hunks@),
            texts == hv.map_values(|h: Seq<(ChangeKind, Seq<char>)>| hunk_text(h)),
            out@ == join_lines(texts.subrange(0, i as int)),
        decreases hunks.len() - i,
    {
        let ghost pre = texts.subrange(0, i as int);
        let ghost before = out@;
        if i > 0 {
            out.push('\n');
        } else {
            assert(pre =~= Seq::<Seq<char>>::empty());
        }
        let ghost base = out@;
        let h = &hunks[i];
        let ghost hl = hv[i as int];
        assert(hl == h@.map_values(|l: DiffLine| (l.kind, l.text@)));
        let mut j: usize = 0;
        assert(hl.subrange(0, 0) =~= Seq::<(ChangeKind, Seq<char>)>::empty());
        while j < h.len()
            invariant
                j <= h@.len(),
                hl == h@.map_values(|l: DiffLine| (l.kind, l.text@)),
                out@ == base + hunk_text(hl.subrange(0, j as int)),
            decreases h.len() - j,
        {
            push_formatted(&mut out, &h[j]);
            assert(hl.subrange(0, j + 1).drop_last() =~= hl.subrange(0, j as int));
            assert(hl[j as int] == (h@[j as int].kind, h@[j as int].text@));
            j += 1;
            assert(out@ =~= base + hunk_text(hl.subrange(0, j as int)));
        }
        assert(hl.subrange(0, hl.len() as int) =~= hl);
        assert(texts[i as int] == hunk_text(hl));
        assert(texts.subrange(0, i + 1).drop_last() =~= pre);
        i += 1;
        assert(out@ =~= join_lines(texts.subrange(0, i as int)));
    }
    assert(texts.subrange(0, texts.len() as int) =~= texts);
    string_of(&out)
}

} // verus!
