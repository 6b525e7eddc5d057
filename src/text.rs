//! Character-level text model shared by the rest of the library: lines,
//! substrings, joining and trimming, over `Seq<char>`.

use vstd::prelude::*;
use vstd::std_specs::iter::IteratorSpec;

verus! {

/// The characters of `s`, in order.
pub fn chars_of(s: &str) -> (r: Vec<char>)
    ensures
        r@ == s@,
{
    let mut out: Vec<char> = Vec::new();
    let mut it = s.chars();
    loop
        invariant
            out@ + it.remaining() == s@,
            it.obeys_prophetic_iter_laws(),
            it.decrease() is Some,
        ensures
            out@ == s@,
        decreases it.decrease()->0,
    {
        match it.next() {
            Some(c) => {
                out.push(c);
                assert(out@ + it.remaining() =~= s@);
            },
            None => {
                assert(out@ =~= s@);
                break;
            },
        }
    }
    out
}

/// Relies on `FromIterator<&char>` for `String`: the characters in order.
#[verifier::external_body]
pub(crate) fn string_of(v: &[char]) -> (r: String)
    ensures
        r@ == v@,
{
    v.iter().collect()
}

/// The views of a sequence of character vectors.
pub open spec fn views(v: Seq<Vec<char>>) -> Seq<Seq<char>> {
    v.map_values(|l: Vec<char>| l@)
}

/// `p` occurs in `s` starting at index `i`.
pub open spec fn occurs_at(s: Seq<char>, p: Seq<char>, i: int) -> bool {
    0 <= i && i + p.len() <= s.len() && s.subrange(i, i + p.len()) == p
}

pub open spec fn starts_with(s: Seq<char>, p: Seq<char>) -> bool {
    occurs_at(s, p, 0)
}

/// `p` is a substring of `s`.
pub open spec fn contains(s: Seq<char>, p: Seq<char>) -> bool {
    exists|i: int| occurs_at(s, p, i)
}

pub open spec fn ends_with(s: Seq<char>, p: Seq<char>) -> bool {
    p.len() <= s.len() && s.subrange(s.len() - p.len(), s.len() as int) == p
}

/// The pieces of `s` between `'\n'` characters; there is always one more
/// piece than there are newlines.
pub open spec fn pieces(s: Seq<char>) -> Seq<Seq<char>>
    decreases s.len(),
{
    if s.len() == 0 {
        seq![Seq::<char>::empty()]
    } else {
        let p = pieces(s.drop_last());
        if s.last() == '\n' {
            p.push(Seq::<char>::empty())
        } else {
            p.update(p.len() - 1, p.last().push(s.last()))
        }
    }
}

/// A line without the carriage return of a `"\r\n"` terminator.
pub open spec fn strip_cr(l: Seq<char>) -> Seq<char> {
    if l.len() > 0 && l.last() == '\r' {
        l.drop_last()
    } else {
        l
    }
}

/// The lines of `s`: split at `"\n"` or `"\r\n"`, the final terminator
/// optional, and no empty line after a final terminator.
pub open spec fn lines(s: Seq<char>) -> Seq<Seq<char>> {
    let p = pieces(s);
    let done = p.drop_last().map_values(|l: Seq<char>| strip_cr(l));
    if p.last().len() == 0 {
        done
    } else {
        done.push(p.last())
    }
}

/// `ls` joined with `'\n'` between consecutive lines.
pub open spec fn join_lines(ls: Seq<Seq<char>>) -> Seq<char>
    decreases ls.len(),
{
    if ls.len() == 0 {
        Seq::<char>::empty()
    } else if ls.len() == 1 {
        ls[0]
    } else {
        join_lines(ls.drop_last()) + seq!['\n'] + ls.last()
    }
}

pub proof fn lemma_pieces_nonempty(s: Seq<char>)
    ensures
        pieces(s).len() >= 1,
    decreases s.len(),
{
    if s.len() > 0 {
        lemma_pieces_nonempty(s.drop_last());
    }
}

/// Whether `p` occurs in `s` at index `i`.
pub fn occurs_at_exec(s: &[char], p: &[char], i: usize) -> (r: bool)
    ensures
        r == occurs_at(s@, p@, i as int),
{
    if i > s.len() || p.len() > s.len() - i {
        return false;
    }
    let mut j: usize = 0;
    while j < p.len()
        invariant
            i + p@.len() <= s@.len(),
            s@.len() == s.len(),
            j <= p@.len(),
            forall|k: int| 0 <= k < j ==> s@[i + k] == p@[k],
        decreases p.len() - j,
    {
        if s[i + j] != p[j] {
            assert(s@.subrange(i as int, i + p@.len())[j as int] != p@[j as int]);
            return false;
        }
        j += 1;
    }
    assert(s@.subrange(i as int, i + p@.len()) =~= p@);
    true
}

/// Whether `p` is a substring of `s`.
pub fn contains_exec(s: &[char], p: &[char]) -> (r: bool)
    ensures
        r == contains(s@, p@),
{
    if p.len() > s.len() {
        return false;
    }
    let last = s.len() - p.len();
    let mut i: usize = 0;
    loop
        invariant
            last == s@.len() - p@.len(),
            i <= last,
            forall|k: int| 0 <= k < i ==> !occurs_at(s@, p@, k),
        ensures
            forall|k: int| 0 <= k <= last ==> !occurs_at(s@, p@, k),
        decreases last - i,
    {
        if occurs_at_exec(s, p, i) {
            return true;
        }
        if i == last {
            break;
        }
        i += 1;
    }
    assert forall|k: int| !occurs_at(s@, p@, k) by {
        if 0 <= k && k <= last {
        }
    }
    false
}

/// The line `l` without the carriage return of a `"\r\n"` terminator.
fn strip_cr_exec(l: Vec<char>) -> (r: Vec<char>)
    ensures
        r@ == strip_cr(l@),
{
    let mut l = l;
    if l.len() > 0 && l[l.len() - 1] == '\r' {
        l.pop();
    }
    l
}

/// The lines of `s`, as `str::lines` gives them.
pub fn split_lines(s: &[char]) -> (r: Vec<Vec<char>>)
    ensures
        views(r@) == lines(s@),
{
    let mut out: Vec<Vec<char>> = Vec::new();
    let mut cur: Vec<char> = Vec::new();
    let ghost mut raw: Seq<Seq<char>> = seq![];
    let mut i: usize = 0;
    assert(s@.subrange(0, 0) =~= Seq::<char>::empty());
    while i < s.len()
        invariant
            i <= s@.len(),
            pieces(s@.subrange(0, i as int)) == raw.push(cur@),
            views(out@) == raw.map_values(|l: Seq<char>| strip_cr(l)),
        decreases s.len() - i,
    {
        let c = s[i];
        let ghost prev = cur@;
        assert(s@.subrange(0, i + 1).drop_last() =~= s@.subrange(0, i as int));
        if c == '\n' {
            let line = strip_cr_exec(cur);
            let ghost old_out = out@;
            out.push(line);
            proof {
                assert(out@ == old_out.push(line));
                assert(views(out@) =~= views(old_out).push(strip_cr(prev)));
                assert(views(out@) =~= raw.push(prev).map_values(|l: Seq<char>| strip_cr(l)));
                raw = raw.push(prev);
            }
            cur = Vec::new();
            assert(pieces(s@.subrange(0, i + 1)) =~= raw.push(cur@));
        } else {
            cur.push(c);
            assert(pieces(s@.subrange(0, i + 1)) =~= raw.push(cur@));
        }
        i += 1;
    }
    assert(s@.subrange(0, s@.len() as int) =~= s@);
    assert(raw.push(cur@).drop_last() =~= raw);
    if cur.len() > 0 {
        out.push(cur);
        assert(views(out@) =~= lines(s@));
    } else {
        assert(views(out@) =~= lines(s@));
    }
    out
}

/// Appends the characters of `s` to `out`.
pub fn push_all(out: &mut Vec<char>, s: &[char])
    ensures
        final(out)@ == old(out)@ + s@,
{
    let ghost start = out@;
    let mut i: usize = 0;
    while i < s.len()
        invariant
            i <= s@.len(),
            out@ == start + s@.subrange(0, i as int),
        decreases s.len() - i,
    {
        out.push(s[i]);
        i += 1;
        assert(out@ =~= start + s@.subrange(0, i as int));
    }
    assert(s@.subrange(0, s@.len() as int) =~= s@);
}

/// Each line of `ls` followed by a newline.
pub open spec fn terminated(ls: Seq<Seq<char>>) -> Seq<char>
    decreases ls.len(),
{
    if ls.len() == 0 {
        Seq::<char>::empty()
    } else {
        terminated(ls.drop_last()) + ls.last() + seq!['\n']
    }
}

pub proof fn lemma_terminated_join(ls: Seq<Seq<char>>)
    requires
        ls.len() > 0,
    ensures
        terminated(ls) == join_lines(ls) + seq!['\n'],
    decreases ls.len(),
{
    if ls.len() > 1 {
        lemma_terminated_join(ls.drop_last());
        assert(terminated(ls) =~= join_lines(ls) + seq!['\n']);
    } else {
        assert(ls.drop_last() =~= Seq::<Seq<char>>::empty());
        assert(terminated(ls.drop_last()) == Seq::<char>::empty());
        assert(terminated(ls) =~= join_lines(ls) + seq!['\n']);
    }
}

/// `l` holds no newline.
pub open spec fn single_line(l: Seq<char>) -> bool {
    forall|k: int| 0 <= k < l.len() ==> l[k] != '\n'
}

pub proof fn lemma_pieces_single(s: Seq<char>)
    ensures
        forall|j: int| 0 <= j < pieces(s).len() ==> single_line(#[trigger] pieces(s)[j]),
    decreases s.len(),
{
    if s.len() > 0 {
        lemma_pieces_single(s.drop_last());
        lemma_pieces_nonempty(s.drop_last());
        let p = pieces(s.drop_last());
        if s.last() != '\n' {
            let q = p.update(p.len() - 1, p.last().push(s.last()));
            assert forall|j: int| 0 <= j < q.len() implies single_line(#[trigger] q[j]) by {
                if j == p.len() - 1 {
                    assert(single_line(p[j]));
                }
            }
        } else {
            let q = p.push(Seq::<char>::empty());
            assert forall|j: int| 0 <= j < q.len() implies single_line(#[trigger] q[j]) by {
                if j < p.len() {
                    assert(single_line(p[j]));
                }
            }
        }
    }
}

pub proof fn lemma_lines_single(s: Seq<char>)
    ensures
        forall|j: int| 0 <= j < lines(s).len() ==> single_line(#[trigger] lines(s)[j]),
{
    lemma_pieces_single(s);
    lemma_pieces_nonempty(s);
    let p = pieces(s);
    assert forall|j: int| 0 <= j < lines(s).len() implies single_line(#[trigger] lines(s)[j]) by {
        if j < p.len() - 1 {
            assert(single_line(p[j]));
            assert(lines(s)[j] == strip_cr(p.drop_last()[j]));
        } else {
            assert(single_line(p[p.len() - 1]));
        }
    }
}

/// Appending text without a newline extends the last piece.
pub proof fn lemma_pieces_extend(a: Seq<char>, b: Seq<char>)
    requires
        single_line(b),
    ensures
        pieces(a + b) == pieces(a).update(pieces(a).len() - 1, pieces(a).last() + b),
    decreases b.len(),
{
    lemma_pieces_nonempty(a);
    if b.len() == 0 {
        assert(a + b =~= a);
        assert(pieces(a).update(pieces(a).len() - 1, pieces(a).last() + b) =~= pieces(a));
    } else {
        let b1 = b.drop_last();
        lemma_pieces_extend(a, b1);
        assert((a + b).drop_last() =~= a + b1);
        assert((a + b).last() == b.last());
        assert(b.last() == b[b.len() - 1]);
        assert((pieces(a).last() + b1).push(b.last()) =~= pieces(a).last() + b);
        assert(pieces(a + b) =~= pieces(a).update(pieces(a).len() - 1, pieces(a).last() + b));
    }
}

/// Joined single lines split back into the same pieces.
pub proof fn lemma_pieces_join(ls: Seq<Seq<char>>)
    requires
        ls.len() > 0,
        forall|j: int| 0 <= j < ls.len() ==> single_line(#[trigger] ls[j]),
    ensures
        pieces(join_lines(ls)) == ls,
    decreases ls.len(),
{
    let e = Seq::<char>::empty();
    if ls.len() == 1 {
        lemma_pieces_extend(e, ls[0]);
        assert(e + ls[0] =~= ls[0]);
        assert(pieces(e) == seq![e]);
        assert(seq![e].update(0, e + ls[0]) =~= ls);
    } else {
        let k = ls.drop_last();
        lemma_pieces_join(k);
        let x = join_lines(k) + seq!['\n'];
        assert(x.drop_last() =~= join_lines(k));
        assert(pieces(x) == k.push(e));
        assert(ls.last() == ls[ls.len() - 1]);
        lemma_pieces_extend(x, ls.last());
        assert(join_lines(ls) == x + ls.last());
        assert(k.push(e).update(k.len() as int, e + ls.last()) =~= ls);
    }
}

/// The lines of single lines, each followed by a newline.
pub proof fn lemma_lines_of_joined(ls: Seq<Seq<char>>)
    requires
        forall|j: int| 0 <= j < ls.len() ==> single_line(#[trigger] ls[j]),
    ensures
        ls.len() > 0 ==> lines(join_lines(ls) + seq!['\n']) == ls.map_values(
            |l: Seq<char>| strip_cr(l),
        ),
        ls.len() == 0 ==> lines(join_lines(ls) + seq!['\n']) == seq![Seq::<char>::empty()],
{
    let e = Seq::<char>::empty();
    let x = join_lines(ls) + seq!['\n'];
    assert(x.drop_last() =~= join_lines(ls));
    if ls.len() > 0 {
        lemma_pieces_join(ls);
        assert(pieces(x) == ls.push(e));
        assert(ls.push(e).drop_last() =~= ls);
    } else {
        assert(join_lines(ls) == e);
        assert(x.drop_last() =~= e);
        assert(x.last() == '\n');
        assert(pieces(e) == seq![e]);
        assert(pieces(x) == seq![e].push(e));
        assert(seq![e].push(e).drop_last() =~= seq![e]);
        assert(lines(x) =~= seq![e]);
    }
}

/// What a prefix contains, the whole contains.
pub proof fn lemma_contains_prefix(l: Seq<char>, n: int, k: Seq<char>)
    requires
        0 <= n <= l.len(),
        contains(l.subrange(0, n), k),
    ensures
        contains(l, k),
{
    let i = choose|i: int| occurs_at(l.subrange(0, n), k, i);
    assert(l.subrange(i, i + k.len()) =~= l.subrange(0, n).subrange(i, i + k.len()));
    assert(occurs_at(l, k, i));
}

/// Whether `a` and `b` hold the same characters.
pub fn same_chars(a: &[char], b: &[char]) -> (r: bool)
    ensures
        r == (a@ == b@),
{
    if a.len() != b.len() {
        return false;
    }
    let mut i: usize = 0;
    while i < a.len()
        invariant
            i <= a@.len(),
            a@.len() == b@.len(),
            forall|k: int| 0 <= k < i ==> a@[k] == b@[k],
        decreases a.len() - i,
    {
        if a[i] != b[i] {
            return false;
        }
        i += 1;
    }
    assert(a@ =~= b@);
    true
}

} // verus!
