//! The template merge: the ESR toggle and the override block appended
//! after the managed-region marker.

use vstd::prelude::*;
use vstd::string::StringExecFns;
use crate::text::{chars_of, starts_with, string_of, ends_with};
use crate::version::{find_version, version_of};

verus! {

/// The line that opens the override block of a merged document.
pub const MARKER: &'static str = "/** START: arkencrab overrides */";

/// The disabled form of an ESR-gated block marker.
pub open spec fn esr_off() -> Seq<char> {
    seq!['/', '*', ' ', 'E', 'S', 'R']
}

/// The enabled form of an ESR-gated block marker.
pub open spec fn esr_on() -> Seq<char> {
    seq!['/', '/', ' ', 'E', 'S', 'R']
}

/// `s` with every `/* ESR` replaced by `// ESR`, scanning left to right.
pub open spec fn esr_rewritten(s: Seq<char>) -> Seq<char>
    decreases s.len(),
{
    if s.len() == 0 {
        s
    } else if starts_with(s, esr_off()) {
        esr_on() + esr_rewritten(s.subrange(6, s.len() as int))
    } else {
        seq![s[0]] + esr_rewritten(s.drop_first())
    }
}

/// The text that follows the template when overrides are appended.
pub open spec fn override_tail(overrides: Seq<char>) -> Seq<char> {
    MARKER@ + seq!['\n', '\n'] + overrides
}

/// The merged document: the template, ESR-enabled if asked, then a blank
/// line, the marker, a blank line and the overrides, if any.
pub open spec fn merged(template: Seq<char>, esr: bool, overrides: Option<Seq<char>>) -> Seq<char> {
    let base = if esr {
        esr_rewritten(template)
    } else {
        template
    };
    match overrides {
        Some(o) => base + seq!['\n'] + override_tail(o),
        None => base,
    }
}

/// Enables every ESR-gated block of `template`.
pub fn rewrite_esr(template: &str) -> (r: String)
    ensures
        r@ == esr_rewritten(template@),
{
    let s = chars_of(template);
    let on: [char; 6] = ['/', '/', ' ', 'E', 'S', 'R'];
    let off: [char; 6] = ['/', '*', ' ', 'E', 'S', 'R'];
    assert(off@ =~= esr_off());
    assert(on@ =~= esr_on());
    let mut out: Vec<char> = Vec::new();
    let mut i: usize = 0;
    assert(s@.subrange(0, s@.len() as int) =~= s@);
    while i < s.len()
        invariant
            i <= s@.len(),
            off@ == esr_off(),
            on@ == esr_on(),
            esr_rewritten(s@) == out@ + esr_rewritten(s@.subrange(i as int, s@.len() as int)),
        decreases s.len() - i,
    {
        let ghost rest = s@.subrange(i as int, s@.len() as int);
        if crate::text::occurs_at_exec(&s, &off, i) {
            assert(rest.subrange(0, 6) =~= s@.subrange(i as int, i + 6));
            assert(rest.subrange(6, rest.len() as int) =~= s@.subrange(i + 6, s@.len() as int));
            let ghost base = out@;
            let mut k: usize = 0;
            while k < 6
                invariant
                    k <= 6,
                    on@ == esr_on(),
                    out@ == base + on@.subrange(0, k as int),
                decreases 6 - k,
            {
                out.push(on[k]);
                k += 1;
                assert(out@ =~= base + on@.subrange(0, k as int));
            }
            assert(on@.subrange(0, 6) =~= on@);
            i += 6;
        } else {
            proof {
                if starts_with(rest, esr_off()) {
                    assert(rest.subrange(0, 6) =~= s@.subrange(i as int, i + 6));
                }
            }
            assert(rest.drop_first() =~= s@.subrange(i + 1, s@.len() as int));
            let ghost base = out@;
            out.push(s[i]);
            assert(out@ =~= base + seq![rest[0]]);
            i += 1;
        }
    }
    string_of(&out)
}

/// One step of the rewrite on text that does not open with `/* ESR`.
proof fn lemma_rewrite_step(c: char, y: Seq<char>)
    requires
        !starts_with(seq![c] + y, esr_off()),
    ensures
        esr_rewritten(seq![c] + y) == seq![c] + esr_rewritten(y),
{
    let s = seq![c] + y;
    assert(s.drop_first() =~= y);
}

proof fn lemma_not_off_at(s: Seq<char>, k: int)
    requires
        0 <= k < 6,
        k < s.len(),
        s[k] != esr_off()[k],
    ensures
        !starts_with(s, esr_off()),
{
    if starts_with(s, esr_off()) {
        assert(s.subrange(0, 6)[k] == s[k]);
    }
}

/// Rewriting passes over an enabled marker unchanged.
proof fn lemma_rewrite_on_prefix(x: Seq<char>)
    ensures
        esr_rewritten(esr_on() + x) == esr_on() + esr_rewritten(x),
{
    let t5 = seq!['R'] + x;
    let t4 = seq!['S'] + t5;
    let t3 = seq!['E'] + t4;
    let t2 = seq![' '] + t3;
    let t1 = seq!['/'] + t2;
    let t0 = seq!['/'] + t1;
    assert(t0 =~= esr_on() + x);
    lemma_not_off_at(t5, 0);
    lemma_rewrite_step('R', x);
    lemma_not_off_at(t4, 0);
    lemma_rewrite_step('S', t5);
    lemma_not_off_at(t3, 0);
    lemma_rewrite_step('E', t4);
    lemma_not_off_at(t2, 0);
    lemma_rewrite_step(' ', t3);
    lemma_not_off_at(t1, 1);
    lemma_rewrite_step('/', t2);
    lemma_not_off_at(t0, 1);
    lemma_rewrite_step('/', t1);
    assert(esr_rewritten(t0) =~= esr_on() + esr_rewritten(x));
}

/// A prefix free of `/` in the rewritten text was already in the input.
proof fn lemma_prefix_kept(q: Seq<char>, y: Seq<char>)
    requires
        q.len() > 0,
        forall|k: int| 0 <= k < q.len() ==> q[k] != '/',
        starts_with(esr_rewritten(y), q),
    ensures
        starts_with(y, q),
    decreases q.len(),
{
    let r = esr_rewritten(y);
    if y.len() == 0 {
    } else if starts_with(y, esr_off()) {
        assert(r[0] == '/');
        assert(r.subrange(0, q.len() as int)[0] == q[0]);
    } else {
        let tail = esr_rewritten(y.drop_first());
        assert(r == seq![y[0]] + tail);
        assert(r.subrange(0, q.len() as int)[0] == q[0]);
        assert(y[0] == q[0]);
        if q.len() > 1 {
            let q1 = q.drop_first();
            assert(tail.subrange(0, q1.len() as int) =~= r.subrange(0, q.len() as int).drop_first());
            assert(starts_with(tail, q1));
            lemma_prefix_kept(q1, y.drop_first());
            assert(y.subrange(0, q.len() as int) =~= seq![y[0]] + y.drop_first().subrange(0, q1.len() as int));
            assert(seq![q[0]] + q1 =~= q);
        } else {
            assert(y.subrange(0, q.len() as int) =~= q);
        }
    }
}

/// Enabling ESR blocks twice is the same as enabling them once.
pub proof fn law_esr_rewrite_idempotent(t: Seq<char>)
    ensures
        esr_rewritten(esr_rewritten(t)) == esr_rewritten(t),
    decreases t.len(),
{
    if t.len() == 0 {
    } else if starts_with(t, esr_off()) {
        let rest = t.subrange(6, t.len() as int);
        law_esr_rewrite_idempotent(rest);
        lemma_rewrite_on_prefix(esr_rewritten(rest));
    } else {
        let y = t.drop_first();
        let r = esr_rewritten(y);
        law_esr_rewrite_idempotent(y);
        if starts_with(seq![t[0]] + r, esr_off()) {
            let s = seq![t[0]] + r;
            let q = seq!['*', ' ', 'E', 'S', 'R'];
            assert(s.subrange(0, 6)[0] == '/');
            assert(r.subrange(0, 5) =~= s.subrange(0, 6).drop_first());
            assert(q =~= esr_off().drop_first());
            assert(r.subrange(0, 5) == q);
            assert(starts_with(r, q));
            lemma_prefix_kept(q, y);
            assert(t[0] == '/');
            assert(y.subrange(0, 5) == q);
            assert(t.subrange(0, 6) =~= seq![t[0]] + y.subrange(0, 5));
            assert(t.subrange(0, 6) =~= esr_off());
            assert(starts_with(t, esr_off()));
            assert(false);
        }
        lemma_rewrite_step(t[0], r);
    }
}

/// Text that holds a disabled marker changes when rewritten.
proof fn lemma_rewrite_changes(x: Seq<char>)
    requires
        crate::text::contains(x, esr_off()),
    ensures
        esr_rewritten(x) != x,
    decreases x.len(),
{
    let i = choose|i: int| crate::text::occurs_at(x, esr_off(), i);
    assert(x.subrange(i, i + 6)[0] == '/');
    if starts_with(x, esr_off()) {
        assert(x.subrange(0, 6)[1] == '*');
        assert((esr_on() + esr_rewritten(x.subrange(6, x.len() as int)))[1] == '/');
    } else {
        if i == 0 {
            assert(starts_with(x, esr_off()));
        }
        let u = x.drop_first();
        assert(u.subrange(i - 1, i - 1 + 6) =~= x.subrange(i, i + 6));
        assert(crate::text::occurs_at(u, esr_off(), i - 1));
        lemma_rewrite_changes(u);
        if esr_rewritten(x) == x {
            assert((seq![x[0]] + esr_rewritten(u)).drop_first() =~= esr_rewritten(u));
            assert(x.drop_first() == u);
        }
    }
}

/// Where the rewrite leaves text: same length; a character changes only
/// right after the start of a disabled marker, and the character after
/// the start of each disabled marker becomes `/`.
proof fn lemma_rewrite_positions(t: Seq<char>)
    ensures
        esr_rewritten(t).len() == t.len(),
        forall|k: int|
            0 <= k < t.len() ==> #[trigger] esr_rewritten(t)[k] == t[k] || (k >= 1
                && crate::text::occurs_at(t, esr_off(), k - 1)),
        forall|i: int|
            crate::text::occurs_at(t, esr_off(), i) ==> #[trigger] esr_rewritten(t)[i + 1] == '/',
    decreases t.len(),
{
    let r = esr_rewritten(t);
    if t.len() == 0 {
    } else if starts_with(t, esr_off()) {
        let u = t.subrange(6, t.len() as int);
        lemma_rewrite_positions(u);
        let ru = esr_rewritten(u);
        assert(r == esr_on() + ru);
        assert forall|k: int| 0 <= k < t.len() implies #[trigger] r[k] == t[k] || (k >= 1
            && crate::text::occurs_at(t, esr_off(), k - 1)) by {
            if k < 6 {
                assert(t[k] == t.subrange(0, 6)[k]);
                if k == 1 {
                    assert(crate::text::occurs_at(t, esr_off(), 0));
                }
            } else {
                assert(r[k] == ru[k - 6]);
                assert(u[k - 6] == t[k]);
                if ru[k - 6] != u[k - 6] {
                    assert(crate::text::occurs_at(u, esr_off(), k - 7));
                    assert(t.subrange(k - 1, k + 5) =~= u.subrange(k - 7, k - 1));
                }
            }
        }
        assert forall|i: int| crate::text::occurs_at(t, esr_off(), i) implies #[trigger] r[i + 1]
            == '/' by {
            if i == 0 {
                assert(r[1] == esr_on()[1]);
            } else if i < 6 {
                assert(t[i] == t.subrange(i, i + 6)[0]);
                assert(t[i] == t.subrange(0, 6)[i]);
                assert(esr_off()[i] != '/');
                assert(false);
            } else {
                assert(u.subrange(i - 6, i) =~= t.subrange(i, i + 6));
                assert(crate::text::occurs_at(u, esr_off(), i - 6));
                assert(ru[(i - 6) + 1] == '/');
                assert(r[i + 1] == ru[i - 5]);
            }
        }
    } else {
        let u = t.drop_first();
        lemma_rewrite_positions(u);
        let ru = esr_rewritten(u);
        assert(r == seq![t[0]] + ru);
        assert forall|k: int| 0 <= k < t.len() implies #[trigger] r[k] == t[k] || (k >= 1
            && crate::text::occurs_at(t, esr_off(), k - 1)) by {
            if k >= 1 {
                assert(r[k] == ru[k - 1]);
                assert(u[k - 1] == t[k]);
                if ru[k - 1] != u[k - 1] {
                    assert(crate::text::occurs_at(u, esr_off(), k - 2));
                    assert(t.subrange(k - 1, k + 5) =~= u.subrange(k - 2, k + 4));
                }
            }
        }
        assert forall|i: int| crate::text::occurs_at(t, esr_off(), i) implies #[trigger] r[i + 1]
            == '/' by {
            if i == 0 {
                assert(starts_with(t, esr_off()));
                assert(false);
            } else {
                assert(u.subrange(i - 1, i + 5) =~= t.subrange(i, i + 6));
                assert(crate::text::occurs_at(u, esr_off(), i - 1));
                assert(ru[(i - 1) + 1] == '/');
                assert(r[i + 1] == ru[i]);
                assert(r[i + 1] == '/');
            }
        }
    }
}

pub open spec fn esr_enable_off() -> Seq<char> {
    esr_off() + seq![' ', 'e', 'n', 'a', 'b', 'l', 'e', ' ', '*', '/']
}

pub open spec fn esr_enable_on() -> Seq<char> {
    esr_on() + seq![' ', 'e', 'n', 'a', 'b', 'l', 'e', ' ', '*', '/']
}

/// With ESR enabled, no disabled marker is left, and each
/// `/* ESR enable */` reads `// ESR enable */`.
pub proof fn law_esr_enabled(t: Seq<char>, i: int)
    ensures
        !crate::text::contains(esr_rewritten(t), esr_off()),
        crate::text::occurs_at(t, esr_enable_off(), i) ==> crate::text::occurs_at(
            esr_rewritten(t),
            esr_enable_on(),
            i,
        ),
{
    law_esr_rewrite_idempotent(t);
    if crate::text::contains(esr_rewritten(t), esr_off()) {
        lemma_rewrite_changes(esr_rewritten(t));
    }
    if crate::text::occurs_at(t, esr_enable_off(), i) {
        lemma_rewrite_positions(t);
        let r = esr_rewritten(t);
        let w = esr_enable_off();
        assert(t.subrange(i, i + 6) =~= t.subrange(i, i + 16).subrange(0, 6));
        assert(w.subrange(0, 6) =~= esr_off());
        assert(crate::text::occurs_at(t, esr_off(), i));
        assert forall|k: int| 0 <= k < 16 implies r[i + k] == #[trigger] esr_enable_on()[k] by {
            assert(t[i + k] == t.subrange(i, i + 16)[k]);
            if k == 1 {
            } else {
                if r[i + k] != t[i + k] {
                    assert(crate::text::occurs_at(t, esr_off(), i + k - 1));
                    assert(t[i + k - 1] == t.subrange(i + k - 1, i + k + 5)[0]);
                    if k == 0 {
                        assert(t[i] == t.subrange(i + k - 1, i + k + 5)[1]);
                    } else {
                        assert(t[i + k - 1] == t.subrange(i, i + 16)[k - 1]);
                    }
                }
            }
        }
        assert(r.subrange(i, i + 16) =~= esr_enable_on());
    }
}

/// Merges `template` with the ESR toggle and, if given, the override block.
pub fn merge(template: &str, esr: bool, overrides: Option<&str>) -> (r: String)
    ensures
        r@ == merged(template@, esr, match overrides {
            Some(o) => Some(o@),
            None => None,
        }),
{
    let mut doc = if esr {
        rewrite_esr(template)
    } else {
        String::from_str(template)
    };
    match overrides {
        Some(o) => {
            doc.append("\n");
            doc.append(MARKER);
            doc.append("\n\n");
            doc.append(o);
            proof {
                reveal_strlit("\n");
                reveal_strlit("\n\n");
            }
            assert(doc@ =~= merged(template@, esr, Some(o@)));
        },
        None => {},
    }
    doc
}

/// With overrides, the merged document ends with the marker, a blank line
/// and the overrides.
pub proof fn law_overrides_follow_marker(t: Seq<char>, o: Seq<char>)
    ensures
        ends_with(merged(t, false, Some(o)), override_tail(o)),
{
    let m = merged(t, false, Some(o));
    assert(m.subrange(m.len() - override_tail(o).len(), m.len() as int) =~= override_tail(o));
}

/// What an update writes and reports.
pub struct UpdatePlan {
    /// The version that the document on disk declares.
    pub old_version: String,
    /// The version that the new template declares.
    pub new_version: String,
    /// The document to write.
    pub document: String,
    /// Whether the document to write equals the one on disk.
    pub unchanged: bool,
}

/// Plans an update of `existing` to `template`.
pub fn plan_update(existing: &str, template: &str, esr: bool, overrides: Option<&str>) -> (r:
    UpdatePlan)
    ensures
        r.old_version@ == version_of(existing@),
        r.new_version@ == version_of(template@),
        r.document@ == merged(template@, esr, match overrides {
            Some(o) => Some(o@),
            None => None,
        }),
        r.unchanged == (r.document@ == existing@),
{
    let old_version = find_version(existing);
    let new_version = find_version(template);
    let document = merge(template, esr, overrides);
    let before = String::from_str(existing);
    let unchanged = document == before;
    UpdatePlan { old_version, new_version, document, unchanged }
}

} // verus!
