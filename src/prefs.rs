//! Removes from a runtime preference store every line that names a key
//! the template already declares.

use vstd::prelude::*;
use crate::pattern::{captures, group_one_captures, USER_PREF_PATTERN};
use crate::text::{
    push_all, chars_of, contains, contains_exec, join_lines, lines, split_lines, string_of, strip_cr,
    views,
};

verus! {

/// The keys captured by a pattern run, as a set.
pub open spec fn captured_set(caps: Option<Seq<Option<Seq<char>>>>) -> Set<Seq<char>> {
    Set::new(
        |k: Seq<char>|
            match caps {
                Some(c) => exists|i: int| 0 <= i < c.len() && c[i] == Some(k),
                None => false,
            },
    )
}

/// The keys that `template` declares.
pub open spec fn declared_keys(template: Seq<char>) -> Set<Seq<char>> {
    captured_set(group_one_captures(USER_PREF_PATTERN@, template))
}

/// The views of a list of strings, as a set.
pub open spec fn string_set(keys: Seq<String>) -> Set<Seq<char>> {
    Set::new(|k: Seq<char>| exists|i: int| 0 <= i < keys.len() && keys[i]@ == k)
}

/// `line` names one of `keys`.
pub open spec fn mentions_any(line: Seq<char>, keys: Set<Seq<char>>) -> bool {
    exists|k: Seq<char>| keys.contains(k) && contains(line, k)
}

/// The lines that name none of `keys`, in order.
pub open spec fn kept(ls: Seq<Seq<char>>, keys: Set<Seq<char>>) -> Seq<Seq<char>>
    decreases ls.len(),
{
    if ls.len() == 0 {
        ls
    } else {
        let r = kept(ls.drop_last(), keys);
        if mentions_any(ls.last(), keys) {
            r
        } else {
            r.push(ls.last())
        }
    }
}

/// The store that cleaning leaves: the kept lines, each ended by a newline
/// (a lone newline when none is kept).
pub open spec fn kept_text(keys: Set<Seq<char>>, store: Seq<char>) -> Seq<char> {
    join_lines(kept(lines(store), keys)) + seq!['\n']
}

/// How many lines of `store` cleaning removes.
pub open spec fn removed_count(keys: Set<Seq<char>>, store: Seq<char>) -> int {
    lines(store).len() - kept(lines(store), keys).len()
}

/// The result of cleaning a store.
pub struct Cleaned {
    /// The new store.
    pub kept: String,
    /// How many lines were removed.
    pub removed: usize,
}

/// The keys that `template` declares, in order of appearance.
#[verifier::spinoff_prover]
pub fn template_keys(template: &str) -> (r: Vec<String>)
    ensures
        string_set(r@) == declared_keys(template@),
        forall|i: int| 0 <= i < r@.len() ==> (#[trigger] r@[i])@.len() >= 2,
{
    let mut out: Vec<String> = Vec::new();
    match captures(USER_PREF_PATTERN, template) {
        Ok(caps) => {
            let ghost c = crate::pattern::opt_views(caps@);
            let mut i: usize = 0;
            while i < caps.len()
                invariant
                    i <= caps@.len(),
                    c == crate::pattern::opt_views(caps@),
                    forall|j: int| 0 <= j < out@.len() ==> (#[trigger] out@[j])@.len() >= 2,
                    forall|j: int|
                        0 <= j < caps@.len() && #[trigger] caps@[j] is Some ==> caps@[j]->0@.len()
                            >= 2,
                    forall|k: Seq<char>|
                        string_set(out@).contains(k) <==> (exists|j: int|
                            0 <= j < i && c[j] == Some(k)),
                decreases caps.len() - i,
            {
                let ghost before = out@;
                assert(c[i as int] == match caps@[i as int] {
                    Some(s) => Some(s@),
                    None => None,
                });
                if let Some(k) = &caps[i] {
                    out.push(k.clone());
                    assert(c[i as int] == Some(k@));
                    assert forall|x: Seq<char>|
                        string_set(out@).contains(x) <==> string_set(before).contains(x) || x
                            == k@ by {
                        if string_set(before).contains(x) {
                            let j = choose|j: int| 0 <= j < before.len() && before[j]@ == x;
                            assert(out@[j] == before[j]);
                        }
                        if x == k@ {
                            assert(out@[before.len() as int]@ == x);
                        }
                        if string_set(out@).contains(x) && x != k@ {
                            let j = choose|j: int| 0 <= j < out@.len() && out@[j]@ == x;
                            assert(j < before.len());
                            assert(before[j]@ == x);
                        }
                    }
                }
                assert forall|k: Seq<char>|
                    string_set(out@).contains(k) <==> (exists|j: int|
                        0 <= j < i + 1 && c[j] == Some(k)) by {
                    if (exists|j: int| 0 <= j < i + 1 && c[j] == Some(k)) {
                        let j = choose|j: int| 0 <= j < i + 1 && c[j] == Some(k);
                        if j < i {
                            assert(string_set(before).contains(k));
                        } else {
                            assert(j == i);
                        }
                    }
                    if string_set(out@).contains(k) {
                        if string_set(before).contains(k) {
                            let j = choose|j: int| 0 <= j < i && c[j] == Some(k);
                            assert(0 <= j < i + 1 && c[j] == Some(k));
                        } else {
                            assert(c[i as int] == Some(k));
                        }
                    }
                }
                i += 1;
            }
            assert(string_set(out@) =~= declared_keys(template@));
        },
        Err(_) => {
            assert(string_set(out@) =~= declared_keys(template@));
        },
    }
    out
}

/// The characters of each string.
fn chars_each(keys: &Vec<String>) -> (r: Vec<Vec<char>>)
    ensures
        r@.len() == keys@.len(),
        forall|i: int| 0 <= i < keys@.len() ==> r@[i]@ == keys@[i]@,
{
    let mut r: Vec<Vec<char>> = Vec::new();
    let mut i: usize = 0;
    while i < keys.len()
        invariant
            i <= keys@.len(),
            r@.len() == i,
            forall|j: int| 0 <= j < i ==> r@[j]@ == keys@[j]@,
        decreases keys.len() - i,
    {
        r.push(chars_of(keys[i].as_str()));
        i += 1;
    }
    r
}

/// Whether `line` contains one of `keys`.
fn mentions_exec(line: &[char], keys: &Vec<Vec<char>>, ghost_keys: Ghost<Seq<String>>) -> (r: bool)
    requires
        keys@.len() == ghost_keys@.len(),
        forall|i: int| 0 <= i < keys@.len() ==> keys@[i]@ == ghost_keys@[i]@,
    ensures
        r == mentions_any(line@, string_set(ghost_keys@)),
{
    let mut i: usize = 0;
    while i < keys.len()
        invariant
            i <= keys@.len(),
            keys@.len() == ghost_keys@.len(),
            forall|j: int| 0 <= j < keys@.len() ==> keys@[j]@ == ghost_keys@[j]@,
            forall|j: int| 0 <= j < i ==> !contains(line@, ghost_keys@[j]@),
        decreases keys.len() - i,
    {
        if contains_exec(line, keys[i].as_slice()) {
            assert(string_set(ghost_keys@).contains(ghost_keys@[i as int]@));
            return true;
        }
        i += 1;
    }
    assert forall|k: Seq<char>| !(string_set(ghost_keys@).contains(k) && contains(line@, k)) by {
        if string_set(ghost_keys@).contains(k) {
            let j = choose|j: int| 0 <= j < ghost_keys@.len() && ghost_keys@[j]@ == k;
        }
    }
    false
}

/// Cleans `store` against the keys `keys`: drops each line that contains
/// one of them, keeps the others in order.
pub fn clean_with_keys(keys: &Vec<String>, store: &str) -> (r: Cleaned)
    ensures
        r.kept@ == kept_text(string_set(keys@), store@),
        r.removed == removed_count(string_set(keys@), store@),
{
    let kc = chars_each(keys);
    let ls = split_lines(&chars_of(store));
    let ghost lv = views(ls@);
    let ghost ks = string_set(keys@);
    let mut out: Vec<char> = Vec::new();
    let mut removed: usize = 0;
    let mut n_kept: usize = 0;
    let mut i: usize = 0;
    while i < ls.len()
        invariant
            i <= ls@.len(),
            lv == views(ls@),
            lv == lines(store@),
            ks == string_set(keys@),
            kc@.len() == keys@.len(),
            forall|j: int| 0 <= j < kc@.len() ==> kc@[j]@ == keys@[j]@,
            out@ == crate::text::terminated(kept(lv.subrange(0, i as int), ks)),
            n_kept == kept(lv.subrange(0, i as int), ks).len(),
            removed + n_kept == i,
        decreases ls.len() - i,
    {
        let ghost pre = lv.subrange(0, i as int);
        assert(lv.subrange(0, i + 1).drop_last() =~= pre);
        assert(lv[i as int] == ls@[i as int]@);
        if mentions_exec(ls[i].as_slice(), &kc, Ghost(keys@)) {
            removed += 1;
        } else {
            push_all(&mut out, ls[i].as_slice());
            out.push('\n');
            n_kept += 1;
            assert(kept(lv.subrange(0, i + 1), ks) == kept(pre, ks).push(lv[i as int]));
            assert(kept(pre, ks).push(lv[i as int]).drop_last() =~= kept(pre, ks));
            assert(out@ =~= crate::text::terminated(kept(lv.subrange(0, i + 1), ks)));
        }
        i += 1;
    }
    assert(lv.subrange(0, ls@.len() as int) =~= lv);
    if n_kept == 0 {
        out.push('\n');
        assert(kept(lv, ks) =~= Seq::<Seq<char>>::empty());
        assert(out@ =~= kept_text(ks, store@));
    } else {
        proof {
            crate::text::lemma_terminated_join(kept(lv, ks));
        }
    }
    Cleaned { kept: string_of(&out), removed }
}

/// Cleans `store` against the keys that `template` declares.
/// Cleaning the result again against the same template removes nothing.
pub fn clean(template: &str, store: &str) -> (r: Cleaned)
    ensures
        r.kept@ == kept_text(declared_keys(template@), store@),
        r.removed == removed_count(declared_keys(template@), store@),
        removed_count(declared_keys(template@), r.kept@) == 0,
{
    let keys = template_keys(template);
    proof {
        if declared_keys(template@).contains(Seq::<char>::empty()) {
            let i = choose|i: int| 0 <= i < keys@.len() && keys@[i]@ == Seq::<char>::empty();
            assert(keys@[i]@.len() >= 2);
        }
        law_clean_idempotent(template@, store@);
    }
    clean_with_keys(&keys, store)
}

/// Every kept line is a line of the input that names no key.
proof fn lemma_kept_from(ls: Seq<Seq<char>>, keys: Set<Seq<char>>)
    ensures
        forall|j: int|
            0 <= j < kept(ls, keys).len() ==> !mentions_any(#[trigger] kept(ls, keys)[j], keys)
                && ls.contains(kept(ls, keys)[j]),
    decreases ls.len(),
{
    if ls.len() > 0 {
        let r = kept(ls.drop_last(), keys);
        lemma_kept_from(ls.drop_last(), keys);
        assert forall|j: int| 0 <= j < kept(ls, keys).len() implies !mentions_any(
            #[trigger] kept(ls, keys)[j],
            keys,
        ) && ls.contains(kept(ls, keys)[j]) by {
            if j < r.len() {
                assert(kept(ls, keys)[j] == r[j]);
                let i = choose|i: int| 0 <= i < ls.drop_last().len() && ls.drop_last()[i] == r[j];
                assert(ls[i] == r[j]);
            } else {
                assert(kept(ls, keys)[j] == ls[ls.len() - 1]);
            }
        }
    }
}

/// Lines that name no key are all kept.
proof fn lemma_kept_all(ls: Seq<Seq<char>>, keys: Set<Seq<char>>)
    requires
        forall|j: int| 0 <= j < ls.len() ==> !mentions_any(#[trigger] ls[j], keys),
    ensures
        kept(ls, keys) == ls,
    decreases ls.len(),
{
    if ls.len() > 0 {
        lemma_kept_all(ls.drop_last(), keys);
        assert(!mentions_any(ls[ls.len() - 1], keys));
        assert(ls.drop_last().push(ls.last()) =~= ls);
    }
}

/// A line that names no key is never dropped.
proof fn lemma_kept_contains(ls: Seq<Seq<char>>, keys: Set<Seq<char>>, l: Seq<char>)
    requires
        ls.contains(l),
        !mentions_any(l, keys),
    ensures
        kept(ls, keys).contains(l),
    decreases ls.len(),
{
    let r = kept(ls.drop_last(), keys);
    if ls.last() == l {
        assert(kept(ls, keys) == r.push(l));
        assert(kept(ls, keys)[r.len() as int] == l);
    } else {
        let i = choose|i: int| 0 <= i < ls.len() && ls[i] == l;
        assert(i < ls.len() - 1);
        assert(ls.drop_last()[i] == l);
        lemma_kept_contains(ls.drop_last(), keys, l);
        let j = choose|j: int| 0 <= j < r.len() && r[j] == l;
        if !mentions_any(ls.last(), keys) {
            assert(kept(ls, keys)[j] == l);
        }
    }
}

/// Cleaning a store that was already cleaned against the same template
/// removes nothing (given that no declared key is empty, as a quoted key
/// never is).
pub proof fn law_clean_idempotent(template: Seq<char>, store: Seq<char>)
    requires
        !declared_keys(template).contains(Seq::<char>::empty()),
    ensures
        removed_count(declared_keys(template), kept_text(declared_keys(template), store)) == 0,
{
    let ks = declared_keys(template);
    let k = kept(lines(store), ks);
    let text = kept_text(ks, store);
    crate::text::lemma_lines_single(store);
    lemma_kept_from(lines(store), ks);
    assert forall|j: int| 0 <= j < k.len() implies crate::text::single_line(#[trigger] k[j]) by {
        let i = choose|i: int| 0 <= i < lines(store).len() && lines(store)[i] == k[j];
        assert(crate::text::single_line(lines(store)[i]));
    }
    crate::text::lemma_lines_of_joined(k);
    let ls2 = lines(text);
    assert forall|j: int| 0 <= j < ls2.len() implies !mentions_any(#[trigger] ls2[j], ks) by {
        if mentions_any(ls2[j], ks) {
            let key = choose|key: Seq<char>| ks.contains(key) && contains(ls2[j], key);
            if k.len() > 0 {
                assert(ls2[j] == strip_cr(k[j]));
                assert(!mentions_any(k[j], ks));
                if k[j].len() > 0 && k[j].last() == '\r' {
                    assert(ls2[j] == k[j].subrange(0, k[j].len() - 1));
                    crate::text::lemma_contains_prefix(k[j], k[j].len() - 1, key);
                } else {
                }
                assert(contains(k[j], key));
            } else {
                assert(ls2[j] == Seq::<char>::empty());
                let i = choose|i: int| crate::text::occurs_at(ls2[j], key, i);
                assert(key.len() == 0);
                assert(key =~= Seq::<char>::empty());
            }
        }
    }
    lemma_kept_all(ls2, ks);
}

/// Cleaning never drops a line that names none of the template's keys.
pub proof fn law_clean_keeps_unkeyed_lines(template: Seq<char>, store: Seq<char>, line: Seq<char>)
    requires
        lines(store).contains(line),
        !mentions_any(line, declared_keys(template)),
    ensures
        kept(lines(store), declared_keys(template)).contains(line),
{
    lemma_kept_contains(lines(store), declared_keys(template), line);
}

} // verus!
