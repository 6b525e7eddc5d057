//! Names of the time-stamped backups taken before a file is replaced.

use vstd::prelude::*;
use chrono::{Datelike, Timelike};
use crate::text::{chars_of, push_all, string_of};

verus! {

/// A local date and time, to the second.
pub struct LocalTime {
    pub year: i32,
    pub month: u32,
    pub day: u32,
    pub hour: u32,
    pub minute: u32,
    pub second: u32,
}

impl LocalTime {
    pub open spec fn wf(&self) -> bool {
        1 <= self.month <= 12 && 1 <= self.day <= 31 && self.hour <= 23 && self.minute <= 59
            && self.second <= 59
    }
}

/// Relies on `chrono::Local::now` and the `Datelike` / `Timelike`
/// accessors, whose documented ranges the clauses give.
#[verifier::external_body]
fn local_now() -> (r: LocalTime)
    ensures
        r.wf(),
{
    let t = chrono::Local::now();
    LocalTime {
        year: t.year(),
        month: t.month(),
        day: t.day(),
        hour: t.hour(),
        minute: t.minute(),
        second: t.second(),
    }
}

pub open spec fn digit_char(d: nat) -> char {
    seq!['0', '1', '2', '3', '4', '5', '6', '7', '8', '9'][d as int]
}

/// The decimal digits of `v`, zero-padded to at least `width`.
pub open spec fn digits(v: nat, width: nat) -> Seq<char>
    decreases width, v,
{
    if width == 0 && v == 0 {
        Seq::<char>::empty()
    } else {
        digits(v / 10, if width > 0 {
            (width - 1) as nat
        } else {
            0
        }) + seq![digit_char(v % 10)]
    }
}

/// A year in four digits, signed where it has more or is negative.
pub open spec fn year_text(y: int) -> Seq<char> {
    if 0 <= y <= 9999 {
        digits(y as nat, 4)
    } else if y < 0 {
        seq!['-'] + digits((-y) as nat, 4)
    } else {
        seq!['+'] + digits(y as nat, 4)
    }
}

/// `YYYY-MM-DD-HH-MM-SS`.
pub open spec fn stamp_text(t: LocalTime) -> Seq<char> {
    year_text(t.year as int) + seq!['-'] + digits(t.month as nat, 2) + seq!['-'] + digits(
        t.day as nat,
        2,
    ) + seq!['-'] + digits(t.hour as nat, 2) + seq!['-'] + digits(t.minute as nat, 2) + seq!['-']
        + digits(t.second as nat, 2)
}

/// `<basename>.backup.<stamp>`.
pub open spec fn backup_name(basename: Seq<char>, stamp: Seq<char>) -> Seq<char> {
    basename + seq!['.', 'b', 'a', 'c', 'k', 'u', 'p', '.'] + stamp
}

fn push_digits(out: &mut Vec<char>, v: u64, width: usize)
    ensures
        final(out)@ == old(out)@ + digits(v as nat, width as nat),
    decreases width, v,
{
    if width == 0 && v == 0 {
        assert(old(out)@ + digits(0, 0) =~= old(out)@);
        return;
    }
    let w = if width > 0 {
        width - 1
    } else {
        0
    };
    push_digits(out, v / 10, w);
    let table: [char; 10] = ['0', '1', '2', '3', '4', '5', '6', '7', '8', '9'];
    let ghost before = out@;
    out.push(table[(v % 10) as usize]);
    assert(table@ =~= seq!['0', '1', '2', '3', '4', '5', '6', '7', '8', '9']);
    assert(out@ =~= old(out)@ + digits(v as nat, width as nat));
}

/// The time stamp of `t`: `YYYY-MM-DD-HH-MM-SS`.
pub fn timestamp(t: &LocalTime) -> (r: String)
    ensures
        r@ == stamp_text(*t),
{
    let mut out: Vec<char> = Vec::new();
    if 0 <= t.year && t.year <= 9999 {
        push_digits(&mut out, t.year as u64, 4);
    } else if t.year < 0 {
        out.push('-');
        push_digits(&mut out, (-(t.year as i64)) as u64, 4);
    } else {
        out.push('+');
        push_digits(&mut out, t.year as u64, 4);
    }
    out.push('-');
    push_digits(&mut out, t.month as u64, 2);
    out.push('-');
    push_digits(&mut out, t.day as u64, 2);
    out.push('-');
    push_digits(&mut out, t.hour as u64, 2);
    out.push('-');
    push_digits(&mut out, t.minute as u64, 2);
    out.push('-');
    push_digits(&mut out, t.second as u64, 2);
    assert(out@ =~= stamp_text(*t));
    string_of(&out)
}

/// The name of the backup of `basename` taken at `stamp`.
pub fn backup_file_name(basename: &str, stamp: &str) -> (r: String)
    ensures
        r@ == backup_name(basename@, stamp@),
{
    let mut out = chars_of(basename);
    let suffix: [char; 8] = ['.', 'b', 'a', 'c', 'k', 'u', 'p', '.'];
    push_all(&mut out, suffix.as_slice());
    let s = chars_of(stamp);
    push_all(&mut out, s.as_slice());
    assert(out@ =~= backup_name(basename@, stamp@));
    string_of(&out)
}

/// The name of a backup of `basename` taken now, in local time.
pub fn backup_file_name_now(basename: &str) -> (r: String)
    ensures
        exists|t: LocalTime| t.wf() && r@ == backup_name(basename@, stamp_text(t)),
{
    let t = local_now();
    let stamp = timestamp(&t);
    backup_file_name(basename, stamp.as_str())
}

} // verus!
