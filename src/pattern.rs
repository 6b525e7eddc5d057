//! Line patterns matched through the `regex` crate.

use vstd::prelude::*;

verus! {

/// A line that starts with `*`, then `version:`, then the digits.
pub const VERSION_PATTERN: &'static str = "(?m)^\\*\\s*version:\\s*(\\d+)";

/// A `user_pref(` statement at the start of a line; group 1 is its quoted key.
pub const USER_PREF_PATTERN: &'static str = "(?m)^\\s*user_pref\\((\".*?\"),";

/// `s` holds no lower-case ASCII letter.
pub open spec fn no_ascii_lowercase(s: Seq<char>) -> bool {
    forall|k: int| 0 <= k < s.len() ==> !('a' <= #[trigger] s[k] && s[k] <= 'z')
}

#[verifier::external_type_specification]
#[verifier::external_body]
pub struct ExRegexError(regex::Error);

/// For each successive non-overlapping match of `pattern` in `text`, what
/// capture group 1 holds; `None` where the pattern does not compile.
pub uninterp spec fn group_one_captures(pattern: Seq<char>, text: Seq<char>) -> Option<
    Seq<Option<Seq<char>>>,
>;

pub open spec fn opt_views(v: Seq<Option<String>>) -> Seq<Option<Seq<char>>> {
    v.map_values(
        |o: Option<String>|
            match o {
                Some(s) => Some(s@),
                None => None,
            },
    )
}

/// Relies on `regex::Regex::new` and `Regex::captures_iter`: compiles
/// `pattern` and lists, match by match, the text of capture group 1. By
/// the crate's syntax, group `(\d+)` holds one or more decimal digits, and
/// group `(".*?")` starts and ends with a quote.
#[verifier::external_body]
pub(crate) fn captures(pattern: &str, text: &str) -> (r: Result<Vec<Option<String>>, regex::Error>)
    ensures
        match r {
            Ok(v) => group_one_captures(pattern@, text@) == Some(opt_views(v@)),
            Err(_) => group_one_captures(pattern@, text@) is None,
        },
        pattern@ == VERSION_PATTERN@ ==> (r matches Ok(v) ==> forall|i: int|
            0 <= i < v@.len() && #[trigger] v@[i] is Some ==> v@[i]->0@.len() > 0
                && no_ascii_lowercase(v@[i]->0@)),
        pattern@ == USER_PREF_PATTERN@ ==> (r matches Ok(v) ==> forall|i: int|
            0 <= i < v@.len() && #[trigger] v@[i] is Some ==> v@[i]->0@.len() >= 2),
{
    let re = regex::Regex::new(pattern)?;
    Ok(re.captures_iter(text).map(|c| c.get(1).map(|m| m.as_str().to_owned())).collect())
}

} // verus!
