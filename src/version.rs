//! The version that a document declares in a `* version: <digits>` line.

use vstd::prelude::*;
use vstd::string::StringExecFns;
use crate::pattern::{captures, group_one_captures, VERSION_PATTERN};

verus! {

/// What a document without a version line reports.
pub const UNKNOWN_VERSION: &'static str = "unknown";

/// The digits of the first version line, if the document has one.
pub open spec fn declared_version(doc: Seq<char>) -> Option<Seq<char>> {
    match group_one_captures(VERSION_PATTERN@, doc) {
        Some(c) => if c.len() > 0 {
            c[0]
        } else {
            None
        },
        None => None,
    }
}

pub open spec fn version_of(doc: Seq<char>) -> Seq<char> {
    match declared_version(doc) {
        Some(d) => d,
        None => UNKNOWN_VERSION@,
    }
}

/// The version that `user_js` declares, or `unknown`: `unknown` exactly
/// when no line declares one.
pub fn find_version(user_js: &str) -> (r: String)
    ensures
        r@ == version_of(user_js@),
        (r@ == UNKNOWN_VERSION@) <==> declared_version(user_js@) is None,
{
    proof {
        reveal_strlit("unknown");
    }
    match captures(VERSION_PATTERN, user_js) {
        Ok(mut caps) => {
            if caps.len() > 0 {
                let ghost all = caps@;
                let first = caps.remove(0);
                if let Some(d) = first {
                    assert(all[0] is Some);
                    assert(crate::pattern::opt_views(all)[0] == Some(d@));
                    assert(d@[0] != 'u');
                    assert(UNKNOWN_VERSION@[0] == 'u');
                    return d;
                }
            }
        },
        Err(_) => {},
    }
    String::from_str(UNKNOWN_VERSION)
}

} // verus!
