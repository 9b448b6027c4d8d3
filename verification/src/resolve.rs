//! The target resolver: joins the normalized base URL and one candidate
//! into the request URL, avoiding a doubled slash.

use vstd::prelude::*;
use vstd::string::StrSliceExecFns;
use vstd::string::StringExecFns;
use crate::model::Candidate;
use crate::model::Target;

verus! {

/// The request URL for `base` and `cand`: when the candidate already
/// starts with `'/'` it is appended directly, otherwise a single `'/'`
/// separates the two.  Characters pass through unchanged; no re-encoding
/// is performed.
pub open spec fn spec_resolve(base: Seq<char>, cand: Seq<char>) -> Seq<char> {
    if cand.len() > 0 && cand[0] == '/' {
        base + cand
    } else {
        base + seq!['/'] + cand
    }
}

/// Joins the target and the candidate into the request URL.  Pure: no
/// network or I/O side effects, and neither argument is changed.
pub fn resolve(target: &Target, candidate: &Candidate) -> (url: String)
    ensures
        url@ == spec_resolve(target@, candidate@),
{
    let cand = candidate.as_str();
    let base = String::from_str(target.as_str());
    if cand.unicode_len() > 0 && cand.get_char(0) == '/' {
        base.concat(cand)
    } else {
        proof {
            reveal_strlit("/");
            assert("/"@ =~= seq!['/']);
        }
        let with_sep = base.concat("/");
        with_sep.concat(cand)
    }
}

/// Resolution is idempotent: any two values that satisfy the resolver's
/// contract for the same target and candidate are the same request URL,
/// so resolving a pair twice yields identical results.
pub proof fn lemma_resolve_deterministic(
    base: Seq<char>,
    cand: Seq<char>,
    url1: Seq<char>,
    url2: Seq<char>,
)
    requires
        url1 == spec_resolve(base, cand),
        url2 == spec_resolve(base, cand),
    ensures
        url1 == url2,
{
}

} // verus!
