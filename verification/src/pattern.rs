//! Regular expressions, through the `regex` crate.

use vstd::prelude::*;
use crate::text::opt_view;

verus! {

/// What the `regex` crate finds for a pattern in a text: the part of the
/// text that capture group `group` took in the leftmost match, group 0 being
/// the whole match. There is none when the pattern does not compile, when
/// nothing matches, or when the group took no part in the match.
pub uninterp spec fn regex_group(pattern: Seq<char>, text: Seq<char>, group: nat) -> Option<
    Seq<char>,
>;

/// Calls `Regex::new`, `Regex::captures`, `Captures::get` and
/// `Match::as_str`. The contract names the outcome and claims no more.
#[verifier::external_body]
pub(crate) fn capture(pattern: &str, text: &str, group: usize) -> (r: Option<String>)
    ensures
        opt_view(r) == regex_group(pattern@, text@, group as nat),
{
    match regex::Regex::new(pattern) {
        Ok(re) => re.captures(text).and_then(|c| c.get(group)).map(|m| m.as_str().to_string()),
        Err(_) => None,
    }
}

} // verus!
