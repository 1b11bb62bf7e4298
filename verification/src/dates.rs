//! Dates and times, through the `chrono` crate.

use vstd::prelude::*;
use std::fmt::Write;

verus! {

/// Whether `chrono` reads `text` as a calendar date laid out as `format` says.
pub uninterp spec fn date_parses(text: Seq<char>, format: Seq<char>) -> bool;

/// Whether `chrono` reads `text` as an RFC 3339 date and time.
pub uninterp spec fn rfc3339_parses(text: Seq<char>) -> bool;

/// What `chrono` makes of a date and time laid out as `from` says when it is
/// written again as `to` says, or why it could not read or write it.
pub uninterp spec fn reformatted(text: Seq<char>, from: Seq<char>, to: Seq<char>) -> Result<
    Seq<char>,
    Seq<char>,
>;

/// Calls `NaiveDate::parse_from_str` and tells whether it succeeded. The
/// contract names the outcome and claims no more.
#[verifier::external_body]
pub(crate) fn is_date(text: &str, format: &str) -> (r: bool)
    ensures
        r == date_parses(text@, format@),
{
    chrono::NaiveDate::parse_from_str(text, format).is_ok()
}

/// Calls `DateTime::parse_from_rfc3339` and tells whether it succeeded. The
/// contract names the outcome and claims no more.
#[verifier::external_body]
pub(crate) fn is_rfc3339(text: &str) -> (r: bool)
    ensures
        r == rfc3339_parses(text@),
{
    chrono::DateTime::parse_from_rfc3339(text).is_ok()
}

/// Calls `NaiveDateTime::parse_from_str` with the layout `from` and writes
/// the result through `NaiveDateTime::format` with the layout `to`. An error
/// of either step comes back as its message. The contract names the outcome
/// and claims no more.
#[verifier::external_body]
pub(crate) fn reformat(text: &str, from: &str, to: &str) -> (r: Result<String, String>)
    ensures
        match r {
            Ok(s) => reformatted(text@, from@, to@) == Ok::<Seq<char>, Seq<char>>(s@),
            Err(m) => reformatted(text@, from@, to@) == Err::<Seq<char>, Seq<char>>(m@),
        },
{
    match chrono::NaiveDateTime::parse_from_str(text, from) {
        Ok(moment) => {
            let mut out = String::new();
            match write!(out, "{}", moment.format(to)) {
                Ok(_) => Ok(out),
                Err(e) => Err(e.to_string()),
            }
        },
        Err(e) => Err(e.to_string()),
    }
}

} // verus!
