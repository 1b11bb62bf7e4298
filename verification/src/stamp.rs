//! Identifiers and the clock: what each call hands back differs from call to
//! call, so nothing is claimed of it.

use vstd::prelude::*;

verus! {

/// Calls `Uuid::new_v4` and writes the identifier in its hyphenated form.
/// The identifier is random: nothing is claimed of it.
#[verifier::external_body]
pub(crate) fn fresh_id() -> String {
    uuid::Uuid::new_v4().to_string()
}

/// Calls `Utc::now` and `DateTime::to_rfc3339`. The text depends on the
/// moment of the call: nothing is claimed of it.
#[verifier::external_body]
pub(crate) fn now_rfc3339() -> String {
    chrono::Utc::now().to_rfc3339()
}

} // verus!
