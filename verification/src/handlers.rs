//! What requests carry, and the checks made on it before any work is done.

use vstd::prelude::*;
use vstd::string::StringExecFns;

verus! {

/// The parameters of a query request.
#[derive(Debug)]
pub struct QueryParams {
    pub account_id: String,
    pub query: String,
    pub start_time: Option<String>,
    pub end_time: Option<String>,
}

/// What an agent sends to say that it is at work.
#[derive(Debug)]
pub struct HeartbeatRequest {
    pub api_key: String,
}

impl QueryParams {
    /// A query request must name its account.
    pub fn check(&self) -> (r: Result<(), String>)
        ensures
            match r {
                Ok(_) => self.account_id@.len() > 0,
                Err(m) => self.account_id@.len() == 0 && m@ == "Account ID is required"@,
            },
    {
        if self.account_id.as_str().is_empty() {
            Err(String::from_str("Account ID is required"))
        } else {
            Ok(())
        }
    }
}

} // verus!
