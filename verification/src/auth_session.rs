//! The session check that stands before a request. Time is counted in
//! seconds, and whoever calls says what time it is.

use vstd::prelude::*;
use crate::text::opt_view;

verus! {

/// How long a session lasts without activity, in seconds.
pub const SESSION_SECONDS: u64 = 1200;

/// The account that a request was made for.
#[derive(Debug)]
pub struct AuthSession {
    pub account_id: String,
}

/// Why a request was not let through.
#[derive(Clone, Copy, Debug, PartialEq, Eq, Structural)]
pub enum SessionRefusal {
    /// The session names no account, or does not say when it was last used.
    Unauthorized,
    /// The request does not come from the program that logged in.
    UserAgentMismatch,
    /// The session was last used more than twenty minutes ago.
    SessionTimeout,
}

/// What the session check makes of a request: the account of the session,
/// or the reason for turning the request away. The session must name an
/// account, the request must come from the program that the session
/// remembers, and the session must have been used no more than twenty
/// minutes ago; a last use that lies in the future counts as now.
pub open spec fn checked_session(
    account: Option<Seq<char>>,
    stored_agent: Option<Seq<char>>,
    request_agent: Seq<char>,
    last_activity: Option<int>,
    now: int,
) -> Result<Seq<char>, SessionRefusal> {
    match account {
        None => Err(SessionRefusal::Unauthorized),
        Some(id) => if stored_agent != Some(request_agent) {
            Err(SessionRefusal::UserAgentMismatch)
        } else {
            match last_activity {
                None => Err(SessionRefusal::Unauthorized),
                Some(t) => if now - t > SESSION_SECONDS {
                    Err(SessionRefusal::SessionTimeout)
                } else {
                    Ok(id)
                },
            }
        },
    }
}

/// Checks a request against what its session remembers, at the given time.
pub fn verify_session(
    account_id: Option<String>,
    stored_agent: Option<String>,
    request_agent: &str,
    last_activity: Option<u64>,
    now: u64,
) -> (r: Result<AuthSession, SessionRefusal>)
    ensures
        match r {
            Ok(s) => checked_session(
                opt_view(account_id),
                opt_view(stored_agent),
                request_agent@,
                match last_activity {
                    Some(t) => Some(t as int),
                    None => None,
                },
                now as int,
            ) == Ok::<Seq<char>, SessionRefusal>(s.account_id@),
            Err(e) => checked_session(
                opt_view(account_id),
                opt_view(stored_agent),
                request_agent@,
                match last_activity {
                    Some(t) => Some(t as int),
                    None => None,
                },
                now as int,
            ) == Err::<Seq<char>, SessionRefusal>(e),
        },
{
    let id = match account_id {
        Some(id) => id,
        None => {
            return Err(SessionRefusal::Unauthorized);
        },
    };
    match &stored_agent {
        Some(agent) => {
            if !crate::text::str_eq(agent.as_str(), request_agent) {
                return Err(SessionRefusal::UserAgentMismatch);
            }
        },
        None => {
            return Err(SessionRefusal::UserAgentMismatch);
        },
    }
    match last_activity {
        Some(t) => {
            if now > t && now - t > SESSION_SECONDS {
                return Err(SessionRefusal::SessionTimeout);
            }
        },
        None => {
            return Err(SessionRefusal::Unauthorized);
        },
    }
    Ok(AuthSession { account_id: id })
}

} // verus!
