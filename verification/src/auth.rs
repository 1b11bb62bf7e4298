//! Sessions kept by the server: whose they are, from which program they
//! were opened, and when they run out. Time is counted in seconds, and
//! whoever calls says what time it is.

use vstd::prelude::*;

verus! {

/// How long a session lasts without activity, in minutes.
pub const SESSION_DURATION_MINUTES: u64 = 20;

/// What is kept of a session.
#[derive(Debug)]
pub struct SessionData {
    pub account_id: String,
    pub user_agent: String,
    pub expires: u64,
}

/// The account that a request was made for.
#[derive(Debug)]
pub struct AuthSession {
    pub account_id: String,
}

/// When a session that is used at the given time runs out: twenty minutes
/// later, or as late as can be counted.
pub open spec fn expiry(now: int) -> int {
    if now + SESSION_DURATION_MINUTES * 60 > u64::MAX {
        u64::MAX as int
    } else {
        now + SESSION_DURATION_MINUTES * 60
    }
}

fn expiry_of(now: u64) -> (r: u64)
    ensures
        r == expiry(now as int),
{
    if now > u64::MAX - SESSION_DURATION_MINUTES * 60 {
        u64::MAX
    } else {
        now + SESSION_DURATION_MINUTES * 60
    }
}

impl SessionData {
    /// The session of an account that logs in at the given time.
    pub fn create_session(account_id: String, user_agent: String, now: u64) -> (s: SessionData)
        ensures
            s.account_id@ == account_id@,
            s.user_agent@ == user_agent@,
            s.expires == expiry(now as int),
    {
        SessionData { account_id, user_agent, expires: expiry_of(now) }
    }

    /// Checks the session at the given time. A session that has not run out
    /// gives the account it belongs to and runs on for twenty minutes from
    /// now; one that has run out gives nothing and stays as it is.
    pub fn verify_session(&mut self, now: u64) -> (r: Option<AuthSession>)
        ensures
            final(self).account_id@ == old(self).account_id@,
            final(self).user_agent@ == old(self).user_agent@,
            match r {
                Some(auth) => old(self).expires > now && auth.account_id@ == old(self).account_id@
                    && final(self).expires == expiry(now as int),
                None => old(self).expires <= now && final(self).expires == old(self).expires,
            },
    {
        if self.expires > now {
            self.expires = expiry_of(now);
            Some(AuthSession { account_id: self.account_id.clone() })
        } else {
            None
        }
    }
}

} // verus!
