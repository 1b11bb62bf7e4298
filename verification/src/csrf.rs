//! The store of form tokens that guards against forged requests. Time is
//! counted in seconds, and whoever calls says what time it is.

use vstd::prelude::*;
use vstd::string::StringExecFns;
use crate::text::str_eq;

verus! {

/// The token maker of the `csrf` crate.
#[verifier::external_type_specification]
#[verifier::external_body]
pub struct ExChaCha20Poly1305CsrfProtection(csrf::ChaCha20Poly1305CsrfProtection);

/// Draws a key of 32 bytes from `rand::thread_rng` and hands it to
/// `ChaCha20Poly1305CsrfProtection::from_key`. The key is random: nothing
/// is claimed of what is made with it.
#[verifier::external_body]
fn new_protection() -> csrf::ChaCha20Poly1305CsrfProtection {
    let mut key = [0u8; 32];
    rand::RngCore::fill_bytes(&mut rand::thread_rng(), &mut key);
    csrf::ChaCha20Poly1305CsrfProtection::from_key(key)
}

/// The longest time to live, in seconds, that a token is asked for: a day.
pub const TTL_MAX: i64 = 86_400;

/// Calls `CsrfProtection::generate_token_pair` for a new token that is good
/// for `ttl_seconds`, and hands back the token through `b64_string` and the
/// cookie's bytes through the standard Base64 engine. The outside function
/// makes a chrono duration of the seconds and adds it to the current time,
/// and both steps panic out of chrono's range: the time to live is between
/// nothing and a day, which keeps them within it. The pair is random:
/// nothing is claimed of it.
#[verifier::external_body]
fn token_pair(protection: &csrf::ChaCha20Poly1305CsrfProtection, ttl_seconds: i64) -> (r: Option<
    (String, String),
>)
    requires
        0 <= ttl_seconds <= TTL_MAX,
{
    match csrf::CsrfProtection::generate_token_pair(protection, None, ttl_seconds) {
        Ok((token, cookie)) => Some(
            (
                token.b64_string(),
                base64::Engine::encode(&base64::engine::general_purpose::STANDARD, cookie.value()),
            ),
        ),
        Err(_) => None,
    }
}

/// How long a token is good for, in seconds.
pub const MINUTES_20: u64 = 1200;

/// A token as it is handed to a form.
#[derive(Debug)]
pub struct CsrfToken {
    pub token: String,
    pub form_id: String,
}

/// A token as the store keeps it.
pub struct StoredToken {
    pub form_id: String,
    pub cookie: String,
    pub expires: u64,
}

/// A `StoredToken` in contracts.
pub struct TokenRecord {
    pub form_id: Seq<char>,
    pub cookie: Seq<char>,
    pub expires: int,
}

impl View for StoredToken {
    type V = TokenRecord;

    open spec fn view(&self) -> TokenRecord {
        TokenRecord { form_id: self.form_id@, cookie: self.cookie@, expires: self.expires as int }
    }
}

/// The token kept for a form: the last one stored for it.
pub open spec fn token_for(s: Seq<TokenRecord>, form: Seq<char>) -> Option<TokenRecord>
    decreases s.len(),
{
    if s.len() == 0 {
        None
    } else if s.last().form_id == form {
        Some(s.last())
    } else {
        token_for(s.drop_last(), form)
    }
}

/// The tokens without those of the given form.
pub open spec fn without_form(s: Seq<TokenRecord>, form: Seq<char>) -> Seq<TokenRecord>
    decreases s.len(),
{
    if s.len() == 0 {
        Seq::<TokenRecord>::empty()
    } else if s.last().form_id == form {
        without_form(s.drop_last(), form)
    } else {
        without_form(s.drop_last(), form).push(s.last())
    }
}

/// The tokens that are still good after the given time.
pub open spec fn unexpired(s: Seq<TokenRecord>, now: int) -> Seq<TokenRecord>
    decreases s.len(),
{
    if s.len() == 0 {
        Seq::<TokenRecord>::empty()
    } else if s.last().expires > now {
        unexpired(s.drop_last(), now).push(s.last())
    } else {
        unexpired(s.drop_last(), now)
    }
}

/// Whether a cookie is good for a form at the given time: the form has a
/// token, the cookie is that token's, and the token has not run out.
pub open spec fn token_valid(s: Seq<TokenRecord>, cookie: Seq<char>, form: Seq<char>, now: int) -> bool {
    match token_for(s, form) {
        Some(t) => t.cookie == cookie && now <= t.expires,
        None => false,
    }
}

/// Why a request was not let through.
#[derive(Clone, Copy, Debug, PartialEq, Eq, Structural)]
pub enum CsrfRefusal {
    /// The request names no form.
    MissingFormId,
    /// The request carries no token cookie.
    MissingCookie,
    /// The cookie is not the one kept for the form, or has run out.
    InvalidToken,
}

/// The sentence that describes a refusal.
pub open spec fn refusal_text(r: CsrfRefusal) -> Seq<char> {
    match r {
        CsrfRefusal::MissingFormId => "Missing Form ID"@,
        CsrfRefusal::MissingCookie => "Missing CSRF cookie"@,
        CsrfRefusal::InvalidToken => "Invalid CSRF token"@,
    }
}

impl CsrfRefusal {
    /// The sentence that describes this refusal.
    pub fn message(&self) -> (r: String)
        ensures
            r@ == refusal_text(*self),
    {
        match self {
            CsrfRefusal::MissingFormId => String::from_str("Missing Form ID"),
            CsrfRefusal::MissingCookie => String::from_str("Missing CSRF cookie"),
            CsrfRefusal::InvalidToken => String::from_str("Invalid CSRF token"),
        }
    }
}

/// What the check of a request gives: a request must name its form and
/// carry a cookie, and the cookie must be good for the form at that time.
pub open spec fn request_checked(
    s: Seq<TokenRecord>,
    cookie: Option<Seq<char>>,
    form: Option<Seq<char>>,
    now: int,
) -> Result<(), CsrfRefusal> {
    match form {
        None => Err(CsrfRefusal::MissingFormId),
        Some(f) => match cookie {
            None => Err(CsrfRefusal::MissingCookie),
            Some(c) => if token_valid(s, c, f, now) {
                Ok(())
            } else {
                Err(CsrfRefusal::InvalidToken)
            },
        },
    }
}

/// When a token that is made at the given time runs out: twenty minutes
/// later, or as late as can be counted.
pub open spec fn token_expiry(now: int) -> int {
    if now + MINUTES_20 > u64::MAX {
        u64::MAX as int
    } else {
        now + MINUTES_20
    }
}

/// The store of form tokens, with the maker of new ones.
pub struct CsrfMiddleware {
    protection: csrf::ChaCha20Poly1305CsrfProtection,
    tokens: Vec<StoredToken>,
}

impl View for CsrfMiddleware {
    type V = Seq<TokenRecord>;

    closed spec fn view(&self) -> Seq<TokenRecord> {
        Seq::new(self.tokens@.len(), |i: int| self.tokens@[i]@)
    }
}

impl CsrfMiddleware {
    /// A store without tokens, with a token maker under a fresh random key.
    pub fn new() -> (m: CsrfMiddleware)
        ensures
            m@ == Seq::<TokenRecord>::empty(),
    {
        CsrfMiddleware { protection: new_protection(), tokens: Vec::new() }
    }

    /// Makes a new token for a form at the given time, keeps its cookie for
    /// the form, good for twenty minutes, in place of whatever was kept for
    /// it, and hands back the token and the cookie value. Where no token
    /// can be made, nothing changes.
    pub fn generate_token_pair(&mut self, form_id: &str, now: u64) -> (r: Option<
        (CsrfToken, String),
    >)
        ensures
            match r {
                Some(pair) => pair.0.form_id@ == form_id@ && final(self)@ == without_form(
                    old(self)@,
                    form_id@,
                ).push(
                    TokenRecord {
                        form_id: form_id@,
                        cookie: pair.1@,
                        expires: token_expiry(now as int),
                    },
                ),
                None => final(self)@ == old(self)@,
            },
    {
        match token_pair(&self.protection, MINUTES_20 as i64) {
            Some((token, cookie_value)) => {
                self.store_token(String::from_str(form_id), cookie_value.clone(), now);
                Some((CsrfToken { token, form_id: String::from_str(form_id) }, cookie_value))
            },
            None => None,
        }
    }

    /// Checks the form token of a request at the given time: the request
    /// must name its form and carry a cookie, and the cookie must be good
    /// for the form.
    pub fn csrf_validator(&self, cookie: Option<&str>, form_id: Option<&str>, now: u64) -> (r:
        Result<(), CsrfRefusal>)
        ensures
            r == request_checked(
                self@,
                match cookie {
                    Some(c) => Some(c@),
                    None => None,
                },
                match form_id {
                    Some(f) => Some(f@),
                    None => None,
                },
                now as int,
            ),
    {
        let form = match form_id {
            Some(form) => form,
            None => {
                return Err(CsrfRefusal::MissingFormId);
            },
        };
        let cookie = match cookie {
            Some(cookie) => cookie,
            None => {
                return Err(CsrfRefusal::MissingCookie);
            },
        };
        if self.validate_token(cookie, form, now) {
            Ok(())
        } else {
            Err(CsrfRefusal::InvalidToken)
        }
    }

    /// How many tokens are kept.
    pub fn len(&self) -> (n: usize)
        ensures
            n == self@.len(),
    {
        self.tokens.len()
    }

    /// Keeps a cookie for a form, good for twenty minutes from the given
    /// time, in place of whatever was kept for the form. Where the time is
    /// so late that twenty minutes more cannot be counted, the token is
    /// good for as long as can be.
    pub fn store_token(&mut self, form_id: String, cookie: String, now: u64)
        ensures
            final(self)@ == without_form(old(self)@, form_id@).push(
                TokenRecord {
                    form_id: form_id@,
                    cookie: cookie@,
                    expires: token_expiry(now as int),
                },
            ),
    {
        let mut kept: Vec<StoredToken> = Vec::new();
        let mut old_tokens: Vec<StoredToken> = Vec::new();
        std::mem::swap(&mut old_tokens, &mut self.tokens);
        let ghost all = Seq::new(old_tokens@.len(), |i: int| old_tokens@[i]@);
        let mut i: usize = 0;
        while i < old_tokens.len()
            invariant
                i <= old_tokens.len(),
                all == Seq::new(old_tokens@.len(), |k: int| old_tokens@[k]@),
                Seq::new(kept@.len(), |k: int| kept@[k]@) == without_form(
                    all.take(i as int),
                    form_id@,
                ),
            decreases old_tokens.len() - i,
        {
            assert(all.take(i as int + 1).drop_last() == all.take(i as int));
            if !str_eq(old_tokens[i].form_id.as_str(), form_id.as_str()) {
                let copy = StoredToken {
                    form_id: old_tokens[i].form_id.clone(),
                    cookie: old_tokens[i].cookie.clone(),
                    expires: old_tokens[i].expires,
                };
                kept.push(copy);
            }
            i += 1;
        }
        assert(all.take(old_tokens.len() as int) == all);
        let expires = if now > u64::MAX - MINUTES_20 {
            u64::MAX
        } else {
            now + MINUTES_20
        };
        let token = StoredToken { form_id, cookie, expires };
        kept.push(token);
        self.tokens = kept;
    }

    /// Whether a cookie is good for a form at the given time.
    pub fn validate_token(&self, cookie: &str, form_id: &str, now: u64) -> (r: bool)
        ensures
            r == token_valid(self@, cookie@, form_id@, now as int),
    {
        let ghost s = self@;
        let mut i: usize = self.tokens.len();
        assert(s.take(i as int) == s);
        while i > 0
            invariant
                i <= self.tokens.len(),
                s == self@,
                s.len() == self.tokens@.len(),
                token_for(s, form_id@) == token_for(s.take(i as int), form_id@),
            decreases i,
        {
            let ghost upto = s.take(i as int);
            assert(upto.drop_last() == s.take(i - 1));
            i -= 1;
            if str_eq(self.tokens[i].form_id.as_str(), form_id) {
                return str_eq(self.tokens[i].cookie.as_str(), cookie) && now
                    <= self.tokens[i].expires;
            }
        }
        false
    }

    /// Drops the tokens that have run out by the given time.
    pub fn clean_expired_tokens(&mut self, now: u64)
        ensures
            final(self)@ == unexpired(old(self)@, now as int),
    {
        let mut kept: Vec<StoredToken> = Vec::new();
        let mut old_tokens: Vec<StoredToken> = Vec::new();
        std::mem::swap(&mut old_tokens, &mut self.tokens);
        let ghost all = Seq::new(old_tokens@.len(), |i: int| old_tokens@[i]@);
        let mut i: usize = 0;
        while i < old_tokens.len()
            invariant
                i <= old_tokens.len(),
                all == Seq::new(old_tokens@.len(), |k: int| old_tokens@[k]@),
                Seq::new(kept@.len(), |k: int| kept@[k]@) == unexpired(
                    all.take(i as int),
                    now as int,
                ),
            decreases old_tokens.len() - i,
        {
            assert(all.take(i as int + 1).drop_last() == all.take(i as int));
            if old_tokens[i].expires > now {
                let copy = StoredToken {
                    form_id: old_tokens[i].form_id.clone(),
                    cookie: old_tokens[i].cookie.clone(),
                    expires: old_tokens[i].expires,
                };
                kept.push(copy);
            }
            i += 1;
        }
        assert(all.take(old_tokens.len() as int) == all);
        self.tokens = kept;
    }
}

} // verus!
