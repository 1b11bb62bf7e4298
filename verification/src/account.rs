//! Accounts: what a name, a password and a role must look like.

use vstd::prelude::*;
use vstd::string::StringExecFns;
use vstd::utf8::encode_utf8;
use crate::pattern::{capture, regex_group};
use crate::text::{ascii_digit, is_digit, is_lowercase, is_uppercase, lowercase, str_eq, to_chars, uppercase};

verus! {

/// Why an account request was turned down.
#[derive(Debug)]
pub enum AccountError {
    InvalidRole,
    DatabaseError(String),
    PasswordHashError(String),
    ExpectedField(String),
    SessionError(String),
    ValidationError(String),
}

/// An `AccountError` in contracts.
pub enum AccountFailure {
    InvalidRole,
    DatabaseError(Seq<char>),
    PasswordHashError(Seq<char>),
    ExpectedField(Seq<char>),
    SessionError(Seq<char>),
    ValidationError(Seq<char>),
}

impl View for AccountError {
    type V = AccountFailure;

    open spec fn view(&self) -> AccountFailure {
        match self {
            AccountError::InvalidRole => AccountFailure::InvalidRole,
            AccountError::DatabaseError(m) => AccountFailure::DatabaseError(m@),
            AccountError::PasswordHashError(m) => AccountFailure::PasswordHashError(m@),
            AccountError::ExpectedField(m) => AccountFailure::ExpectedField(m@),
            AccountError::SessionError(m) => AccountFailure::SessionError(m@),
            AccountError::ValidationError(m) => AccountFailure::ValidationError(m@),
        }
    }
}

/// The sentence that describes a failure.
pub open spec fn account_failure_text(e: AccountFailure) -> Seq<char> {
    match e {
        AccountFailure::InvalidRole => "Invalid role provided"@,
        AccountFailure::DatabaseError(m) => "Database error: "@ + m,
        AccountFailure::PasswordHashError(m) => "Password hash error: "@ + m,
        AccountFailure::ExpectedField(m) => "Missing required field: "@ + m,
        AccountFailure::SessionError(m) => "Session Error: "@ + m,
        AccountFailure::ValidationError(m) => "Validation Error: "@ + m,
    }
}

impl AccountError {
    /// The sentence that describes this failure.
    pub fn message(&self) -> (r: String)
        ensures
            r@ == account_failure_text(self@),
    {
        match self {
            AccountError::InvalidRole => String::from_str("Invalid role provided"),
            AccountError::DatabaseError(m) => String::from_str("Database error: ").concat(
                m.as_str(),
            ),
            AccountError::PasswordHashError(m) => String::from_str("Password hash error: ").concat(
                m.as_str(),
            ),
            AccountError::ExpectedField(m) => String::from_str("Missing required field: ").concat(
                m.as_str(),
            ),
            AccountError::SessionError(m) => String::from_str("Session Error: ").concat(m.as_str()),
            AccountError::ValidationError(m) => String::from_str("Validation Error: ").concat(
                m.as_str(),
            ),
        }
    }
}

/// Whether `argon2` finds that a password matches a stored password hash:
/// the hash parses as a PHC string, and hashing the password with the salt
/// and parameters that the hash states gives the same output.
pub uninterp spec fn argon2_verifies(stored: Seq<char>, password: Seq<char>) -> bool;

/// Calls `SaltString::generate` with the operating system's random numbers
/// and `Argon2::hash_password` with the default parameters. The salt is
/// random, so the hash is not named; what is claimed of every hash is what
/// the crate's usage documentation shows and `verify_password` computes: the
/// password that was hashed matches the hash. An error comes back as its
/// message.
#[verifier::external_body]
fn argon2_hash(password: &str) -> (r: Result<String, String>)
    ensures
        r matches Ok(hash) ==> argon2_verifies(hash@, password@),
{
    let salt = argon2::password_hash::SaltString::generate(
        &mut argon2::password_hash::rand_core::OsRng,
    );
    let hasher = argon2::Argon2::default();
    match argon2::PasswordHasher::hash_password(&hasher, password.as_bytes(), &salt) {
        Ok(hash) => Ok(hash.to_string()),
        Err(e) => Err(e.to_string()),
    }
}

/// Calls `PasswordHash::new` and `Argon2::verify_password`, and tells
/// whether both succeeded. The contract names the outcome and claims no more.
#[verifier::external_body]
fn argon2_verify(stored: &str, password: &str) -> (r: bool)
    ensures
        r == argon2_verifies(stored@, password@),
{
    match argon2::PasswordHash::new(stored) {
        Ok(parsed) => argon2::PasswordVerifier::verify_password(
            &argon2::Argon2::default(),
            password.as_bytes(),
            &parsed,
        ).is_ok(),
        Err(_) => false,
    }
}

/// A user of the system.
#[derive(Debug)]
pub struct Account {
    pub id: String,
    pub name: String,
    pub password: String,
    pub role: String,
}

/// The pattern that an account name must match from end to end.
pub const NAME_PATTERN: &'static str = "^[a-zA-Z0-9_-]+$";

/// The roles there are.
pub open spec fn valid_role(role: Seq<char>) -> bool {
    role == "Admin"@ || role == "Analyst"@
}

/// What is wrong with a name, if anything, given whether it matches the
/// pattern for names: it must take 3 to 50 bytes and match.
pub open spec fn name_fault_given(name: Seq<char>, matches: bool) -> Option<AccountFailure> {
    if encode_utf8(name).len() < 3 || encode_utf8(name).len() > 50 {
        Some(AccountFailure::ValidationError("Name must be between 3 and 50 characters"@))
    } else if !matches {
        Some(
            AccountFailure::ValidationError(
                "Name can only contain alphanumeric characters, underscores, and hyphens"@,
            ),
        )
    } else {
        None
    }
}

/// What is wrong with a name, if anything.
pub open spec fn name_fault(name: Seq<char>) -> Option<AccountFailure> {
    name_fault_given(name, regex_group(NAME_PATTERN@, name, 0) is Some)
}

/// Some character of the text is an upper-case letter.
pub open spec fn has_uppercase(s: Seq<char>) -> bool {
    exists|i: int| 0 <= i < s.len() && uppercase(#[trigger] s[i])
}

/// Some character of the text is a lower-case letter.
pub open spec fn has_lowercase(s: Seq<char>) -> bool {
    exists|i: int| 0 <= i < s.len() && lowercase(#[trigger] s[i])
}

/// Some character of the text is a digit.
pub open spec fn has_digit(s: Seq<char>) -> bool {
    exists|i: int| 0 <= i < s.len() && ascii_digit(#[trigger] s[i])
}

/// What is wrong with a password, if anything: it must take at least 15
/// bytes and hold an upper-case letter, a lower-case letter and a digit.
pub open spec fn password_fault(password: Seq<char>) -> Option<AccountFailure> {
    if encode_utf8(password).len() < 15 {
        Some(AccountFailure::ValidationError("Password must be at least 15 characters long"@))
    } else if !has_uppercase(password) {
        Some(
            AccountFailure::ValidationError(
                "Password must contain at least one uppercase letter"@,
            ),
        )
    } else if !has_lowercase(password) {
        Some(
            AccountFailure::ValidationError(
                "Password must contain at least one lowercase letter"@,
            ),
        )
    } else if !has_digit(password) {
        Some(AccountFailure::ValidationError("Password must contain at least one number"@))
    } else {
        None
    }
}

/// What is wrong with a request for a new account, if anything, given
/// whether the name matches the pattern for names and whether it is taken.
pub open spec fn new_account_fault(
    name: Seq<char>,
    password: Seq<char>,
    role: Seq<char>,
    matches: bool,
    taken: bool,
) -> Option<AccountFailure> {
    match name_fault_given(name, matches) {
        Some(f) => Some(f),
        None => match password_fault(password) {
            Some(f) => Some(f),
            None => if !valid_role(role) {
                Some(AccountFailure::InvalidRole)
            } else if taken {
                Some(
                    AccountFailure::ValidationError(
                        "Account name '"@ + name + "' already exists."@,
                    ),
                )
            } else {
                None
            },
        },
    }
}

fn any_uppercase(s: &Vec<char>) -> (r: bool)
    ensures
        r == has_uppercase(s@),
{
    let mut i: usize = 0;
    while i < s.len()
        invariant
            i <= s.len(),
            forall|k: int| 0 <= k < i ==> !uppercase(#[trigger] s@[k]),
        decreases s.len() - i,
    {
        if is_uppercase(s[i]) {
            return true;
        }
        i += 1;
    }
    false
}

fn any_lowercase(s: &Vec<char>) -> (r: bool)
    ensures
        r == has_lowercase(s@),
{
    let mut i: usize = 0;
    while i < s.len()
        invariant
            i <= s.len(),
            forall|k: int| 0 <= k < i ==> !lowercase(#[trigger] s@[k]),
        decreases s.len() - i,
    {
        if is_lowercase(s[i]) {
            return true;
        }
        i += 1;
    }
    false
}

fn any_digit(s: &Vec<char>) -> (r: bool)
    ensures
        r == has_digit(s@),
{
    let mut i: usize = 0;
    while i < s.len()
        invariant
            i <= s.len(),
            forall|k: int| 0 <= k < i ==> !ascii_digit(#[trigger] s@[k]),
        decreases s.len() - i,
    {
        if is_digit(s[i]) {
            return true;
        }
        i += 1;
    }
    false
}

/// What a login gives, given the account of that name, if there is one, and
/// whether the password matches its stored hash: a refusal where the name
/// or the password could never be one, else the account where there is one
/// and the password matches.
pub open spec fn login_given(
    name: Seq<char>,
    password: Seq<char>,
    name_matches: bool,
    found: bool,
    password_ok: bool,
) -> Result<bool, AccountFailure> {
    match name_fault_given(name, name_matches) {
        Some(f) => Err(f),
        None => match password_fault(password) {
            Some(f) => Err(f),
            None => Ok(found && password_ok),
        },
    }
}

impl Account {
    /// Hashes a password with a fresh salt, as a PHC string that the
    /// password matches. A failure of the hasher comes back as a
    /// password-hash failure.
    pub fn hash_password(password: &str) -> (r: Result<String, AccountError>)
        ensures
            match r {
                Ok(hash) => argon2_verifies(hash@, password@),
                Err(e) => e is PasswordHashError,
            },
    {
        match argon2_hash(password) {
            Ok(hash) => Ok(hash),
            Err(m) => Err(AccountError::PasswordHashError(m)),
        }
    }

    /// Whether a password matches the stored hash of the account.
    pub fn verify_password(&self, password: &String) -> (r: bool)
        ensures
            r == argon2_verifies(self.password@, password@),
    {
        argon2_verify(self.password.as_str(), password.as_str())
    }

    /// Decides a login, given whether the name matches the pattern for
    /// names, the account of that name, if there is one, and whether the
    /// password matches its stored hash.
    pub fn login_given(
        name: &str,
        password: &str,
        name_matches: bool,
        found: Option<Account>,
        password_ok: bool,
    ) -> (r: Result<Option<Account>, AccountError>)
        ensures
            match r {
                Ok(account) => login_given(
                    name@,
                    password@,
                    name_matches,
                    found is Some,
                    password_ok,
                ) == Ok::<bool, AccountFailure>(account is Some) && (account is Some ==> account
                    == found),
                Err(e) => login_given(name@, password@, name_matches, found is Some, password_ok)
                    == Err::<bool, AccountFailure>(e@),
            },
    {
        match Self::validate_name_given(name, name_matches) {
            Err(e) => {
                return Err(e);
            },
            Ok(_) => {},
        }
        match Self::validate_password(password) {
            Err(e) => {
                return Err(e);
            },
            Ok(_) => {},
        }
        match found {
            Some(account) => if password_ok {
                Ok(Some(account))
            } else {
                Ok(None)
            },
            None => Ok(None),
        }
    }

    /// Decides a login for the account of the given name, if there is one:
    /// the name and the password must be such as could be one, and the
    /// password must match the stored hash.
    pub fn verify_login(name: &String, password: &String, found: Option<Account>) -> (r: Result<
        Option<Account>,
        AccountError,
    >)
        ensures
            match r {
                Ok(account) => login_given(
                    name@,
                    password@,
                    regex_group(NAME_PATTERN@, name@, 0) is Some,
                    found is Some,
                    found is Some && argon2_verifies(found->0.password@, password@),
                ) == Ok::<bool, AccountFailure>(account is Some) && (account is Some ==> account
                    == found),
                Err(e) => login_given(
                    name@,
                    password@,
                    regex_group(NAME_PATTERN@, name@, 0) is Some,
                    found is Some,
                    found is Some && argon2_verifies(found->0.password@, password@),
                ) == Err::<bool, AccountFailure>(e@),
            },
    {
        let name_matches = capture(NAME_PATTERN, name.as_str(), 0).is_some();
        let password_ok = match &found {
            Some(account) => account.verify_password(password),
            None => false,
        };
        Self::login_given(name.as_str(), password.as_str(), name_matches, found, password_ok)
    }

    /// Whether a role is one of those there are.
    pub fn is_valid_role(role: &str) -> (r: bool)
        ensures
            r == valid_role(role@),
    {
        str_eq(role, "Admin") || str_eq(role, "Analyst")
    }

    /// Checks a name, given whether it matches the pattern for names.
    pub fn validate_name_given(name: &str, matches: bool) -> (r: Result<(), AccountError>)
        ensures
            match r {
                Ok(_) => name_fault_given(name@, matches) is None,
                Err(e) => name_fault_given(name@, matches) == Some(e@),
            },
    {
        let size = name.as_bytes().len();
        if size < 3 || size > 50 {
            return Err(
                AccountError::ValidationError(
                    String::from_str("Name must be between 3 and 50 characters"),
                ),
            );
        }
        if !matches {
            return Err(
                AccountError::ValidationError(
                    String::from_str(
                        "Name can only contain alphanumeric characters, underscores, and hyphens",
                    ),
                ),
            );
        }
        Ok(())
    }

    /// Checks that a name takes 3 to 50 bytes and is made of ASCII letters,
    /// digits, underscores and hyphens, as the pattern for names says.
    pub fn validate_name(name: &str) -> (r: Result<(), AccountError>)
        ensures
            match r {
                Ok(_) => name_fault(name@) is None,
                Err(e) => name_fault(name@) == Some(e@),
            },
    {
        let matches = capture(NAME_PATTERN, name, 0).is_some();
        Self::validate_name_given(name, matches)
    }

    /// Checks that a password takes at least 15 bytes and holds an
    /// upper-case letter, a lower-case letter and a digit.
    pub fn validate_password(password: &str) -> (r: Result<(), AccountError>)
        ensures
            match r {
                Ok(_) => password_fault(password@) is None,
                Err(e) => password_fault(password@) == Some(e@),
            },
    {
        if password.as_bytes().len() < 15 {
            return Err(
                AccountError::ValidationError(
                    String::from_str("Password must be at least 15 characters long"),
                ),
            );
        }
        let chars = to_chars(password);
        if !any_uppercase(&chars) {
            return Err(
                AccountError::ValidationError(
                    String::from_str("Password must contain at least one uppercase letter"),
                ),
            );
        }
        if !any_lowercase(&chars) {
            return Err(
                AccountError::ValidationError(
                    String::from_str("Password must contain at least one lowercase letter"),
                ),
            );
        }
        if !any_digit(&chars) {
            return Err(
                AccountError::ValidationError(
                    String::from_str("Password must contain at least one number"),
                ),
            );
        }
        Ok(())
    }

    /// Checks a request for a new account, given whether the name matches
    /// the pattern for names and whether the name is already taken.
    pub fn check_new_given(name: &str, password: &str, role: &str, matches: bool, taken: bool) -> (r:
        Result<(), AccountError>)
        ensures
            match r {
                Ok(_) => new_account_fault(name@, password@, role@, matches, taken) is None,
                Err(e) => new_account_fault(name@, password@, role@, matches, taken) == Some(e@),
            },
    {
        match Self::validate_name_given(name, matches) {
            Err(e) => {
                return Err(e);
            },
            Ok(_) => {},
        }
        match Self::validate_password(password) {
            Err(e) => {
                return Err(e);
            },
            Ok(_) => {},
        }
        if !Self::is_valid_role(role) {
            return Err(AccountError::InvalidRole);
        }
        if taken {
            let mut text = String::from_str("Account name '");
            text.append(name);
            text.append("' already exists.");
            return Err(AccountError::ValidationError(text));
        }
        Ok(())
    }

    /// Checks a request for a new account, given whether the name is
    /// already taken.
    pub fn check_new(name: &str, password: &str, role: &str, taken: bool) -> (r: Result<
        (),
        AccountError,
    >)
        ensures
            match r {
                Ok(_) => new_account_fault(
                    name@,
                    password@,
                    role@,
                    regex_group(NAME_PATTERN@, name@, 0) is Some,
                    taken,
                ) is None,
                Err(e) => new_account_fault(
                    name@,
                    password@,
                    role@,
                    regex_group(NAME_PATTERN@, name@, 0) is Some,
                    taken,
                ) == Some(e@),
            },
    {
        let matches = capture(NAME_PATTERN, name, 0).is_some();
        Self::check_new_given(name, password, role, matches, taken)
    }
}

} // verus!
