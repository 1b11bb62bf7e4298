//! Hosts: the machines that logs come from.

use vstd::prelude::*;
use vstd::string::StringExecFns;
use crate::text::opt_view;

verus! {

/// Why a host request was turned down.
#[derive(Debug)]
pub enum HostError {
    DatabaseError(String),
    ValidationError(String),
}

/// A `HostError` in contracts.
pub enum HostFailure {
    DatabaseError(Seq<char>),
    ValidationError(Seq<char>),
}

impl View for HostError {
    type V = HostFailure;

    open spec fn view(&self) -> HostFailure {
        match self {
            HostError::DatabaseError(m) => HostFailure::DatabaseError(m@),
            HostError::ValidationError(m) => HostFailure::ValidationError(m@),
        }
    }
}

/// The sentence that describes a failure.
pub open spec fn host_failure_text(e: HostFailure) -> Seq<char> {
    match e {
        HostFailure::DatabaseError(m) => "Database error: "@ + m,
        HostFailure::ValidationError(m) => "Validation error: "@ + m,
    }
}

impl HostError {
    /// The sentence that describes this failure.
    pub fn message(&self) -> (r: String)
        ensures
            r@ == host_failure_text(self@),
    {
        match self {
            HostError::DatabaseError(m) => String::from_str("Database error: ").concat(m.as_str()),
            HostError::ValidationError(m) => String::from_str("Validation error: ").concat(
                m.as_str(),
            ),
        }
    }
}

/// A source machine within an account.
#[derive(Debug)]
pub struct Host {
    pub id: String,
    pub account_id: String,
    pub ip_address: Option<String>,
    pub hostname: Option<String>,
}

/// What is wrong with where a record belongs and the address it states, if
/// anything, given whether the address reads as an IP address: the account
/// must be named, and an address that is stated must read as one.
pub open spec fn address_fault(
    account: Seq<char>,
    address: Option<Seq<char>>,
    address_ok: bool,
) -> Option<HostFailure> {
    if account.len() == 0 {
        Some(HostFailure::ValidationError("Account ID cannot be empty"@))
    } else {
        match address {
            Some(ip) => if address_ok {
                None
            } else {
                Some(HostFailure::ValidationError("Invalid IP address: "@ + ip))
            },
            None => None,
        }
    }
}

/// What is wrong with a request for a new host, if anything, given whether
/// its address reads as an IP address and whether its host name is taken in
/// the account.
pub open spec fn new_host_fault(
    account: Seq<char>,
    address: Option<Seq<char>>,
    hostname: Option<Seq<char>>,
    address_ok: bool,
    taken: bool,
) -> Option<HostFailure> {
    match address_fault(account, address, address_ok) {
        Some(f) => Some(f),
        None => match hostname {
            Some(name) => if name.len() == 0 {
                Some(HostFailure::ValidationError("Account ID and/or hostname cannot be empty"@))
            } else if taken {
                Some(
                    HostFailure::ValidationError(
                        "A host with the hostname '"@ + name + "' already exists."@,
                    ),
                )
            } else {
                None
            },
            None => None,
        },
    }
}

impl Host {
    /// Checks the host, given whether its address reads as an IP address.
    pub fn validate(&self, address_ok: bool) -> (r: Result<(), HostError>)
        ensures
            match r {
                Ok(_) => address_fault(self.account_id@, opt_view(self.ip_address), address_ok)
                    is None,
                Err(e) => address_fault(self.account_id@, opt_view(self.ip_address), address_ok)
                    == Some(e@),
            },
    {
        if self.account_id.as_str().is_empty() {
            return Err(HostError::ValidationError(String::from_str("Account ID cannot be empty")));
        }
        match &self.ip_address {
            Some(ip) => {
                if !address_ok {
                    return Err(
                        HostError::ValidationError(
                            String::from_str("Invalid IP address: ").concat(ip.as_str()),
                        ),
                    );
                }
            },
            None => {},
        }
        Ok(())
    }

    /// Checks a request for a new host, given whether its address reads as
    /// an IP address and whether its host name is taken in the account.
    pub fn check_new(&self, address_ok: bool, taken: bool) -> (r: Result<(), HostError>)
        ensures
            match r {
                Ok(_) => new_host_fault(
                    self.account_id@,
                    opt_view(self.ip_address),
                    opt_view(self.hostname),
                    address_ok,
                    taken,
                ) is None,
                Err(e) => new_host_fault(
                    self.account_id@,
                    opt_view(self.ip_address),
                    opt_view(self.hostname),
                    address_ok,
                    taken,
                ) == Some(e@),
            },
    {
        match self.validate(address_ok) {
            Err(e) => {
                return Err(e);
            },
            Ok(_) => {},
        }
        match &self.hostname {
            Some(name) => {
                if name.as_str().is_empty() {
                    return Err(
                        HostError::ValidationError(
                            String::from_str("Account ID and/or hostname cannot be empty"),
                        ),
                    );
                }
                if taken {
                    let mut text = String::from_str("A host with the hostname '");
                    text.append(name.as_str());
                    text.append("' already exists.");
                    return Err(HostError::ValidationError(text));
                }
            },
            None => {},
        }
        Ok(())
    }
}

} // verus!
