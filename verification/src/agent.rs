//! Agents: the programs that send logs on behalf of a host.

use vstd::prelude::*;
use vstd::string::StringExecFns;
use crate::text::opt_view;

verus! {

/// Why an agent request was turned down.
#[derive(Debug)]
pub enum AgentError {
    DatabaseError(String),
    ValidationError(String),
}

/// An `AgentError` in contracts.
pub enum AgentFailure {
    DatabaseError(Seq<char>),
    ValidationError(Seq<char>),
}

impl View for AgentError {
    type V = AgentFailure;

    open spec fn view(&self) -> AgentFailure {
        match self {
            AgentError::DatabaseError(m) => AgentFailure::DatabaseError(m@),
            AgentError::ValidationError(m) => AgentFailure::ValidationError(m@),
        }
    }
}

/// The sentence that describes a failure.
pub open spec fn agent_failure_text(e: AgentFailure) -> Seq<char> {
    match e {
        AgentFailure::DatabaseError(m) => "Database error: "@ + m,
        AgentFailure::ValidationError(m) => "Validation error: "@ + m,
    }
}

impl AgentError {
    /// The sentence that describes this failure.
    pub fn message(&self) -> (r: String)
        ensures
            r@ == agent_failure_text(self@),
    {
        match self {
            AgentError::DatabaseError(m) => String::from_str("Database error: ").concat(
                m.as_str(),
            ),
            AgentError::ValidationError(m) => String::from_str("Validation error: ").concat(
                m.as_str(),
            ),
        }
    }
}

/// Whether an agent is at work.
#[derive(Clone, Copy, Debug, PartialEq, Eq, Structural)]
pub enum AgentStatus {
    Active,
    Inactive,
    Error,
}

/// The word for a status.
pub open spec fn status_word(s: AgentStatus) -> Seq<char> {
    match s {
        AgentStatus::Active => "Active"@,
        AgentStatus::Inactive => "Inactive"@,
        AgentStatus::Error => "Error"@,
    }
}

impl AgentStatus {
    /// The word for this status.
    pub fn name(&self) -> (r: String)
        ensures
            r@ == status_word(*self),
    {
        match self {
            AgentStatus::Active => String::from_str("Active"),
            AgentStatus::Inactive => String::from_str("Inactive"),
            AgentStatus::Error => String::from_str("Error"),
        }
    }
}

/// An agent of a host. The time it was last seen is in RFC 3339.
#[derive(Debug)]
pub struct Agent {
    pub id: String,
    pub api_key: String,
    pub host_id: String,
    pub account_id: String,
    pub ip_address: Option<String>,
    pub hostname: Option<String>,
    pub status: AgentStatus,
    pub last_seen: Option<String>,
}

/// An `Agent` in contracts.
pub struct AgentModel {
    pub id: Seq<char>,
    pub api_key: Seq<char>,
    pub host_id: Seq<char>,
    pub account_id: Seq<char>,
    pub ip_address: Option<Seq<char>>,
    pub hostname: Option<Seq<char>>,
    pub status: AgentStatus,
    pub last_seen: Option<Seq<char>>,
}

impl View for Agent {
    type V = AgentModel;

    open spec fn view(&self) -> AgentModel {
        AgentModel {
            id: self.id@,
            api_key: self.api_key@,
            host_id: self.host_id@,
            account_id: self.account_id@,
            ip_address: opt_view(self.ip_address),
            hostname: opt_view(self.hostname),
            status: self.status,
            last_seen: opt_view(self.last_seen),
        }
    }
}

/// What is wrong with an agent, if anything, given whether its address
/// reads as an IP address: the account and the host must be named, and an
/// address that is stated must read as one.
pub open spec fn agent_fault(a: AgentModel, address_ok: bool) -> Option<AgentFailure> {
    if a.account_id.len() == 0 {
        Some(AgentFailure::ValidationError("Account ID cannot be empty"@))
    } else if a.host_id.len() == 0 {
        Some(AgentFailure::ValidationError("Host ID cannot be empty"@))
    } else {
        match a.ip_address {
            Some(ip) => if address_ok {
                None
            } else {
                Some(AgentFailure::ValidationError("Invalid IP address: "@ + ip))
            },
            None => None,
        }
    }
}

/// What registering an agent gives, given whether its address reads as an
/// IP address, whether its host already has an agent, and the identifier,
/// the key and the time that were drawn for it: a refusal, or the agent as
/// it is stored, active and seen at that time.
pub open spec fn registered(
    a: AgentModel,
    address_ok: bool,
    taken: bool,
    id: Seq<char>,
    api_key: Seq<char>,
    now: Seq<char>,
) -> Result<AgentModel, AgentFailure> {
    match agent_fault(a, address_ok) {
        Some(f) => Err(f),
        None => if taken {
            Err(
                AgentFailure::ValidationError(
                    "An agent for host '"@ + a.host_id + "' already exists."@,
                ),
            )
        } else {
            Ok(
                AgentModel {
                    id: id,
                    api_key: api_key,
                    status: AgentStatus::Active,
                    last_seen: Some(now),
                    ..a
                },
            )
        },
    }
}

fn clone_opt(o: &Option<String>) -> (r: Option<String>)
    ensures
        opt_view(r) == opt_view(*o),
{
    match o {
        Some(s) => Some(s.clone()),
        None => None,
    }
}

impl Agent {
    /// Checks the agent, given whether its address reads as an IP address.
    pub fn validate(&self, address_ok: bool) -> (r: Result<(), AgentError>)
        ensures
            match r {
                Ok(_) => agent_fault(self@, address_ok) is None,
                Err(e) => agent_fault(self@, address_ok) == Some(e@),
            },
    {
        if self.account_id.as_str().is_empty() {
            return Err(
                AgentError::ValidationError(String::from_str("Account ID cannot be empty")),
            );
        }
        if self.host_id.as_str().is_empty() {
            return Err(AgentError::ValidationError(String::from_str("Host ID cannot be empty")));
        }
        match &self.ip_address {
            Some(ip) => {
                if !address_ok {
                    return Err(
                        AgentError::ValidationError(
                            String::from_str("Invalid IP address: ").concat(ip.as_str()),
                        ),
                    );
                }
            },
            None => {},
        }
        Ok(())
    }

    /// Builds the agent that is stored for a registration.
    pub fn register(
        &self,
        address_ok: bool,
        taken: bool,
        id: String,
        api_key: String,
        now: String,
    ) -> (r: Result<Agent, AgentError>)
        ensures
            match r {
                Ok(a) => registered(self@, address_ok, taken, id@, api_key@, now@) == Ok::<
                    AgentModel,
                    AgentFailure,
                >(a@),
                Err(e) => registered(self@, address_ok, taken, id@, api_key@, now@) == Err::<
                    AgentModel,
                    AgentFailure,
                >(e@),
            },
    {
        match self.validate(address_ok) {
            Err(e) => {
                return Err(e);
            },
            Ok(_) => {},
        }
        if taken {
            let mut text = String::from_str("An agent for host '");
            text.append(self.host_id.as_str());
            text.append("' already exists.");
            return Err(AgentError::ValidationError(text));
        }
        Ok(
            Agent {
                id,
                api_key,
                host_id: self.host_id.clone(),
                account_id: self.account_id.clone(),
                ip_address: clone_opt(&self.ip_address),
                hostname: clone_opt(&self.hostname),
                status: AgentStatus::Active,
                last_seen: Some(now),
            },
        )
    }
}

} // verus!
