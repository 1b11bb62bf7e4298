//! Alerts and the sink that keeps them. Alerts are only ever added; after
//! that an alert can be acknowledged, attached to a case, or deleted.

use vstd::prelude::*;
use vstd::string::StringExecFns;
use crate::dates::{is_rfc3339, rfc3339_parses};
use crate::text::{opt_view, spells, str_eq, to_chars, to_lower, lowered};

verus! {

/// How grave an alert is.
#[derive(Clone, Copy, Debug, PartialEq, Eq, Structural)]
pub enum AlertSeverity {
    Low,
    Medium,
    High,
}

/// The severity that a word names, whatever its case; `Low` for any other word.
pub open spec fn severity_named(word: Seq<char>) -> AlertSeverity {
    if lowered(word) == "medium"@ {
        AlertSeverity::Medium
    } else if lowered(word) == "high"@ {
        AlertSeverity::High
    } else {
        AlertSeverity::Low
    }
}

/// The word for a severity.
pub open spec fn severity_word(s: AlertSeverity) -> Seq<char> {
    match s {
        AlertSeverity::Low => "Low"@,
        AlertSeverity::Medium => "Medium"@,
        AlertSeverity::High => "High"@,
    }
}

impl AlertSeverity {
    /// The severity that a word names, whatever its case; `Low` for any other word.
    pub fn from(s: String) -> (r: AlertSeverity)
        ensures
            r == severity_named(s@),
    {
        let word = to_lower(&to_chars(s.as_str()));
        if spells(&word, "medium") {
            AlertSeverity::Medium
        } else if spells(&word, "high") {
            AlertSeverity::High
        } else {
            AlertSeverity::Low
        }
    }

    /// The word for this severity.
    pub fn name(&self) -> (r: String)
        ensures
            r@ == severity_word(*self),
    {
        match self {
            AlertSeverity::Low => String::from_str("Low"),
            AlertSeverity::Medium => String::from_str("Medium"),
            AlertSeverity::High => String::from_str("High"),
        }
    }
}

/// Why the sink turned a request down.
#[derive(Debug)]
pub enum AlertError {
    DatabaseError(String),
    ValidationError(String),
    ParseError(String),
}

/// An `AlertError` in contracts.
pub enum AlertFailure {
    DatabaseError(Seq<char>),
    ValidationError(Seq<char>),
    ParseError(Seq<char>),
}

impl View for AlertError {
    type V = AlertFailure;

    open spec fn view(&self) -> AlertFailure {
        match self {
            AlertError::DatabaseError(m) => AlertFailure::DatabaseError(m@),
            AlertError::ValidationError(m) => AlertFailure::ValidationError(m@),
            AlertError::ParseError(m) => AlertFailure::ParseError(m@),
        }
    }
}

/// The sentence that describes a failure.
pub open spec fn alert_failure_text(e: AlertFailure) -> Seq<char> {
    match e {
        AlertFailure::DatabaseError(m) => "Database error: "@ + m,
        AlertFailure::ValidationError(m) => "Validation error: "@ + m,
        AlertFailure::ParseError(m) => "Parse error: "@ + m,
    }
}

impl AlertError {
    /// The sentence that describes this failure.
    pub fn message(&self) -> (r: String)
        ensures
            r@ == alert_failure_text(self@),
    {
        match self {
            AlertError::DatabaseError(m) => String::from_str("Database error: ").concat(
                m.as_str(),
            ),
            AlertError::ValidationError(m) => String::from_str("Validation error: ").concat(
                m.as_str(),
            ),
            AlertError::ParseError(m) => String::from_str("Parse error: ").concat(m.as_str()),
        }
    }
}

/// What the rule engine raises when a rule matches an event.
#[derive(Debug)]
pub struct Alert {
    pub id: String,
    pub rule_id: String,
    pub account_id: String,
    pub severity: String,
    pub message: String,
    pub acknowledged: bool,
    pub case_id: Option<String>,
    pub created_at: String,
}

/// An `Alert` in contracts.
pub struct AlertModel {
    pub id: Seq<char>,
    pub rule_id: Seq<char>,
    pub account_id: Seq<char>,
    pub severity: Seq<char>,
    pub message: Seq<char>,
    pub acknowledged: bool,
    pub case_id: Option<Seq<char>>,
    pub created_at: Seq<char>,
}

impl View for Alert {
    type V = AlertModel;

    open spec fn view(&self) -> AlertModel {
        AlertModel {
            id: self.id@,
            rule_id: self.rule_id@,
            account_id: self.account_id@,
            severity: self.severity@,
            message: self.message@,
            acknowledged: self.acknowledged,
            case_id: opt_view(self.case_id),
            created_at: self.created_at@,
        }
    }
}

/// What is wrong with an alert, if anything: it must name its rule and its
/// account, carry a message, and be dated in RFC 3339.
pub open spec fn alert_fault(a: AlertModel) -> Option<AlertFailure> {
    if a.rule_id.len() == 0 {
        Some(AlertFailure::ValidationError("Rule ID cannot be empty"@))
    } else if a.account_id.len() == 0 {
        Some(AlertFailure::ValidationError("Account ID cannot be empty"@))
    } else if a.message.len() == 0 {
        Some(AlertFailure::ValidationError("Message cannot be empty"@))
    } else if !rfc3339_parses(a.created_at) {
        Some(AlertFailure::ParseError("Creation time is not in RFC 3339"@))
    } else {
        None
    }
}

/// What is wrong with an alert, if anything, given whether its date reads as
/// RFC 3339.
pub open spec fn alert_fault_given(a: AlertModel, dated: bool) -> Option<AlertFailure> {
    if a.rule_id.len() == 0 {
        Some(AlertFailure::ValidationError("Rule ID cannot be empty"@))
    } else if a.account_id.len() == 0 {
        Some(AlertFailure::ValidationError("Account ID cannot be empty"@))
    } else if a.message.len() == 0 {
        Some(AlertFailure::ValidationError("Message cannot be empty"@))
    } else if !dated {
        Some(AlertFailure::ParseError("Creation time is not in RFC 3339"@))
    } else {
        None
    }
}

impl Alert {
    /// Checks the alert, given whether its date reads as RFC 3339.
    pub fn validate_given(&self, dated: bool) -> (r: Result<(), AlertError>)
        ensures
            match r {
                Ok(_) => alert_fault_given(self@, dated) is None,
                Err(e) => alert_fault_given(self@, dated) == Some(e@),
            },
    {
        if self.rule_id.as_str().is_empty() {
            return Err(AlertError::ValidationError(String::from_str("Rule ID cannot be empty")));
        }
        if self.account_id.as_str().is_empty() {
            return Err(
                AlertError::ValidationError(String::from_str("Account ID cannot be empty")),
            );
        }
        if self.message.as_str().is_empty() {
            return Err(AlertError::ValidationError(String::from_str("Message cannot be empty")));
        }
        if !dated {
            return Err(
                AlertError::ParseError(String::from_str("Creation time is not in RFC 3339")),
            );
        }
        Ok(())
    }

    /// Checks that the alert names its rule and account, carries a message
    /// and is dated in RFC 3339.
    pub fn validate(&self) -> (r: Result<(), AlertError>)
        ensures
            match r {
                Ok(_) => alert_fault(self@) is None,
                Err(e) => alert_fault(self@) == Some(e@),
            },
    {
        let dated = is_rfc3339(self.created_at.as_str());
        self.validate_given(dated)
    }

    /// A copy of the alert.
    pub fn clone(&self) -> (r: Alert)
        ensures
            r@ == self@,
    {
        Alert {
            id: self.id.clone(),
            rule_id: self.rule_id.clone(),
            account_id: self.account_id.clone(),
            severity: self.severity.clone(),
            message: self.message.clone(),
            acknowledged: self.acknowledged,
            case_id: match &self.case_id {
                Some(c) => Some(c.clone()),
                None => None,
            },
            created_at: self.created_at.clone(),
        }
    }
}

/// The alerts behind a list of alerts.
pub open spec fn alert_models(v: Seq<Alert>) -> Seq<AlertModel> {
    Seq::new(v.len(), |i: int| v[i]@)
}

/// Some alert has this identifier.
pub open spec fn alert_known(s: Seq<AlertModel>, id: Seq<char>) -> bool {
    exists|i: int| 0 <= i < s.len() && (#[trigger] s[i]).id == id
}

/// No identifier occurs twice.
pub open spec fn distinct_ids(s: Seq<AlertModel>) -> bool {
    forall|i: int, j: int|
        0 <= i < s.len() && 0 <= j < s.len() && i != j ==> (#[trigger] s[i]).id != (#[trigger] s[j]).id
}

/// The copy of an alert that the sink makes for a new alert: under the
/// given identifier, unacknowledged, attached to no case, created at the
/// given time.
pub open spec fn created_alert(a: AlertModel, id: Seq<char>, now: Seq<char>) -> AlertModel {
    AlertModel { id: id, acknowledged: false, case_id: None, created_at: now, ..a }
}

/// Why the sink refuses an alert, if it does, given whether the alert's date
/// reads as RFC 3339: because the alert is faulty, or because its identifier
/// is in use.
pub open spec fn refusal_given(s: Seq<AlertModel>, a: AlertModel, dated: bool) -> Option<
    AlertFailure,
> {
    match alert_fault_given(a, dated) {
        Some(fault) => Some(fault),
        None => if alert_known(s, a.id) {
            Some(AlertFailure::DatabaseError("Alert identifier already in use"@))
        } else {
            None
        },
    }
}

/// What adding an alert does to the alerts: a faulty alert is refused, one
/// whose identifier is in use is refused, and any other goes to the end.
pub open spec fn appended(s: Seq<AlertModel>, a: AlertModel) -> Result<
    Seq<AlertModel>,
    AlertFailure,
> {
    match alert_fault(a) {
        Some(fault) => Err(fault),
        None => if alert_known(s, a.id) {
            Err(AlertFailure::DatabaseError("Alert identifier already in use"@))
        } else {
            Ok(s.push(a))
        },
    }
}

/// The alerts with the one that has the given identifier acknowledged.
pub open spec fn acknowledged_in(s: Seq<AlertModel>, id: Seq<char>) -> Seq<AlertModel> {
    Seq::new(
        s.len(),
        |i: int|
            if s[i].id == id {
                acknowledged(s[i])
            } else {
                s[i]
            },
    )
}

/// The alerts with the one that has the given identifier attached to a case.
pub open spec fn attached_in(s: Seq<AlertModel>, id: Seq<char>, case: Seq<char>) -> Seq<
    AlertModel,
> {
    Seq::new(
        s.len(),
        |i: int|
            if s[i].id == id {
                attached(s[i], case)
            } else {
                s[i]
            },
    )
}

/// Acknowledging and attaching keep every alert in its place and change
/// nothing of an alert but whether it is acknowledged and the case it is
/// attached to.
pub proof fn lemma_only_flags_change(s: Seq<AlertModel>, id: Seq<char>, case: Seq<char>)
    ensures
        acknowledged_in(s, id).len() == s.len(),
        attached_in(s, id, case).len() == s.len(),
        forall|k: int|
            0 <= k < s.len() ==> #[trigger] acknowledged_in(s, id)[k] == (AlertModel {
                acknowledged: acknowledged_in(s, id)[k].acknowledged,
                ..s[k]
            }),
        forall|k: int|
            0 <= k < s.len() ==> #[trigger] attached_in(s, id, case)[k] == (AlertModel {
                case_id: attached_in(s, id, case)[k].case_id,
                ..s[k]
            }),
{
}

/// The alerts without those with the given identifier.
pub open spec fn without_alert(s: Seq<AlertModel>, id: Seq<char>) -> Seq<AlertModel>
    decreases s.len(),
{
    if s.len() == 0 {
        Seq::<AlertModel>::empty()
    } else if s.last().id == id {
        without_alert(s.drop_last(), id)
    } else {
        without_alert(s.drop_last(), id).push(s.last())
    }
}

/// The alerts of one account, in the order in which they were raised.
pub open spec fn alerts_of(s: Seq<AlertModel>, account: Seq<char>) -> Seq<AlertModel>
    decreases s.len(),
{
    if s.len() == 0 {
        Seq::<AlertModel>::empty()
    } else if s.last().account_id == account {
        alerts_of(s.drop_last(), account).push(s.last())
    } else {
        alerts_of(s.drop_last(), account)
    }
}

/// The first alert with the given identifier.
pub open spec fn alert_with(s: Seq<AlertModel>, id: Seq<char>) -> Option<AlertModel>
    decreases s.len(),
{
    if s.len() == 0 {
        None
    } else if s[0].id == id {
        Some(s[0])
    } else {
        alert_with(s.skip(1), id)
    }
}

/// An alert marked as acknowledged.
pub open spec fn acknowledged(a: AlertModel) -> AlertModel {
    AlertModel { acknowledged: true, ..a }
}

/// An alert attached to a case.
pub open spec fn attached(a: AlertModel, case: Seq<char>) -> AlertModel {
    AlertModel { case_id: Some(case), ..a }
}

/// Taking an alert out leaves the identifiers distinct, leaves only alerts
/// that were there, and leaves none with the identifier taken out.
pub proof fn lemma_without_keeps_distinct(s: Seq<AlertModel>, id: Seq<char>)
    requires
        distinct_ids(s),
    ensures
        distinct_ids(without_alert(s, id)),
        forall|k: int|
            0 <= k < without_alert(s, id).len() ==> alert_known(
                s,
                (#[trigger] without_alert(s, id)[k]).id,
            ),
        !alert_known(without_alert(s, id), id),
    decreases s.len(),
{
    let r = without_alert(s, id);
    if s.len() > 0 {
        let init = s.drop_last();
        lemma_without_keeps_distinct(init, id);
        let ri = without_alert(init, id);
    }
}

/// The append-only store of alerts.
pub struct AlertSink {
    alerts: Vec<Alert>,
}

impl View for AlertSink {
    type V = Seq<AlertModel>;

    closed spec fn view(&self) -> Seq<AlertModel> {
        alert_models(self.alerts@)
    }
}

impl AlertSink {
    /// No identifier occurs twice.
    pub open spec fn wf(&self) -> bool {
        distinct_ids(self@)
    }

    /// An empty sink.
    pub fn new() -> (s: AlertSink)
        ensures
            s@ == Seq::<AlertModel>::empty(),
            s.wf(),
    {
        AlertSink { alerts: Vec::new() }
    }

    /// How many alerts the sink holds.
    pub fn len(&self) -> (n: usize)
        ensures
            n == self@.len(),
    {
        self.alerts.len()
    }

    /// Whether some alert has this identifier.
    pub fn knows(&self, id: &str) -> (r: bool)
        ensures
            r == alert_known(self@, id@),
    {
        let mut i: usize = 0;
        while i < self.alerts.len()
            invariant
                i <= self.alerts.len(),
                forall|k: int| 0 <= k < i ==> (#[trigger] self@[k]).id != id@,
            decreases self.alerts.len() - i,
        {
            if str_eq(self.alerts[i].id.as_str(), id) {
                assert(self@[i as int].id == id@);
                return true;
            }
            i += 1;
        }
        false
    }

    /// Adds an alert as it is given, given whether its date reads as RFC 3339.
    pub fn append_given(&mut self, alert: Alert, dated: bool) -> (r: Result<(), AlertError>)
        requires
            old(self).wf(),
        ensures
            final(self).wf(),
            match r {
                Ok(_) => refusal_given(old(self)@, alert@, dated) is None && final(self)@ == old(
                    self,
                )@.push(alert@),
                Err(e) => refusal_given(old(self)@, alert@, dated) == Some(e@) && final(self)@
                    == old(self)@,
            },
    {
        match alert.validate_given(dated) {
            Err(e) => {
                return Err(e);
            },
            Ok(_) => {},
        }
        if self.knows(alert.id.as_str()) {
            return Err(
                AlertError::DatabaseError(String::from_str("Alert identifier already in use")),
            );
        }
        let ghost before = self@;
        let ghost added = alert@;
        self.alerts.push(alert);
        assert(self@ == before.push(added));
        Ok(())
    }

    /// Adds an alert as it is given.
    pub fn append(&mut self, alert: Alert) -> (r: Result<(), AlertError>)
        requires
            old(self).wf(),
        ensures
            final(self).wf(),
            match r {
                Ok(_) => appended(old(self)@, alert@) == Ok::<Seq<AlertModel>, AlertFailure>(
                    final(self)@,
                ),
                Err(e) => appended(old(self)@, alert@) == Err::<Seq<AlertModel>, AlertFailure>(e@)
                    && final(self)@ == old(self)@,
            },
    {
        let dated = is_rfc3339(alert.created_at.as_str());
        self.append_given(alert, dated)
    }
}

/// Adds a copy of an alert under the given identifier, unacknowledged,
/// attached to no case and created at the given time, given whether that
/// time reads as RFC 3339, and hands the copy back.
pub fn create_alert_with(sink: &mut AlertSink, alert: &Alert, id: String, now: String, dated: bool) -> (r:
    Result<Alert, AlertError>)
    requires
        old(sink).wf(),
    ensures
        final(sink).wf(),
        match r {
            Ok(a) => a@ == created_alert(alert@, id@, now@) && refusal_given(
                old(sink)@,
                a@,
                dated,
            ) is None && final(sink)@ == old(sink)@.push(a@),
            Err(e) => refusal_given(old(sink)@, created_alert(alert@, id@, now@), dated)
                == Some(e@) && final(sink)@ == old(sink)@,
        },
{
    let fresh = Alert {
        id,
        rule_id: alert.rule_id.clone(),
        account_id: alert.account_id.clone(),
        severity: alert.severity.clone(),
        message: alert.message.clone(),
        acknowledged: false,
        case_id: None,
        created_at: now,
    };
    let copy = fresh.clone();
    match sink.append_given(fresh, dated) {
        Ok(_) => Ok(copy),
        Err(e) => Err(e),
    }
}

/// Adds a copy of an alert under a fresh identifier, unacknowledged,
/// attached to no case and created now, and hands the copy back. The copy
/// goes to the end of the alerts exactly as `appended` says. A refusal leaves
/// the alerts as they were, and is the refusal that `appended` gives the copy
/// under some identifier and time; an alert with an empty rule, account or
/// message is refused with that fault, whatever the identifier and time.
pub fn create_alert(sink: &mut AlertSink, alert: &Alert) -> (r: Result<Alert, AlertError>)
    requires
        old(sink).wf(),
    ensures
        final(sink).wf(),
        match r {
            Ok(a) => a@ == created_alert(alert@, a.id@, a.created_at@) && appended(old(sink)@, a@)
                == Ok::<Seq<AlertModel>, AlertFailure>(final(sink)@),
            Err(e) => final(sink)@ == old(sink)@ && exists|id: Seq<char>, now: Seq<char>|
                appended(old(sink)@, #[trigger] created_alert(alert@, id, now)) == Err::<
                    Seq<AlertModel>,
                    AlertFailure,
                >(e@),
        },
        alert_fault_given(alert@, true) matches Some(fault) ==> (r matches Err(e) && e@ == fault),
{
    let id = crate::stamp::fresh_id();
    let now = crate::stamp::now_rfc3339();
    let dated = is_rfc3339(now.as_str());
    let ghost draft = created_alert(alert@, id@, now@);
    let ghost before = sink@;
    let r = create_alert_with(sink, alert, id, now, dated);
    proof {
        if r is Err {
            assert(appended(before, draft) == Err::<Seq<AlertModel>, AlertFailure>(r->Err_0@));
        }
    }
    r
}

/// The first alert with the given identifier. An empty identifier is refused.
pub fn get_alert(sink: &AlertSink, alert_id: &String) -> (r: Result<Option<Alert>, AlertError>)
    ensures
        match r {
            Ok(found) => alert_id@.len() > 0 && (match found {
                Some(a) => alert_with(sink@, alert_id@) == Some(a@),
                None => alert_with(sink@, alert_id@) is None,
            }),
            Err(e) => alert_id@.len() == 0 && e@ == AlertFailure::ValidationError(
                "Alert ID cannot be empty"@,
            ),
        },
{
    if alert_id.as_str().is_empty() {
        return Err(AlertError::ValidationError(String::from_str("Alert ID cannot be empty")));
    }
    let ghost s = sink@;
    let mut i: usize = 0;
    assert(s.skip(0) == s);
    while i < sink.alerts.len()
        invariant
            i <= sink.alerts.len(),
            s == sink@,
            s.len() == sink.alerts@.len(),
            alert_id@.len() > 0,
            alert_with(s, alert_id@) == alert_with(s.skip(i as int), alert_id@),
        decreases sink.alerts.len() - i,
    {
        if str_eq(sink.alerts[i].id.as_str(), alert_id.as_str()) {
            return Ok(Some(sink.alerts[i].clone()));
        }
        assert(s.skip(i as int).skip(1) == s.skip(i as int + 1));
        i += 1;
    }
    Ok(None)
}

/// The case that the first alert with the given identifier is attached
/// to, if there is such an alert and it is attached to one. An empty
/// identifier is refused.
pub fn alert_has_case(sink: &AlertSink, alert_id: &String) -> (r: Result<Option<String>, AlertError>)
    ensures
        match r {
            Ok(case) => alert_id@.len() > 0 && opt_view(case) == (match alert_with(
                sink@,
                alert_id@,
            ) {
                Some(a) => a.case_id,
                None => None,
            }),
            Err(e) => alert_id@.len() == 0 && e@ == AlertFailure::ValidationError(
                "Alert ID cannot be empty"@,
            ),
        },
{
    match get_alert(sink, alert_id) {
        Ok(Some(alert)) => Ok(alert.case_id),
        Ok(None) => Ok(None),
        Err(e) => Err(e),
    }
}

/// The alerts of one account, in the order in which they were raised. An
/// empty account is refused.
pub fn list_alerts(sink: &AlertSink, acct_id: &String) -> (r: Result<Vec<Alert>, AlertError>)
    ensures
        match r {
            Ok(found) => acct_id@.len() > 0 && alert_models(found@) == alerts_of(
                sink@,
                acct_id@,
            ),
            Err(e) => acct_id@.len() == 0 && e@ == AlertFailure::ValidationError(
                "Account ID cannot be empty"@,
            ),
        },
{
    if acct_id.as_str().is_empty() {
        return Err(
            AlertError::ValidationError(String::from_str("Account ID cannot be empty")),
        );
    }
    let mut out: Vec<Alert> = Vec::new();
    let mut i: usize = 0;
    while i < sink.alerts.len()
        invariant
            i <= sink.alerts.len(),
            alert_models(out@) == alerts_of(sink@.take(i as int), acct_id@),
        decreases sink.alerts.len() - i,
    {
        assert(sink@.take(i as int + 1).drop_last() == sink@.take(i as int));
        if str_eq(sink.alerts[i].account_id.as_str(), acct_id.as_str()) {
            let copy = sink.alerts[i].clone();
            out.push(copy);
        }
        i += 1;
    }
    assert(sink@.take(sink.alerts.len() as int) == sink@);
    Ok(out)
}

/// Marks the alert with the given identifier as acknowledged and tells
/// whether there was one. An empty identifier is refused.
pub fn acknowledge_alert(sink: &mut AlertSink, alert_id: &String) -> (r: Result<bool, AlertError>)
    requires
        old(sink).wf(),
    ensures
        final(sink).wf(),
        match r {
            Ok(found) => alert_id@.len() > 0 && found == alert_known(old(sink)@, alert_id@)
                && final(sink)@ == acknowledged_in(old(sink)@, alert_id@),
            Err(e) => alert_id@.len() == 0 && final(sink)@ == old(sink)@ && e@
                == AlertFailure::ValidationError("Alert ID cannot be empty"@),
        },
{
    if alert_id.as_str().is_empty() {
        return Err(AlertError::ValidationError(String::from_str("Alert ID cannot be empty")));
    }
    let ghost s = sink@;
    let mut found = false;
    let mut i: usize = 0;
    while i < sink.alerts.len()
        invariant
            i <= sink.alerts.len(),
            sink@.len() == s.len(),
            sink.alerts@.len() == s.len(),
            forall|k: int|
                0 <= k < i ==> (#[trigger] sink.alerts@[k])@ == acknowledged_in(s, alert_id@)[k],
            forall|k: int| i <= k < s.len() ==> (#[trigger] sink.alerts@[k])@ == s[k],
            found == exists|k: int| 0 <= k < i && (#[trigger] s[k]).id == alert_id@,
        decreases sink.alerts.len() - i,
    {
        if str_eq(sink.alerts[i].id.as_str(), alert_id.as_str()) {
            let mut a = sink.alerts[i].clone();
            a.acknowledged = true;
            sink.alerts.set(i, a);
            found = true;
        }
        i += 1;
    }
    Ok(found)
}

/// Attaches the alert with the given identifier to a case and tells
/// whether there was one. An empty identifier is refused.
pub fn update_alert_case_id(sink: &mut AlertSink, alert_id: &str, case_id: &str) -> (r: Result<
    bool,
    AlertError,
>)
    requires
        old(sink).wf(),
    ensures
        final(sink).wf(),
        match r {
            Ok(found) => alert_id@.len() > 0 && found == alert_known(old(sink)@, alert_id@)
                && final(sink)@ == attached_in(old(sink)@, alert_id@, case_id@),
            Err(e) => alert_id@.len() == 0 && final(sink)@ == old(sink)@ && e@
                == AlertFailure::ValidationError("Alert ID cannot be empty"@),
        },
{
    if alert_id.is_empty() {
        return Err(AlertError::ValidationError(String::from_str("Alert ID cannot be empty")));
    }
    let ghost s = sink@;
    let mut found = false;
    let mut i: usize = 0;
    while i < sink.alerts.len()
        invariant
            i <= sink.alerts.len(),
            sink@.len() == s.len(),
            sink.alerts@.len() == s.len(),
            forall|k: int|
                0 <= k < i ==> (#[trigger] sink.alerts@[k])@ == attached_in(
                    s,
                    alert_id@,
                    case_id@,
                )[k],
            forall|k: int| i <= k < s.len() ==> (#[trigger] sink.alerts@[k])@ == s[k],
            found == exists|k: int| 0 <= k < i && (#[trigger] s[k]).id == alert_id@,
        decreases sink.alerts.len() - i,
    {
        if str_eq(sink.alerts[i].id.as_str(), alert_id) {
            let mut a = sink.alerts[i].clone();
            a.case_id = Some(String::from_str(case_id));
            sink.alerts.set(i, a);
            found = true;
        }
        i += 1;
    }
    proof {
        let t = sink@;
    }
    Ok(found)
}

/// Deletes the alert with the given identifier and tells whether there
/// was one. An empty identifier is refused.
pub fn delete_alert(sink: &mut AlertSink, alert_id: &String) -> (r: Result<bool, AlertError>)
    requires
        old(sink).wf(),
    ensures
        final(sink).wf(),
        match r {
            Ok(found) => alert_id@.len() > 0 && found == alert_known(old(sink)@, alert_id@)
                && final(sink)@ == without_alert(old(sink)@, alert_id@),
            Err(e) => alert_id@.len() == 0 && final(sink)@ == old(sink)@ && e@
                == AlertFailure::ValidationError("Alert ID cannot be empty"@),
        },
{
    if alert_id.as_str().is_empty() {
        return Err(AlertError::ValidationError(String::from_str("Alert ID cannot be empty")));
    }
    let ghost s = sink@;
    let mut kept: Vec<Alert> = Vec::new();
    let mut found = false;
    let mut i: usize = 0;
    while i < sink.alerts.len()
        invariant
            i <= sink.alerts.len(),
            sink@ == s,
            alert_models(kept@) == without_alert(s.take(i as int), alert_id@),
            found == exists|k: int| 0 <= k < i && (#[trigger] s[k]).id == alert_id@,
        decreases sink.alerts.len() - i,
    {
        assert(s.take(i as int + 1).drop_last() == s.take(i as int));
        if str_eq(sink.alerts[i].id.as_str(), alert_id.as_str()) {
            found = true;
        } else {
            let copy = sink.alerts[i].clone();
            kept.push(copy);
        }
        i += 1;
    }
    assert(s.take(sink.alerts.len() as int) == s);
    proof {
        lemma_without_keeps_distinct(s, alert_id@);
    }
    sink.alerts = kept;
    Ok(found)
}

} // verus!
