//! Detection rules, the book that keeps them, and the engine that holds an
//! event against the rules of its account.

use vstd::prelude::*;
use vstd::string::StringExecFns;
use crate::alert::{
    alert_failure_text, alert_models, refusal_given, Alert, AlertModel, AlertSink,
};
use crate::dates::{is_rfc3339, reformat, reformatted, rfc3339_parses};
use crate::extensions::lookup;
use crate::json::{members_view, rendered, written, JsonValue, Member};
use crate::log_parser::{Event, NormalizedLog};
use crate::text::{opt_view, spells, str_eq, string_views, to_chars, trim, trimmed};

verus! {

/// Why the rule book or the rule engine turned a request down.
#[derive(Debug)]
pub enum RuleError {
    DatabaseError(String),
    ValidationError(String),
    AlertCreationError(String),
    SerializationError(String),
}

/// A `RuleError` in contracts.
pub enum RuleFailure {
    DatabaseError(Seq<char>),
    ValidationError(Seq<char>),
    AlertCreationError(Seq<char>),
    SerializationError(Seq<char>),
}

impl View for RuleError {
    type V = RuleFailure;

    open spec fn view(&self) -> RuleFailure {
        match self {
            RuleError::DatabaseError(m) => RuleFailure::DatabaseError(m@),
            RuleError::ValidationError(m) => RuleFailure::ValidationError(m@),
            RuleError::AlertCreationError(m) => RuleFailure::AlertCreationError(m@),
            RuleError::SerializationError(m) => RuleFailure::SerializationError(m@),
        }
    }
}

/// The sentence that describes a failure.
pub open spec fn rule_failure_text(e: RuleFailure) -> Seq<char> {
    match e {
        RuleFailure::DatabaseError(m) => "Database error: "@ + m,
        RuleFailure::ValidationError(m) => "Validation error: "@ + m,
        RuleFailure::AlertCreationError(m) => "Alert creation error: "@ + m,
        RuleFailure::SerializationError(m) => "Serialization error: "@ + m,
    }
}

impl RuleError {
    /// The sentence that describes this failure.
    pub fn message(&self) -> (r: String)
        ensures
            r@ == rule_failure_text(self@),
    {
        match self {
            RuleError::DatabaseError(m) => String::from_str("Database error: ").concat(m.as_str()),
            RuleError::ValidationError(m) => String::from_str("Validation error: ").concat(
                m.as_str(),
            ),
            RuleError::AlertCreationError(m) => String::from_str("Alert creation error: ").concat(
                m.as_str(),
            ),
            RuleError::SerializationError(m) => String::from_str("Serialization error: ").concat(
                m.as_str(),
            ),
        }
    }
}

/// Where the logs a rule looks at come from.
#[derive(Debug)]
pub struct LogSource {
    pub category: String,
    pub product: String,
}

/// What a rule looks for: the values that named fields must have, and the
/// condition that combines them.
#[derive(Debug)]
pub struct Detection {
    pub selection: Vec<(String, JsonValue)>,
    pub condition: String,
}

/// A `Detection` in contracts.
pub struct DetectionModel {
    pub selection: Seq<Member>,
    pub condition: Seq<char>,
}

impl View for Detection {
    type V = DetectionModel;

    open spec fn view(&self) -> DetectionModel {
        DetectionModel { selection: members_view(self.selection@), condition: self.condition@ }
    }
}

/// How grave a rule's finding is.
#[derive(Clone, Copy, Debug, PartialEq, Eq, Structural)]
pub enum Levels {
    Informational,
    Low,
    Medium,
    High,
    Critical,
}

/// The word for a level.
pub open spec fn level_word(l: Levels) -> Seq<char> {
    match l {
        Levels::Informational => "Informational"@,
        Levels::Low => "Low"@,
        Levels::Medium => "Medium"@,
        Levels::High => "High"@,
        Levels::Critical => "Critical"@,
    }
}

/// The level a word stands for; `Low` for a word that names none.
pub open spec fn level_named(word: Seq<char>) -> Levels {
    if word == "Informational"@ {
        Levels::Informational
    } else if word == "Medium"@ {
        Levels::Medium
    } else if word == "High"@ {
        Levels::High
    } else if word == "Critical"@ {
        Levels::Critical
    } else {
        Levels::Low
    }
}

/// Reading the word of a level gives the level back.
pub proof fn lemma_level_codec(l: Levels)
    ensures
        level_named(level_word(l)) == l,
{
    reveal_strlit("Informational");
    reveal_strlit("Low");
    reveal_strlit("Medium");
    reveal_strlit("High");
    reveal_strlit("Critical");
    match l {
        Levels::Informational => {},
        Levels::Low => {
            assert("Low"@.len() == 3);
        },
        Levels::Medium => {
            assert("Medium"@.len() == 6);
        },
        Levels::High => {
            assert("High"@.len() == 4);
        },
        Levels::Critical => {
            assert("Critical"@.len() == 8);
        },
    }
}

impl Levels {
    /// The word for this level.
    pub fn name(&self) -> (r: String)
        ensures
            r@ == level_word(*self),
    {
        match self {
            Levels::Informational => String::from_str("Informational"),
            Levels::Low => String::from_str("Low"),
            Levels::Medium => String::from_str("Medium"),
            Levels::High => String::from_str("High"),
            Levels::Critical => String::from_str("Critical"),
        }
    }

    /// The level a word stands for; `Low` for a word that names none.
    pub fn from_name(word: &str) -> (r: Levels)
        ensures
            r == level_named(word@),
    {
        if str_eq(word, "Informational") {
            Levels::Informational
        } else if str_eq(word, "Medium") {
            Levels::Medium
        } else if str_eq(word, "High") {
            Levels::High
        } else if str_eq(word, "Critical") {
            Levels::Critical
        } else {
            Levels::Low
        }
    }
}

/// A detection rule of one account.
#[derive(Debug)]
pub struct Rule {
    pub id: String,
    pub account_id: String,
    pub title: String,
    pub status: String,
    pub description: String,
    pub ref_list: Vec<String>,
    pub tags: Vec<String>,
    pub author: String,
    pub date: String,
    pub logsource: LogSource,
    pub detection: Detection,
    pub fields: Vec<String>,
    pub falsepositives: Vec<String>,
    pub level: Levels,
    pub enabled: bool,
    pub created_at: String,
    pub updated_at: String,
}

/// A `Rule` in contracts.
pub struct RuleModel {
    pub id: Seq<char>,
    pub account_id: Seq<char>,
    pub title: Seq<char>,
    pub status: Seq<char>,
    pub description: Seq<char>,
    pub ref_list: Seq<Seq<char>>,
    pub tags: Seq<Seq<char>>,
    pub author: Seq<char>,
    pub date: Seq<char>,
    pub category: Seq<char>,
    pub product: Seq<char>,
    pub detection: DetectionModel,
    pub fields: Seq<Seq<char>>,
    pub falsepositives: Seq<Seq<char>>,
    pub level: Levels,
    pub enabled: bool,
    pub created_at: Seq<char>,
    pub updated_at: Seq<char>,
}

impl View for Rule {
    type V = RuleModel;

    open spec fn view(&self) -> RuleModel {
        RuleModel {
            id: self.id@,
            account_id: self.account_id@,
            title: self.title@,
            status: self.status@,
            description: self.description@,
            ref_list: string_views(self.ref_list@),
            tags: string_views(self.tags@),
            author: self.author@,
            date: self.date@,
            category: self.logsource.category@,
            product: self.logsource.product@,
            detection: self.detection@,
            fields: string_views(self.fields@),
            falsepositives: string_views(self.falsepositives@),
            level: self.level,
            enabled: self.enabled,
            created_at: self.created_at@,
            updated_at: self.updated_at@,
        }
    }
}

fn clone_strings(v: &Vec<String>) -> (r: Vec<String>)
    ensures
        string_views(r@) == string_views(v@),
{
    let mut out: Vec<String> = Vec::new();
    let mut i: usize = 0;
    while i < v.len()
        invariant
            i <= v.len(),
            string_views(out@) == string_views(v@).take(i as int),
        decreases v.len() - i,
    {
        out.push(v[i].clone());
        assert(string_views(v@).take(i as int + 1) == string_views(v@).take(i as int).push(
            v@[i as int]@,
        ));
        i += 1;
    }
    out
}

fn clone_members(v: &Vec<(String, JsonValue)>) -> (r: Vec<(String, JsonValue)>)
    ensures
        members_view(r@) == members_view(v@),
{
    let mut out: Vec<(String, JsonValue)> = Vec::new();
    let mut i: usize = 0;
    while i < v.len()
        invariant
            i <= v.len(),
            members_view(out@) == members_view(v@).take(i as int),
        decreases v.len() - i,
    {
        out.push((v[i].0.clone(), v[i].1.clone()));
        assert(members_view(v@).take(i as int + 1) == members_view(v@).take(i as int).push(
            (v@[i as int].0@, v@[i as int].1@),
        ));
        i += 1;
    }
    out
}

/// The lines that describe the fields of a selection: each as a space, the
/// key, a colon, a space, the value written as JSON, and a comma.
pub open spec fn selection_lines(selection: Seq<Member>) -> Seq<char>
    decreases selection.len(),
{
    if selection.len() == 0 {
        Seq::<char>::empty()
    } else {
        selection_lines(selection.drop_last()) + " "@ + selection.last().0 + ": "@ + written(
            selection.last().1,
        ) + ",\n"@
    }
}

/// The text that describes a detection.
pub open spec fn detection_text(d: DetectionModel) -> Seq<char> {
    "Selection: {\n"@ + selection_lines(d.selection) + "}\nCondition: "@ + d.condition
}

impl Detection {
    /// The text that describes this detection: its selection, one field to
    /// a line, and its condition.
    pub fn describe(&self) -> (r: String)
        ensures
            r@ == detection_text(self@),
    {
        let mut out = String::from_str("Selection: {\n");
        let ghost head = out@;
        let ghost all = members_view(self.selection@);
        let mut i: usize = 0;
        while i < self.selection.len()
            invariant
                i <= self.selection.len(),
                all == members_view(self.selection@),
                out@ == head + selection_lines(all.take(i as int)),
            decreases self.selection.len() - i,
        {
            assert(all.take(i as int + 1).drop_last() == all.take(i as int));
            let value = self.selection[i].1.write();
            out.append(" ");
            out.append(self.selection[i].0.as_str());
            out.append(": ");
            out.append(value.as_str());
            out.append(",\n");
            i += 1;
        }
        assert(all.take(self.selection.len() as int) == all);
        out.append("}\nCondition: ");
        out.append(self.condition.as_str());
        out
    }

    /// A copy of the detection.
    pub fn clone(&self) -> (r: Detection)
        ensures
            r@ == self@,
    {
        Detection { selection: clone_members(&self.selection), condition: self.condition.clone() }
    }
}

/// What is wrong with a rule, if anything: it must name its account, have a
/// title, and state a condition.
pub open spec fn rule_fault(r: RuleModel) -> Option<RuleFailure> {
    if r.account_id.len() == 0 {
        Some(RuleFailure::ValidationError("Account ID cannot be empty"@))
    } else if r.title.len() == 0 {
        Some(RuleFailure::ValidationError("Rule title cannot be empty"@))
    } else if r.detection.condition.len() == 0 {
        Some(RuleFailure::ValidationError("Rule condition cannot be empty"@))
    } else {
        None
    }
}

/// The layout in which a new rule states its date.
pub const RULE_DATE_LAYOUT: &'static str = "%Y-%m-%d %H:%M:%S";

/// The layout in which a stored rule states its date.
pub const SIGMA_DATE_LAYOUT: &'static str = "%Y/%m/%d";

/// The date of a rule as the book stores it, given what came of writing it anew.
pub open spec fn sigma_date_from(outcome: Result<Seq<char>, Seq<char>>) -> Result<
    Seq<char>,
    RuleFailure,
> {
    match outcome {
        Ok(date) => Ok(date),
        Err(m) => Err(RuleFailure::ValidationError("Invalid date format: "@ + m)),
    }
}

impl Rule {
    /// Checks that the rule names its account, has a title and states a condition.
    pub fn validate(&self) -> (r: Result<(), RuleError>)
        ensures
            match r {
                Ok(_) => rule_fault(self@) is None,
                Err(e) => rule_fault(self@) == Some(e@),
            },
    {
        if self.account_id.as_str().is_empty() {
            return Err(RuleError::ValidationError(String::from_str("Account ID cannot be empty")));
        }
        if self.title.as_str().is_empty() {
            return Err(RuleError::ValidationError(String::from_str("Rule title cannot be empty")));
        }
        if self.detection.condition.as_str().is_empty() {
            return Err(
                RuleError::ValidationError(String::from_str("Rule condition cannot be empty")),
            );
        }
        Ok(())
    }

    /// The date of the rule written as year, month and day between slashes.
    pub fn format_sigma_date(&self) -> (r: Result<String, RuleError>)
        ensures
            match r {
                Ok(d) => sigma_date_from(
                    reformatted(self.date@, RULE_DATE_LAYOUT@, SIGMA_DATE_LAYOUT@),
                ) == Ok::<Seq<char>, RuleFailure>(d@),
                Err(e) => sigma_date_from(
                    reformatted(self.date@, RULE_DATE_LAYOUT@, SIGMA_DATE_LAYOUT@),
                ) == Err::<Seq<char>, RuleFailure>(e@),
            },
    {
        match reformat(self.date.as_str(), RULE_DATE_LAYOUT, SIGMA_DATE_LAYOUT) {
            Ok(d) => Ok(d),
            Err(m) => Err(
                RuleError::ValidationError(
                    String::from_str("Invalid date format: ").concat(m.as_str()),
                ),
            ),
        }
    }

    /// A copy of the rule.
    pub fn clone(&self) -> (r: Rule)
        ensures
            r@ == self@,
    {
        Rule {
            id: self.id.clone(),
            account_id: self.account_id.clone(),
            title: self.title.clone(),
            status: self.status.clone(),
            description: self.description.clone(),
            ref_list: clone_strings(&self.ref_list),
            tags: clone_strings(&self.tags),
            author: self.author.clone(),
            date: self.date.clone(),
            logsource: LogSource {
                category: self.logsource.category.clone(),
                product: self.logsource.product.clone(),
            },
            detection: self.detection.clone(),
            fields: clone_strings(&self.fields),
            falsepositives: clone_strings(&self.falsepositives),
            level: self.level,
            enabled: self.enabled,
            created_at: self.created_at.clone(),
            updated_at: self.updated_at.clone(),
        }
    }
}

/// An optional text, or the empty text where there is none.
pub open spec fn or_empty(o: Option<Seq<char>>) -> Seq<char> {
    match o {
        Some(s) => s,
        None => Seq::<char>::empty(),
    }
}

/// What an event holds under a field name: its own attribute for
/// `event_type`, `src_ip`, `dst_ip` and `timestamp`, else the extension of
/// that name; the empty text where it holds nothing.
pub open spec fn field_of(e: Event, field: Seq<char>) -> Seq<char> {
    if field == "event_type"@ {
        or_empty(e.event_type)
    } else if field == "src_ip"@ {
        or_empty(e.src_ip)
    } else if field == "dst_ip"@ {
        or_empty(e.dst_ip)
    } else if field == "timestamp"@ {
        or_empty(e.timestamp)
    } else {
        or_empty(lookup(e.extensions, field))
    }
}

/// Every field of the selection has the expected text in the event.
pub open spec fn selection_holds(selection: Seq<Member>, e: Event) -> bool {
    forall|i: int|
        0 <= i < selection.len() ==> field_of(e, (#[trigger] selection[i]).0) == rendered(
            selection[i].1,
        )
}

/// A detection matches an event when its condition is `selection` and every
/// field of its selection has the expected text. Any other condition matches
/// nothing.
pub open spec fn detection_matches(d: DetectionModel, e: Event) -> bool {
    trim(d.condition) == "selection"@ && selection_holds(d.selection, e)
}

fn text_or_empty(o: &Option<String>) -> (r: String)
    ensures
        r@ == or_empty(opt_view(*o)),
{
    match o {
        Some(s) => s.clone(),
        None => String::new(),
    }
}

/// What the event holds under a field name.
pub fn field_value(log: &NormalizedLog, field: &str) -> (r: String)
    ensures
        r@ == field_of(log@, field@),
{
    if str_eq(field, "event_type") {
        text_or_empty(&log.event_type)
    } else if str_eq(field, "src_ip") {
        text_or_empty(&log.src_ip)
    } else if str_eq(field, "dst_ip") {
        text_or_empty(&log.dst_ip)
    } else if str_eq(field, "timestamp") {
        text_or_empty(&log.timestamp)
    } else {
        text_or_empty(&log.extensions.get(field))
    }
}

/// Whether a detection matches an event.
pub fn matches_detection(detection: &Detection, log: &NormalizedLog) -> (r: bool)
    ensures
        r == detection_matches(detection@, log@),
{
    let condition = trimmed(&to_chars(detection.condition.as_str()));
    if !spells(&condition, "selection") {
        return false;
    }
    let ghost selection = members_view(detection.selection@);
    let mut i: usize = 0;
    while i < detection.selection.len()
        invariant
            i <= detection.selection.len(),
            selection == members_view(detection.selection@),
            forall|k: int|
                0 <= k < i ==> field_of(log@, (#[trigger] selection[k]).0) == rendered(
                    selection[k].1,
                ),
        decreases detection.selection.len() - i,
    {
        let actual = field_value(log, detection.selection[i].0.as_str());
        let expected = detection.selection[i].1.render();
        assert(selection[i as int] == (
            detection.selection@[i as int].0@,
            detection.selection@[i as int].1@,
        ));
        if !str_eq(actual.as_str(), expected.as_str()) {
            return false;
        }
        i += 1;
    }
    true
}

/// A rule applies to an event of an account when it is enabled, belongs to
/// the account, and its detection matches.
pub open spec fn applies(r: RuleModel, e: Event, account: Seq<char>) -> bool {
    r.enabled && r.account_id == account && detection_matches(r.detection, e)
}

/// The rules that apply, in the order of the book.
pub open spec fn applicable(rules: Seq<RuleModel>, e: Event, account: Seq<char>) -> Seq<RuleModel>
    decreases rules.len(),
{
    if rules.len() == 0 {
        Seq::<RuleModel>::empty()
    } else if applies(rules.last(), e, account) {
        applicable(rules.drop_last(), e, account).push(rules.last())
    } else {
        applicable(rules.drop_last(), e, account)
    }
}

/// Every rule that applies is an enabled rule of the book for that account
/// whose detection matches.
pub proof fn lemma_applicable_from_book(rules: Seq<RuleModel>, e: Event, account: Seq<char>)
    ensures
        forall|k: int|
            0 <= k < applicable(rules, e, account).len() ==> applies(
                #[trigger] applicable(rules, e, account)[k],
                e,
                account,
            ) && exists|j: int|
                0 <= j < rules.len() && rules[j] == applicable(rules, e, account)[k],
    decreases rules.len(),
{
    if rules.len() > 0 {
        let init = rules.drop_last();
        lemma_applicable_from_book(init, e, account);
        let a = applicable(rules, e, account);
        let ai = applicable(init, e, account);
    }
}

/// The alert that a rule raises under a given identifier at a given time.
pub open spec fn alert_of(r: RuleModel, id: Seq<char>, created_at: Seq<char>) -> AlertModel {
    AlertModel {
        id: id,
        rule_id: r.id,
        account_id: r.account_id,
        severity: level_word(r.level),
        message: "Alert triggered: "@ + r.title + " - "@ + r.description,
        acknowledged: false,
        case_id: None,
        created_at: created_at,
    }
}

/// The alerts are those the rules raise, one for each rule in order, under
/// whatever identifiers and times they carry.
pub open spec fn raised_by(alerts: Seq<AlertModel>, rules: Seq<RuleModel>) -> bool {
    &&& alerts.len() == rules.len()
    &&& forall|i: int|
        0 <= i < alerts.len() ==> #[trigger] alerts[i] == alert_of(
            rules[i],
            alerts[i].id,
            alerts[i].created_at,
        )
}

/// Builds the alert that a rule raises.
pub fn alert_for(rule: &Rule, id: String, created_at: String) -> (a: Alert)
    ensures
        a@ == alert_of(rule@, id@, created_at@),
{
    let mut message = String::from_str("Alert triggered: ");
    message.append(rule.title.as_str());
    message.append(" - ");
    message.append(rule.description.as_str());
    Alert {
        id,
        rule_id: rule.id.clone(),
        account_id: rule.account_id.clone(),
        severity: rule.level.name(),
        message,
        acknowledged: false,
        case_id: None,
        created_at,
    }
}

/// Raises the alert of a rule under the given identifier and time into the
/// sink, given whether the time reads as RFC 3339. A refusal of the sink
/// comes back as an alert-creation failure that carries the sink's sentence.
pub fn raise_given(
    sink: &mut AlertSink,
    rule: &Rule,
    id: String,
    created_at: String,
    dated: bool,
) -> (r: Result<Alert, RuleError>)
    requires
        old(sink).wf(),
    ensures
        final(sink).wf(),
        match r {
            Ok(a) => a@ == alert_of(rule@, id@, created_at@) && final(sink)@ == old(sink)@.push(
                a@,
            ) && refusal_given(old(sink)@, a@, dated) is None,
            Err(e) => final(sink)@ == old(sink)@ && (match refusal_given(
                old(sink)@,
                alert_of(rule@, id@, created_at@),
                dated,
            ) {
                Some(fault) => e@ == RuleFailure::AlertCreationError(alert_failure_text(fault)),
                None => false,
            }),
        },
{
    let alert = alert_for(rule, id, created_at);
    let copy = alert.clone();
    match sink.append_given(alert, dated) {
        Ok(_) => Ok(copy),
        Err(e) => Err(RuleError::AlertCreationError(e.message())),
    }
}

/// The book of detection rules.
pub struct RuleBook {
    rules: Vec<Rule>,
}

/// The rules behind a list of rules.
pub open spec fn rule_models(v: Seq<Rule>) -> Seq<RuleModel> {
    Seq::new(v.len(), |i: int| v[i]@)
}

impl View for RuleBook {
    type V = Seq<RuleModel>;

    closed spec fn view(&self) -> Seq<RuleModel> {
        rule_models(self.rules@)
    }
}

/// Some rule has this identifier.
pub open spec fn rule_known(s: Seq<RuleModel>, id: Seq<char>) -> bool {
    exists|i: int| 0 <= i < s.len() && (#[trigger] s[i]).id == id
}

/// No identifier occurs twice among the rules.
pub open spec fn distinct_rule_ids(s: Seq<RuleModel>) -> bool {
    forall|i: int, j: int|
        0 <= i < s.len() && 0 <= j < s.len() && i != j ==> (#[trigger] s[i]).id != (#[trigger] s[j]).id
}

/// The first rule with the given identifier.
pub open spec fn rule_with(s: Seq<RuleModel>, id: Seq<char>) -> Option<RuleModel>
    decreases s.len(),
{
    if s.len() == 0 {
        None
    } else if s[0].id == id {
        Some(s[0])
    } else {
        rule_with(s.skip(1), id)
    }
}

/// The rules of one account, in the order of the book.
pub open spec fn rules_of(s: Seq<RuleModel>, account: Seq<char>) -> Seq<RuleModel>
    decreases s.len(),
{
    if s.len() == 0 {
        Seq::<RuleModel>::empty()
    } else if s.last().account_id == account {
        rules_of(s.drop_last(), account).push(s.last())
    } else {
        rules_of(s.drop_last(), account)
    }
}

/// The rules without those with the given identifier.
pub open spec fn without_rule(s: Seq<RuleModel>, id: Seq<char>) -> Seq<RuleModel>
    decreases s.len(),
{
    if s.len() == 0 {
        Seq::<RuleModel>::empty()
    } else if s.last().id == id {
        without_rule(s.drop_last(), id)
    } else {
        without_rule(s.drop_last(), id).push(s.last())
    }
}

/// The rule that the book stores for a submitted rule: under the given
/// identifier, enabled, dated as given, created and updated at the given time.
pub open spec fn stored_rule(r: RuleModel, id: Seq<char>, now: Seq<char>, date: Seq<char>) -> RuleModel {
    RuleModel { id: id, date: date, enabled: true, created_at: now, updated_at: now, ..r }
}

/// A stored rule brought up to date from a submitted one: everything but the
/// identifier and the time of creation is taken over, and the time of the
/// update is the given one.
pub open spec fn updated_rule(stored: RuleModel, r: RuleModel, now: Seq<char>) -> RuleModel {
    RuleModel { id: stored.id, created_at: stored.created_at, updated_at: now, ..r }
}

/// The rules with every one that has the identifier of `r` brought up to date from it.
pub open spec fn updated_in(s: Seq<RuleModel>, r: RuleModel, now: Seq<char>) -> Seq<RuleModel> {
    Seq::new(
        s.len(),
        |i: int|
            if s[i].id == r.id {
                updated_rule(s[i], r, now)
            } else {
                s[i]
            },
    )
}

/// What adding a rule does to the book, given an identifier, the time, and
/// what came of writing its date anew.
pub open spec fn rule_created(
    s: Seq<RuleModel>,
    r: RuleModel,
    id: Seq<char>,
    now: Seq<char>,
    date: Result<Seq<char>, Seq<char>>,
) -> Result<Seq<RuleModel>, RuleFailure> {
    match rule_fault(r) {
        Some(fault) => Err(fault),
        None => match sigma_date_from(date) {
            Err(fault) => Err(fault),
            Ok(d) => if rule_known(s, id) {
                Err(RuleFailure::DatabaseError("Rule identifier already in use"@))
            } else {
                Ok(s.push(stored_rule(r, id, now, d)))
            },
        },
    }
}

/// Every rule that is left after rules were taken out was there before,
/// and identifiers that were distinct stay so.
proof fn lemma_without_rule_keeps_distinct(s: Seq<RuleModel>, id: Seq<char>)
    ensures
        forall|k: int|
            0 <= k < without_rule(s, id).len() ==> rule_known(
                s,
                (#[trigger] without_rule(s, id)[k]).id,
            ),
        distinct_rule_ids(s) ==> distinct_rule_ids(without_rule(s, id)),
    decreases s.len(),
{
    if s.len() > 0 {
        let init = s.drop_last();
        let kept = without_rule(init, id);
        lemma_without_rule_keeps_distinct(init, id);
        assert forall|k: int| 0 <= k < without_rule(s, id).len() implies rule_known(
            s,
            (#[trigger] without_rule(s, id)[k]).id,
        ) by {
            if k < kept.len() {
                assert(rule_known(init, kept[k].id));
                let j = choose|j: int| 0 <= j < init.len() && (#[trigger] init[j]).id == kept[k].id;
                assert(s[j].id == kept[k].id);
            } else {
                assert(s[s.len() - 1].id == s.last().id);
            }
        }
        if distinct_rule_ids(s) {
            assert forall|i: int, j: int| 0 <= i < init.len() && 0 <= j < init.len() && i != j implies (
            #[trigger] init[i]).id != (#[trigger] init[j]).id by {
                assert(init[i] == s[i] && init[j] == s[j]);
            }
            assert forall|k: int| 0 <= k < kept.len() implies (#[trigger] kept[k]).id != s.last().id by {
                assert(rule_known(init, kept[k].id));
                let j = choose|j: int| 0 <= j < init.len() && (#[trigger] init[j]).id == kept[k].id;
                assert(s[j].id == kept[k].id);
                assert(s[s.len() - 1] == s.last());
            }
        }
    }
}

impl RuleBook {
    /// No identifier occurs twice in the book.
    pub open spec fn wf(&self) -> bool {
        distinct_rule_ids(self@)
    }

    /// An empty book.
    pub fn new() -> (b: RuleBook)
        ensures
            b@ == Seq::<RuleModel>::empty(),
            b.wf(),
    {
        RuleBook { rules: Vec::new() }
    }

    /// How many rules the book holds.
    pub fn len(&self) -> (n: usize)
        ensures
            n == self@.len(),
    {
        self.rules.len()
    }

    /// The rule at a position, counted in the order of the book.
    pub fn rule_at(&self, i: usize) -> (r: &Rule)
        requires
            i < self@.len(),
        ensures
            r@ == self@[i as int],
    {
        &self.rules[i]
    }

    /// Whether some rule has this identifier.
    pub fn knows(&self, id: &str) -> (r: bool)
        ensures
            r == rule_known(self@, id@),
    {
        let mut i: usize = 0;
        while i < self.rules.len()
            invariant
                i <= self.rules.len(),
                forall|k: int| 0 <= k < i ==> (#[trigger] self@[k]).id != id@,
            decreases self.rules.len() - i,
        {
            if str_eq(self.rules[i].id.as_str(), id) {
                assert(self@[i as int].id == id@);
                return true;
            }
            i += 1;
        }
        false
    }

    /// Adds a rule as it is given. A rule whose identifier is in use is
    /// refused, so that no identifier comes to stand twice in the book.
    pub fn load(&mut self, rule: Rule) -> (r: Result<(), RuleError>)
        ensures
            match r {
                Ok(_) => !rule_known(old(self)@, rule.id@) && final(self)@ == old(self)@.push(
                    rule@,
                ),
                Err(e) => rule_known(old(self)@, rule.id@) && final(self)@ == old(self)@ && e@
                    == RuleFailure::DatabaseError("Rule identifier already in use"@),
            },
            old(self).wf() ==> final(self).wf(),
    {
        if self.knows(rule.id.as_str()) {
            return Err(
                RuleError::DatabaseError(String::from_str("Rule identifier already in use")),
            );
        }
        let ghost before = self@;
        let ghost added = rule@;
        self.rules.push(rule);
        proof {
            assert(self@ =~= before.push(added));
            if distinct_rule_ids(before) {
                assert forall|i: int, j: int|
                    0 <= i < self@.len() && 0 <= j < self@.len() && i != j implies (
                #[trigger] self@[i]).id != (#[trigger] self@[j]).id by {
                    if i < before.len() {
                        assert(self@[i] == before[i]);
                    }
                    if j < before.len() {
                        assert(self@[j] == before[j]);
                    }
                }
            }
        }
        Ok(())
    }
}

/// Adds a rule under the given identifier, given the time and what came
/// of writing its date anew.
pub fn create_rule_with(
    book: &mut RuleBook,
    rule: &Rule,
    id: String,
    now: String,
    date: Result<String, String>,
) -> (r: Result<(), RuleError>)
    ensures
        match r {
            Ok(_) => rule_created(
                old(book)@,
                rule@,
                id@,
                now@,
                match date {
                    Ok(d) => Ok(d@),
                    Err(m) => Err(m@),
                },
            ) == Ok::<Seq<RuleModel>, RuleFailure>(final(book)@),
            Err(e) => final(book)@ == old(book)@ && rule_created(
                old(book)@,
                rule@,
                id@,
                now@,
                match date {
                    Ok(d) => Ok(d@),
                    Err(m) => Err(m@),
                },
            ) == Err::<Seq<RuleModel>, RuleFailure>(e@),
        },
        old(book).wf() ==> final(book).wf(),
{
    match rule.validate() {
        Err(e) => {
            return Err(e);
        },
        Ok(_) => {},
    }
    let date = match date {
        Ok(d) => d,
        Err(m) => {
            return Err(
                RuleError::ValidationError(
                    String::from_str("Invalid date format: ").concat(m.as_str()),
                ),
            );
        },
    };
    let mut stored = rule.clone();
    stored.id = id;
    stored.date = date;
    stored.enabled = true;
    stored.created_at = now.clone();
    stored.updated_at = now;
    book.load(stored)
}

/// Adds a rule: it is checked, gets a fresh identifier, is enabled, has
/// its date written with slashes, and is marked as created now.
pub fn create_rule(book: &mut RuleBook, rule: &Rule) -> (r: Result<(), RuleError>)
    ensures
        exists|id: Seq<char>, now: Seq<char>|
            match r {
                Ok(_) => #[trigger] rule_created(
                    old(book)@,
                    rule@,
                    id,
                    now,
                    reformatted(rule.date@, RULE_DATE_LAYOUT@, SIGMA_DATE_LAYOUT@),
                ) == Ok::<Seq<RuleModel>, RuleFailure>(final(book)@),
                Err(e) => final(book)@ == old(book)@ && #[trigger] rule_created(
                    old(book)@,
                    rule@,
                    id,
                    now,
                    reformatted(rule.date@, RULE_DATE_LAYOUT@, SIGMA_DATE_LAYOUT@),
                ) == Err::<Seq<RuleModel>, RuleFailure>(e@),
            },
        old(book).wf() ==> final(book).wf(),
{
    let id = crate::stamp::fresh_id();
    let now = crate::stamp::now_rfc3339();
    let date = reformat(rule.date.as_str(), RULE_DATE_LAYOUT, SIGMA_DATE_LAYOUT);
    let r = create_rule_with(book, rule, id, now, date);
    r
}

/// The first rule with the given identifier. An empty identifier is refused.
pub fn get_rule(book: &RuleBook, id: &String) -> (r: Result<Option<Rule>, RuleError>)
    ensures
        match r {
            Ok(found) => id@.len() > 0 && (match found {
                Some(rule) => rule_with(book@, id@) == Some(rule@),
                None => rule_with(book@, id@) is None,
            }),
            Err(e) => id@.len() == 0 && e@ == RuleFailure::ValidationError(
                "Rule ID cannot be empty"@,
            ),
        },
{
    if id.as_str().is_empty() {
        return Err(RuleError::ValidationError(String::from_str("Rule ID cannot be empty")));
    }
    let ghost s = book@;
    let mut i: usize = 0;
    assert(s.skip(0) == s);
    while i < book.rules.len()
        invariant
            i <= book.rules.len(),
            s == book@,
            s.len() == book.rules@.len(),
            id@.len() > 0,
            rule_with(s, id@) == rule_with(s.skip(i as int), id@),
        decreases book.rules.len() - i,
    {
        if str_eq(book.rules[i].id.as_str(), id.as_str()) {
            return Ok(Some(book.rules[i].clone()));
        }
        assert(s.skip(i as int).skip(1) == s.skip(i as int + 1));
        i += 1;
    }
    Ok(None)
}

/// Brings the stored rule with the identifier of `rule` up to date from
/// it, given the time. A rule that fails its check is refused; a rule
/// that is not in the book changes nothing.
pub fn update_rule_at(book: &mut RuleBook, rule: &Rule, now: String) -> (r: Result<(), RuleError>)
    ensures
        match r {
            Ok(_) => rule_fault(rule@) is None && final(book)@ == updated_in(
                old(book)@,
                rule@,
                now@,
            ),
            Err(e) => rule_fault(rule@) == Some(e@) && final(book)@ == old(book)@,
        },
        old(book).wf() ==> final(book).wf(),
{
    match rule.validate() {
        Err(e) => {
            return Err(e);
        },
        Ok(_) => {},
    }
    let ghost s = book@;
    let mut i: usize = 0;
    while i < book.rules.len()
        invariant
            i <= book.rules.len(),
            book.rules@.len() == s.len(),
            forall|k: int|
                0 <= k < i ==> (#[trigger] book.rules@[k])@ == updated_in(s, rule@, now@)[k],
            forall|k: int| i <= k < s.len() ==> (#[trigger] book.rules@[k])@ == s[k],
        decreases book.rules.len() - i,
    {
        if str_eq(book.rules[i].id.as_str(), rule.id.as_str()) {
            let mut fresh = rule.clone();
            fresh.id = book.rules[i].id.clone();
            fresh.created_at = book.rules[i].created_at.clone();
            fresh.updated_at = now.clone();
            book.rules.set(i, fresh);
        }
        i += 1;
    }
    Ok(())
}

/// Brings the stored rule with the identifier of `rule` up to date from
/// it and marks it as updated now.
pub fn update_rule(book: &mut RuleBook, rule: &Rule) -> (r: Result<(), RuleError>)
    ensures
        match r {
            Ok(_) => rule_fault(rule@) is None && exists|now: Seq<char>|
                final(book)@ == #[trigger] updated_in(old(book)@, rule@, now),
            Err(e) => rule_fault(rule@) == Some(e@) && final(book)@ == old(book)@,
        },
        old(book).wf() ==> final(book).wf(),
{
    let now = crate::stamp::now_rfc3339();
    update_rule_at(book, rule, now)
}

/// Takes the rules with the given identifier out of the book. An empty
/// identifier is refused.
pub fn delete_rule(book: &mut RuleBook, id: &String) -> (r: Result<(), RuleError>)
    ensures
        match r {
            Ok(_) => id@.len() > 0 && final(book)@ == without_rule(old(book)@, id@),
            Err(e) => id@.len() == 0 && final(book)@ == old(book)@ && e@
                == RuleFailure::ValidationError("Rule ID cannot be empty"@),
        },
        old(book).wf() ==> final(book).wf(),
{
    if id.as_str().is_empty() {
        return Err(RuleError::ValidationError(String::from_str("Rule ID cannot be empty")));
    }
    proof {
        lemma_without_rule_keeps_distinct(book@, id@);
    }
    let ghost s = book@;
    let mut kept: Vec<Rule> = Vec::new();
    let mut i: usize = 0;
    while i < book.rules.len()
        invariant
            i <= book.rules.len(),
            book@ == s,
            rule_models(kept@) == without_rule(s.take(i as int), id@),
        decreases book.rules.len() - i,
    {
        assert(s.take(i as int + 1).drop_last() == s.take(i as int));
        if !str_eq(book.rules[i].id.as_str(), id.as_str()) {
            let copy = book.rules[i].clone();
            kept.push(copy);
        }
        i += 1;
    }
    assert(s.take(book.rules.len() as int) == s);
    book.rules = kept;
    Ok(())
}

/// The rules of one account, in the order of the book. An empty account
/// is refused.
pub fn list_rules(book: &RuleBook, account_id: &String) -> (r: Result<Vec<Rule>, RuleError>)
    ensures
        match r {
            Ok(found) => account_id@.len() > 0 && rule_models(found@) == rules_of(
                book@,
                account_id@,
            ),
            Err(e) => account_id@.len() == 0 && e@ == RuleFailure::ValidationError(
                "Account ID cannot be empty"@,
            ),
        },
{
    if account_id.as_str().is_empty() {
        return Err(RuleError::ValidationError(String::from_str("Account ID cannot be empty")));
    }
    let mut out: Vec<Rule> = Vec::new();
    let mut i: usize = 0;
    while i < book.rules.len()
        invariant
            i <= book.rules.len(),
            rule_models(out@) == rules_of(book@.take(i as int), account_id@),
        decreases book.rules.len() - i,
    {
        assert(book@.take(i as int + 1).drop_last() == book@.take(i as int));
        if str_eq(book.rules[i].account_id.as_str(), account_id.as_str()) {
            let copy = book.rules[i].clone();
            out.push(copy);
        }
        i += 1;
    }
    assert(book@.take(book.rules.len() as int) == book@);
    Ok(out)
}

/// What has applied among the first rules of a book is the start of what
/// applies in the whole book.
pub proof fn lemma_applicable_prefix(rules: Seq<RuleModel>, e: Event, account: Seq<char>, n: int)
    requires
        0 <= n <= rules.len(),
    ensures
        applicable(rules.take(n), e, account).len() <= applicable(rules, e, account).len(),
        applicable(rules.take(n), e, account) == applicable(rules, e, account).take(
            applicable(rules.take(n), e, account).len() as int,
        ),
    decreases rules.len(),
{
    if n == rules.len() {
        assert(rules.take(n) == rules);
    } else {
        let init = rules.drop_last();
        lemma_applicable_prefix(init, e, account, n);
        assert(init.take(n) == rules.take(n));
    }
}

/// Every alert that the engine raises comes from a rule of the book with the
/// alert's rule identifier, account and severity, and that rule is enabled.
pub proof fn lemma_alerts_have_rules(
    rules: Seq<RuleModel>,
    e: Event,
    account: Seq<char>,
    alerts: Seq<AlertModel>,
)
    requires
        raised_by(alerts, applicable(rules, e, account)),
    ensures
        forall|i: int|
            0 <= i < alerts.len() ==> exists|j: int|
                0 <= j < rules.len() && rules[j].enabled && rules[j].id == (#[trigger] alerts[i]).rule_id
                    && rules[j].account_id == alerts[i].account_id && level_word(rules[j].level)
                    == alerts[i].severity && alerts[i].account_id == account,
{
    lemma_applicable_from_book(rules, e, account);
}

/// No alert is raised for a disabled rule: in a book without a double
/// identifier, the rule that has the rule identifier of a raised alert is
/// enabled.
pub proof fn lemma_no_alert_for_a_disabled_rule(
    rules: Seq<RuleModel>,
    e: Event,
    account: Seq<char>,
    alerts: Seq<AlertModel>,
)
    requires
        distinct_rule_ids(rules),
        raised_by(alerts, applicable(rules, e, account)),
    ensures
        forall|i: int, j: int|
            0 <= i < alerts.len() && 0 <= j < rules.len() && (#[trigger] rules[j]).id == (
            #[trigger] alerts[i]).rule_id ==> rules[j].enabled,
{
    lemma_alerts_have_rules(rules, e, account, alerts);
    assert forall|i: int, j: int|
        0 <= i < alerts.len() && 0 <= j < rules.len() && (#[trigger] rules[j]).id == (
        #[trigger] alerts[i]).rule_id implies rules[j].enabled by {
        let k = choose|k: int|
            0 <= k < rules.len() && rules[k].enabled && rules[k].id == alerts[i].rule_id;
        assert(k == j);
    }
}

/// A book in which no rule is enabled raises no alert.
pub proof fn lemma_disabled_rules_raise_nothing(
    rules: Seq<RuleModel>,
    e: Event,
    account: Seq<char>,
)
    requires
        forall|j: int| 0 <= j < rules.len() ==> !(#[trigger] rules[j]).enabled,
    ensures
        applicable(rules, e, account).len() == 0,
    decreases rules.len(),
{
    if rules.len() > 0 {
        let init = rules.drop_last();
        lemma_disabled_rules_raise_nothing(init, e, account);
    }
}

/// An evaluation breaks off after the alerts `done`: they are the alerts of
/// the first rules that apply, and the sink, which holds them by then,
/// refuses the alert of the next rule that applies under the given
/// identifier and time. The report is an alert-creation failure that
/// carries the sink's sentence.
pub open spec fn breaks_after(
    before: Seq<AlertModel>,
    due: Seq<RuleModel>,
    done: Seq<AlertModel>,
    id: Seq<char>,
    now: Seq<char>,
    e: RuleFailure,
) -> bool {
    done.len() < due.len() && raised_by(done, due.take(done.len() as int)) && (match refusal_given(
        before + done,
        alert_of(due[done.len() as int], id, now),
        rfc3339_parses(now),
    ) {
        Some(fault) => e == RuleFailure::AlertCreationError(alert_failure_text(fault)),
        None => false,
    })
}

/// How an evaluation that broke off left the sink, and what it reports: the
/// alerts of the first rules that apply were added, and the alert of the
/// next was refused by the sink under some identifier and time.
pub open spec fn broke_off(
    after: Seq<AlertModel>,
    before: Seq<AlertModel>,
    due: Seq<RuleModel>,
    e: RuleFailure,
) -> bool {
    exists|done: Seq<AlertModel>, id: Seq<char>, now: Seq<char>| #[trigger]
        breaks_after(before, due, done, id, now, e) && after == before + done
}

/// Holds an event against the rules of its account. Each rule that applies
/// raises one alert into the sink, in the order of the book, and the alerts
/// come back. An empty account is refused. Where the sink refuses an alert,
/// the evaluation breaks off with an alert-creation failure and the alerts
/// raised before stay.
pub fn evaluate_log_against_rules(
    book: &RuleBook,
    sink: &mut AlertSink,
    log: &NormalizedLog,
    account_id: &String,
) -> (r: Result<Vec<Alert>, RuleError>)
    requires
        old(sink).wf(),
    ensures
        final(sink).wf(),
        match r {
            Ok(alerts) => account_id@.len() > 0 && raised_by(
                alert_models(alerts@),
                applicable(book@, log@, account_id@),
            ) && final(sink)@ == old(sink)@ + alert_models(alerts@),
            Err(e) => if account_id@.len() == 0 {
                e@ == RuleFailure::ValidationError("Account ID cannot be empty"@) && final(sink)@
                    == old(sink)@
            } else {
                broke_off(
                    final(sink)@,
                    old(sink)@,
                    applicable(book@, log@, account_id@),
                    e@,
                )
            },
        },
        account_id@.len() > 0 && applicable(book@, log@, account_id@).len() == 0 ==> r is Ok,
{
    if account_id.as_str().is_empty() {
        return Err(RuleError::ValidationError(String::from_str("Account ID cannot be empty")));
    }
    let ghost start = sink@;
    let ghost due = applicable(book@, log@, account_id@);
    let mut raised: Vec<Alert> = Vec::new();
    let mut i: usize = 0;
    let count = book.len();
    while i < count
        invariant
            i <= count,
            count == book@.len(),
            sink.wf(),
            account_id@.len() > 0,
            start == old(sink)@,
            due == applicable(book@, log@, account_id@),
            raised_by(alert_models(raised@), applicable(book@.take(i as int), log@, account_id@)),
            sink@ == start + alert_models(raised@),
        decreases count - i,
    {
        let rule = book.rule_at(i);
        assert(book@.take(i as int + 1).drop_last() == book@.take(i as int));
        if rule.enabled && str_eq(rule.account_id.as_str(), account_id.as_str())
            && matches_detection(&rule.detection, log) {
            let id = crate::stamp::fresh_id();
            let created_at = crate::stamp::now_rfc3339();
            let dated = is_rfc3339(created_at.as_str());
            let ghost done = alert_models(raised@);
            let ghost drawn = id@;
            let ghost time = created_at@;
            match raise_given(sink, rule, id, created_at, dated) {
                Ok(alert) => {
                    let ghost added = alert@;
                    raised.push(alert);
                    assert(alert_models(raised@) == done.push(added));
                },
                Err(e) => {
                    proof {
                        lemma_applicable_prefix(book@, log@, account_id@, i as int);
                        lemma_applicable_prefix(book@, log@, account_id@, i as int + 1);
                        let first = applicable(book@.take(i as int), log@, account_id@);
                        let next = applicable(book@.take(i as int + 1), log@, account_id@);
                        assert(book@.take(i as int + 1).last() == rule@);
                        assert(next == first.push(rule@));
                        assert(due.take(next.len() as int)[done.len() as int] == rule@);
                        assert(due[done.len() as int] == rule@);
                        assert(due.take(done.len() as int) == first);
                        assert(breaks_after(start, due, done, drawn, time, e@));
                    }
                    return Err(e);
                },
            }
        }
        i += 1;
    }
    assert(book@.take(count as int) == book@);
    Ok(raised)
}

} // verus!
