use backend::alert::{
    acknowledge_alert, alert_has_case, create_alert, create_alert_with, delete_alert, get_alert,
    list_alerts, update_alert_case_id, Alert, AlertError, AlertSeverity, AlertSink,
};
use backend::json::JsonValue;
use backend::log_parser::{normalize, NormalizedLog};
use backend::rules::{
    alert_for, create_rule, create_rule_with, delete_rule, evaluate_log_against_rules,
    field_value, get_rule, list_rules, matches_detection, raise_given, update_rule,
    update_rule_at, Detection, Levels, LogSource, Rule, RuleBook, RuleError,
};

const SYSLOG_LINE: &str =
    "<134>Jan  1 00:00:00 host1 sshd[123]: Failed password for root from 1.2.3.4 port 22 ssh2";

fn event(line: &str) -> NormalizedLog {
    normalize(line, &String::from("acct-1"), &String::from("host-1")).expect("a known line")
}

fn rule(id: &str, account: &str, selection: Vec<(&str, JsonValue)>) -> Rule {
    Rule {
        id: String::from(id),
        account_id: String::from(account),
        title: String::from("Failed login"),
        status: String::from("stable"),
        description: String::from("Someone failed to log in"),
        ref_list: vec![String::from("https://example.org")],
        tags: vec![String::from("auth")],
        author: String::from("ops"),
        date: String::from("2024-01-02 03:04:05"),
        logsource: LogSource { category: String::from("auth"), product: String::from("linux") },
        detection: Detection {
            selection: selection.into_iter().map(|(k, v)| (String::from(k), v)).collect(),
            condition: String::from("selection"),
        },
        fields: vec![],
        falsepositives: vec![],
        level: Levels::High,
        enabled: true,
        created_at: String::from("2024-01-01T00:00:00+00:00"),
        updated_at: String::from("2024-01-01T00:00:00+00:00"),
    }
}

fn text(s: &str) -> JsonValue {
    JsonValue::Text(String::from(s))
}

#[test]
fn a_matching_rule_raises_one_alert() {
    let mut book = RuleBook::new();
    book.load(rule("rule-1", "acct-1", vec![("event_type", text("failed_login"))])).expect("a new identifier");
    let mut sink = AlertSink::new();
    let alerts =
        evaluate_log_against_rules(&book, &mut sink, &event(SYSLOG_LINE), &String::from("acct-1"))
            .expect("an evaluation");
    assert_eq!(alerts.len(), 1);
    let alert = &alerts[0];
    assert_eq!(alert.severity, "High");
    assert_eq!(alert.message, "Alert triggered: Failed login - Someone failed to log in");
    assert_eq!(alert.rule_id, "rule-1");
    assert_eq!(alert.account_id, "acct-1");
    assert!(!alert.acknowledged);
    assert_eq!(alert.case_id, None);
    assert_eq!(alert.id.len(), 36);
    assert!(alert.validate().is_ok());
    assert_eq!(sink.len(), 1);
    let stored = get_alert(&sink, &alert.id).expect("an identifier").expect("the alert");
    assert_eq!(stored.message, alert.message);
    assert_eq!(stored.created_at, alert.created_at);
}

#[test]
fn every_alert_has_its_rule_and_no_disabled_rule_has_an_alert() {
    let mut disabled = rule("rule-off", "acct-1", vec![("event_type", text("failed_login"))]);
    disabled.enabled = false;
    let mut low = rule("rule-low", "acct-1", vec![("src_ip", text("1.2.3.4"))]);
    low.level = Levels::Low;
    let mut book = RuleBook::new();
    book.load(rule("rule-1", "acct-1", vec![("event_type", text("failed_login"))])).expect("a new identifier");
    book.load(disabled).expect("a new identifier");
    book.load(rule("rule-other", "acct-2", vec![("event_type", text("failed_login"))])).expect("a new identifier");
    book.load(rule("rule-miss", "acct-1", vec![("event_type", text("successful_login"))])).expect("a new identifier");
    book.load(low).expect("a new identifier");
    let mut sink = AlertSink::new();
    let alerts =
        evaluate_log_against_rules(&book, &mut sink, &event(SYSLOG_LINE), &String::from("acct-1"))
            .expect("an evaluation");
    let raised: Vec<&str> = alerts.iter().map(|a| a.rule_id.as_str()).collect();
    assert_eq!(raised, vec!["rule-1", "rule-low"]);
    for alert in &alerts {
        let found = (0..book.len()).map(|i| book.rule_at(i)).any(|r| {
            r.id == alert.rule_id
                && r.account_id == alert.account_id
                && r.level.name() == alert.severity
                && r.enabled
        });
        assert!(found, "{}", alert.rule_id);
    }
    assert_eq!(alerts[1].severity, "Low");
    assert_eq!(sink.len(), 2);
}

#[test]
fn a_book_of_disabled_rules_raises_nothing() {
    let mut off = rule("rule-off", "acct-1", vec![]);
    off.enabled = false;
    let mut book = RuleBook::new();
    book.load(off).expect("a new identifier");
    let mut sink = AlertSink::new();
    let alerts =
        evaluate_log_against_rules(&book, &mut sink, &event(SYSLOG_LINE), &String::from("acct-1"))
            .expect("an evaluation");
    assert!(alerts.is_empty());
    assert_eq!(sink.len(), 0);
}

#[test]
fn evaluation_needs_an_account() {
    let book = RuleBook::new();
    let mut sink = AlertSink::new();
    match evaluate_log_against_rules(&book, &mut sink, &event(SYSLOG_LINE), &String::new()) {
        Err(RuleError::ValidationError(m)) => assert_eq!(m, "Account ID cannot be empty"),
        other => panic!("unexpected {:?}", other),
    }
}

#[test]
fn a_refusal_of_the_sink_breaks_the_evaluation_off() {
    let mut book = RuleBook::new();
    book.load(rule("", "acct-1", vec![])).expect("a new identifier");
    let mut sink = AlertSink::new();
    match evaluate_log_against_rules(&book, &mut sink, &event(SYSLOG_LINE), &String::from("acct-1"))
    {
        Err(RuleError::AlertCreationError(m)) => {
            assert_eq!(m, "Validation error: Rule ID cannot be empty")
        }
        other => panic!("unexpected {:?}", other),
    }
    assert_eq!(sink.len(), 0);
}

#[test]
fn raising_tells_why_the_sink_refused() {
    let mut sink = AlertSink::new();
    let r = rule("rule-1", "acct-1", vec![]);
    let first = raise_given(
        &mut sink,
        &r,
        String::from("alert-1"),
        String::from("2024-01-01T00:00:00Z"),
        true,
    )
    .expect("a good alert");
    assert_eq!(first.id, "alert-1");
    assert_eq!(first.created_at, "2024-01-01T00:00:00Z");
    match raise_given(&mut sink, &r, String::from("alert-1"), String::from("t"), true) {
        Err(RuleError::AlertCreationError(m)) => {
            assert_eq!(m, "Database error: Alert identifier already in use")
        }
        other => panic!("unexpected {:?}", other),
    }
    match raise_given(&mut sink, &r, String::from("alert-2"), String::from("t"), false) {
        Err(RuleError::AlertCreationError(m)) => {
            assert_eq!(m, "Parse error: Creation time is not in RFC 3339")
        }
        other => panic!("unexpected {:?}", other),
    }
    assert_eq!(sink.len(), 1);
}

#[test]
fn alert_for_copies_the_rule() {
    let mut r = rule("rule-9", "acct-9", vec![]);
    r.level = Levels::Critical;
    r.title = String::from("T");
    r.description = String::from("D");
    let alert = alert_for(&r, String::from("i"), String::from("now"));
    assert_eq!(alert.id, "i");
    assert_eq!(alert.rule_id, "rule-9");
    assert_eq!(alert.account_id, "acct-9");
    assert_eq!(alert.severity, "Critical");
    assert_eq!(alert.message, "Alert triggered: T - D");
    assert_eq!(alert.created_at, "now");
    assert!(!alert.acknowledged);
    assert_eq!(alert.case_id, None);
}

#[test]
fn detection_matches_when_every_field_agrees() {
    let e = event(SYSLOG_LINE);
    let hit = Detection {
        selection: vec![
            (String::from("event_type"), text("failed_login")),
            (String::from("src_ip"), text("1.2.3.4")),
            (String::from("hostname"), text("host1")),
            (String::from("priority"), JsonValue::Number(String::from("134"))),
            (String::from("dst_ip"), JsonValue::Null),
            (String::from("missing"), text("")),
            (String::from("timestamp"), text("Jan 1 00:00:00")),
        ],
        condition: String::from(" selection "),
    };
    assert!(matches_detection(&hit, &e));
    let miss = Detection {
        selection: vec![
            (String::from("event_type"), text("failed_login")),
            (String::from("hostname"), text("host2")),
        ],
        condition: String::from("selection"),
    };
    assert!(!matches_detection(&miss, &e));
    let nothing_asked = Detection { selection: vec![], condition: String::from("selection") };
    assert!(matches_detection(&nothing_asked, &e));
    let other_condition =
        Detection { selection: vec![], condition: String::from("selection and other") };
    assert!(!matches_detection(&other_condition, &e));
    let boolean = Detection {
        selection: vec![(String::from("hostname"), JsonValue::Bool(true))],
        condition: String::from("selection"),
    };
    assert!(!matches_detection(&boolean, &e));
}

#[test]
fn fields_resolve_to_attributes_or_extensions() {
    let e = event(SYSLOG_LINE);
    assert_eq!(field_value(&e, "event_type"), "failed_login");
    assert_eq!(field_value(&e, "src_ip"), "1.2.3.4");
    assert_eq!(field_value(&e, "dst_ip"), "");
    assert_eq!(field_value(&e, "timestamp"), "Jan 1 00:00:00");
    assert_eq!(field_value(&e, "hostname"), "host1");
    assert_eq!(field_value(&e, "nope"), "");
}

#[test]
fn levels_have_a_total_codec() {
    for level in [Levels::Informational, Levels::Low, Levels::Medium, Levels::High, Levels::Critical]
    {
        assert_eq!(Levels::from_name(&level.name()), level);
    }
    assert_eq!(Levels::Informational.name(), "Informational");
    assert_eq!(Levels::Critical.name(), "Critical");
    assert_eq!(Levels::from_name("high"), Levels::Low);
    assert_eq!(Levels::from_name(""), Levels::Low);
}

#[test]
fn rules_are_checked() {
    assert!(rule("r", "a", vec![]).validate().is_ok());
    let mut r = rule("r", "", vec![]);
    assert_eq!(
        r.validate().unwrap_err().message(),
        "Validation error: Account ID cannot be empty"
    );
    r = rule("r", "a", vec![]);
    r.title = String::new();
    assert_eq!(
        r.validate().unwrap_err().message(),
        "Validation error: Rule title cannot be empty"
    );
    r = rule("r", "a", vec![]);
    r.detection.condition = String::new();
    assert_eq!(
        r.validate().unwrap_err().message(),
        "Validation error: Rule condition cannot be empty"
    );
    assert_eq!(RuleError::DatabaseError(String::from("x")).message(), "Database error: x");
    assert_eq!(
        RuleError::AlertCreationError(String::from("x")).message(),
        "Alert creation error: x"
    );
    assert_eq!(
        RuleError::SerializationError(String::from("x")).message(),
        "Serialization error: x"
    );
}

#[test]
fn the_date_of_a_rule_is_written_with_slashes() {
    let r = rule("r", "a", vec![]);
    assert_eq!(r.format_sigma_date().expect("a date and time"), "2024/01/02");
    let mut bad = rule("r", "a", vec![]);
    bad.date = String::from("2024-01-02");
    match bad.format_sigma_date() {
        Err(RuleError::ValidationError(m)) => {
            assert!(m.starts_with("Invalid date format: "), "{}", m);
            assert!(m.len() > "Invalid date format: ".len());
        }
        other => panic!("unexpected {:?}", other),
    }
}

#[test]
fn the_book_creates_gets_updates_lists_and_deletes() {
    let mut book = RuleBook::new();
    let mut draft = rule("ignored", "acct-1", vec![("event_type", text("x"))]);
    draft.enabled = false;
    create_rule(&mut book, &draft).expect("a good rule");
    create_rule(&mut book, &rule("ignored", "acct-2", vec![])).expect("a good rule");
    assert_eq!(book.len(), 2);
    let stored = book.rule_at(0).clone();
    assert_eq!(stored.id.len(), 36);
    assert_ne!(stored.id, book.rule_at(1).id);
    assert!(stored.enabled);
    assert_eq!(stored.date, "2024/01/02");
    assert_eq!(stored.created_at, stored.updated_at);
    assert_eq!(stored.title, "Failed login");
    assert_eq!(stored.tags, vec!["auth"]);
    assert_eq!(stored.detection.selection.len(), 1);

    let got = get_rule(&book, &stored.id).expect("an identifier").expect("the rule");
    assert_eq!(got.account_id, "acct-1");
    assert!(get_rule(&book, &String::from("nope")).expect("an identifier").is_none());
    assert!(matches!(get_rule(&book, &String::new()), Err(RuleError::ValidationError(_))));

    let mut change = stored.clone();
    change.title = String::from("New title");
    change.enabled = false;
    change.created_at = String::from("tampered");
    update_rule_at(&mut book, &change, String::from("later")).expect("a good rule");
    let updated = get_rule(&book, &stored.id).expect("an identifier").expect("the rule");
    assert_eq!(updated.title, "New title");
    assert!(!updated.enabled);
    assert_eq!(updated.created_at, stored.created_at);
    assert_eq!(updated.updated_at, "later");
    update_rule(&mut book, &change).expect("a good rule");
    assert_ne!(book.rule_at(0).updated_at, "later");
    change.title = String::new();
    assert!(update_rule(&mut book, &change).is_err());
    assert_eq!(book.rule_at(0).title, "New title");

    let listed = list_rules(&book, &String::from("acct-2")).expect("an account");
    assert_eq!(listed.len(), 1);
    assert_eq!(listed[0].account_id, "acct-2");
    assert!(matches!(list_rules(&book, &String::new()), Err(RuleError::ValidationError(_))));

    delete_rule(&mut book, &stored.id).expect("an identifier");
    assert_eq!(book.len(), 1);
    assert_eq!(book.rule_at(0).account_id, "acct-2");
    assert!(matches!(delete_rule(&mut book, &String::new()), Err(RuleError::ValidationError(_))));
}

#[test]
fn the_book_refuses_bad_rules_and_used_identifiers() {
    let mut book = RuleBook::new();
    let good = rule("r", "acct-1", vec![]);
    create_rule_with(&mut book, &good, String::from("id-1"), String::from("now"), Ok(String::from("d")))
        .expect("a good rule");
    assert_eq!(book.rule_at(0).id, "id-1");
    assert_eq!(book.rule_at(0).date, "d");
    assert_eq!(book.rule_at(0).created_at, "now");
    match create_rule_with(&mut book, 
        &good,
        String::from("id-1"),
        String::from("now"),
        Ok(String::from("d")),
    ) {
        Err(RuleError::DatabaseError(m)) => assert_eq!(m, "Rule identifier already in use"),
        other => panic!("unexpected {:?}", other),
    }
    match create_rule_with(&mut book, 
        &good,
        String::from("id-2"),
        String::from("now"),
        Err(String::from("bad")),
    ) {
        Err(RuleError::ValidationError(m)) => assert_eq!(m, "Invalid date format: bad"),
        other => panic!("unexpected {:?}", other),
    }
    let mut bad = rule("r", "acct-1", vec![]);
    bad.date = String::from("yesterday");
    assert!(matches!(create_rule(&mut book, &bad), Err(RuleError::ValidationError(_))));
    assert_eq!(book.len(), 1);
}

#[test]
fn alerts_are_checked_and_kept() {
    let mut sink = AlertSink::new();
    let good = Alert {
        id: String::from("a-1"),
        rule_id: String::from("r-1"),
        account_id: String::from("acct-1"),
        severity: String::from("High"),
        message: String::from("m"),
        acknowledged: false,
        case_id: None,
        created_at: String::from("2024-01-01T00:00:00+00:00"),
    };
    sink.append(good.clone()).expect("a good alert");
    match sink.append(good.clone()) {
        Err(AlertError::DatabaseError(m)) => assert_eq!(m, "Alert identifier already in use"),
        other => panic!("unexpected {:?}", other),
    }
    let checks = [
        (Alert { rule_id: String::new(), ..good.clone() }, "Validation error: Rule ID cannot be empty"),
        (
            Alert { account_id: String::new(), ..good.clone() },
            "Validation error: Account ID cannot be empty",
        ),
        (Alert { message: String::new(), ..good.clone() }, "Validation error: Message cannot be empty"),
        (
            Alert { created_at: String::from("yesterday"), ..good.clone() },
            "Parse error: Creation time is not in RFC 3339",
        ),
    ];
    for (alert, expected) in checks {
        assert_eq!(alert.validate().unwrap_err().message(), expected);
        assert_eq!(sink.append(alert).unwrap_err().message(), expected);
    }
    assert_eq!(sink.len(), 1);

    let second = Alert { id: String::from("a-2"), account_id: String::from("acct-2"), ..good.clone() };
    sink.append(second).expect("a good alert");
    assert!(sink.knows("a-2"));
    assert_eq!(list_alerts(&sink, &String::from("acct-1")).expect("an account").len(), 1);
    assert!(matches!(list_alerts(&sink, &String::new()), Err(AlertError::ValidationError(_))));

    assert!(acknowledge_alert(&mut sink, &String::from("a-1")).expect("an identifier"));
    assert!(!acknowledge_alert(&mut sink, &String::from("nope")).expect("an identifier"));
    assert!(matches!(acknowledge_alert(&mut sink, &String::new()), Err(AlertError::ValidationError(_))));
    let first = get_alert(&sink, &String::from("a-1")).expect("an identifier").expect("the alert");
    assert!(first.acknowledged);
    assert_eq!(first.case_id, None);
    let other = get_alert(&sink, &String::from("a-2")).expect("an identifier").expect("the alert");
    assert!(!other.acknowledged);

    assert!(update_alert_case_id(&mut sink, "a-1", "case-7").expect("an identifier"));
    assert!(!update_alert_case_id(&mut sink, "nope", "case-7").expect("an identifier"));
    assert!(update_alert_case_id(&mut sink, "", "case-7").is_err());
    let first = get_alert(&sink, &String::from("a-1")).expect("an identifier").expect("the alert");
    assert!(first.acknowledged);
    assert_eq!(first.case_id.as_deref(), Some("case-7"));
    assert!(matches!(get_alert(&sink, &String::new()), Err(AlertError::ValidationError(_))));

    assert!(delete_alert(&mut sink, &String::from("a-1")).expect("an identifier"));
    assert!(!delete_alert(&mut sink, &String::from("a-1")).expect("an identifier"));
    assert!(matches!(delete_alert(&mut sink, &String::new()), Err(AlertError::ValidationError(_))));
    assert_eq!(sink.len(), 1);
    assert!(get_alert(&sink, &String::from("a-1")).expect("an identifier").is_none());
}

#[test]
fn severities_are_read_whatever_their_case() {
    assert_eq!(AlertSeverity::from(String::from("HIGH")), AlertSeverity::High);
    assert_eq!(AlertSeverity::from(String::from("medium")), AlertSeverity::Medium);
    assert_eq!(AlertSeverity::from(String::from("Low")), AlertSeverity::Low);
    assert_eq!(AlertSeverity::from(String::from("critical")), AlertSeverity::Low);
    assert_eq!(AlertSeverity::from(String::from("h\u{130}gh")), AlertSeverity::Low);
    assert_eq!(AlertSeverity::High.name(), "High");
    assert_eq!(AlertSeverity::Medium.name(), "Medium");
    assert_eq!(AlertSeverity::Low.name(), "Low");
}

#[test]
fn a_new_alert_gets_its_own_identifier_and_time() {
    let mut sink = AlertSink::new();
    let draft = Alert {
        id: String::from("ignored"),
        rule_id: String::from("r-1"),
        account_id: String::from("acct-1"),
        severity: String::from("Medium"),
        message: String::from("m"),
        acknowledged: true,
        case_id: Some(String::from("case")),
        created_at: String::from("ignored"),
    };
    let stored = create_alert(&mut sink, &draft).expect("a good alert");
    assert_eq!(stored.id.len(), 36);
    assert_eq!(stored.rule_id, "r-1");
    assert_eq!(stored.account_id, "acct-1");
    assert_eq!(stored.severity, "Medium");
    assert_eq!(stored.message, "m");
    assert!(!stored.acknowledged);
    assert_eq!(stored.case_id, None);
    assert!(stored.validate().is_ok());
    assert_eq!(sink.len(), 1);
    assert_eq!(alert_has_case(&sink, &stored.id).expect("an identifier"), None);
    assert!(update_alert_case_id(&mut sink, &stored.id, "case-1").expect("an identifier"));
    assert_eq!(
        alert_has_case(&sink, &stored.id).expect("an identifier").as_deref(),
        Some("case-1")
    );
    assert_eq!(alert_has_case(&sink, &String::from("nope")).expect("an identifier"), None);
    assert!(alert_has_case(&sink, &String::new()).is_err());
    let nameless = Alert { rule_id: String::new(), ..draft.clone() };
    assert!(create_alert(&mut sink, &nameless).is_err());
    let given =
        create_alert_with(&mut sink, &draft, String::from("a-7"), String::from("t"), true)
            .expect("a good alert");
    assert_eq!(given.id, "a-7");
    assert_eq!(given.created_at, "t");
    assert!(create_alert_with(&mut sink, &draft, String::from("a-7"), String::from("t"), true)
        .is_err());
    assert!(create_alert_with(&mut sink, &draft, String::from("a-8"), String::from("t"), false)
        .is_err());
    assert_eq!(sink.len(), 2);
}

#[test]
fn a_detection_describes_itself() {
    let detection = Detection {
        selection: vec![
            (String::from("event_type"), text("failed \"login\"")),
            (String::from("n"), JsonValue::Number(String::from("5"))),
            (String::from("b"), JsonValue::Bool(false)),
            (String::from("z"), JsonValue::Null),
            (String::from("l"), JsonValue::Nested(String::from("[1]"))),
        ],
        condition: String::from("selection"),
    };
    assert_eq!(
        detection.describe(),
        "Selection: {\n event_type: \"failed \\\"login\\\"\",\n n: 5,\n b: false,\n z: null,\n l: [1],\n}\nCondition: selection"
    );
    let empty = Detection { selection: vec![], condition: String::new() };
    assert_eq!(empty.describe(), "Selection: {\n}\nCondition: ");
    assert_eq!(JsonValue::Bool(true).write(), "true");
}

#[test]
fn a_faulty_alert_is_refused_with_its_fault_and_nothing_is_stored() {
    let mut sink = AlertSink::new();
    let good = Alert {
        id: String::new(),
        rule_id: String::from("r-1"),
        account_id: String::from("acct-1"),
        severity: String::from("High"),
        message: String::from("m"),
        acknowledged: false,
        case_id: None,
        created_at: String::new(),
    };
    let no_rule = Alert { rule_id: String::new(), account_id: String::new(), ..good.clone() };
    match create_alert(&mut sink, &no_rule) {
        Err(AlertError::ValidationError(m)) => assert_eq!(m, "Rule ID cannot be empty"),
        _ => panic!("an alert without a rule was taken"),
    }
    let no_account = Alert { account_id: String::new(), message: String::new(), ..good.clone() };
    match create_alert(&mut sink, &no_account) {
        Err(AlertError::ValidationError(m)) => assert_eq!(m, "Account ID cannot be empty"),
        _ => panic!("an alert without an account was taken"),
    }
    let no_message = Alert { message: String::new(), ..good.clone() };
    match create_alert(&mut sink, &no_message) {
        Err(AlertError::ValidationError(m)) => assert_eq!(m, "Message cannot be empty"),
        _ => panic!("an alert without a message was taken"),
    }
    assert_eq!(sink.len(), 0);
    let first = create_alert(&mut sink, &good).expect("a good alert");
    let second = create_alert(&mut sink, &good).expect("a good alert");
    assert_ne!(first.id, second.id);
    let all = list_alerts(&sink, &String::from("acct-1")).expect("an account");
    assert_eq!(all.len(), 2);
    assert_eq!(all[0].id, first.id);
    assert_eq!(all[1].id, second.id);
}

#[test]
fn the_book_takes_no_identifier_twice() {
    let mut book = RuleBook::new();
    let mut off = rule("rule-1", "acct-1", vec![("event_type", text("failed_login"))]);
    off.enabled = false;
    book.load(off).expect("a new identifier");
    match book.load(rule("rule-1", "acct-1", vec![("event_type", text("failed_login"))])) {
        Err(RuleError::DatabaseError(m)) => assert_eq!(m, "Rule identifier already in use"),
        other => panic!("unexpected {:?}", other),
    }
    assert_eq!(book.len(), 1);
    match create_rule_with(
        &mut book,
        &rule("", "acct-1", vec![]),
        String::from("rule-1"),
        String::from("2024-01-01T00:00:00+00:00"),
        Ok(String::from("2024/01/02")),
    ) {
        Err(RuleError::DatabaseError(m)) => assert_eq!(m, "Rule identifier already in use"),
        other => panic!("unexpected {:?}", other),
    }
    assert_eq!(book.len(), 1);
    let mut sink = AlertSink::new();
    let alerts =
        evaluate_log_against_rules(&book, &mut sink, &event(SYSLOG_LINE), &String::from("acct-1"))
            .expect("an evaluation");
    assert!(alerts.is_empty());
    assert_eq!(sink.len(), 0);
}
