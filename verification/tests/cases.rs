use backend::alert::{get_alert, Alert, AlertSink};
use backend::case_comments::{
    create_comment, create_comment_with, update_comment_at, CaseComment, CaseCommentError,
};
use backend::cases::{
    add_observable, add_observable_at, alert_of_observable, create_case, create_case_with,
    delete_case, delete_observable, delete_observable_at, get_case, get_cases_by_account,
    update_case, update_case_at, Case, CaseBook, CaseError, CaseSeverity, CaseStatus, Observable,
};
use backend::json::JsonValue;

fn observable(kind: &str, value: &str) -> Observable {
    Observable { observable_type: String::from(kind), value: String::from(value) }
}

fn kinds(case: &Case) -> Vec<(String, String)> {
    case.observables.iter().map(|o| (o.observable_type.clone(), o.value.clone())).collect()
}

fn alert(id: &str) -> Alert {
    Alert {
        id: String::from(id),
        rule_id: String::from("r"),
        account_id: String::from("acct-1"),
        severity: String::from("Low"),
        message: String::from("m"),
        acknowledged: false,
        case_id: None,
        created_at: String::from("2024-01-01T00:00:00Z"),
    }
}

#[test]
fn a_case_is_opened_blank() {
    let mut book = CaseBook::new();
    let case = create_case_with(&mut book, "acct-1", String::from("case-1"), String::from("now"))
        .expect("an account");
    assert_eq!(case.id, "case-1");
    assert_eq!(case.account_id, "acct-1");
    assert_eq!(case.title, "New Investigation");
    assert_eq!(case.description, "New security investigation case");
    assert_eq!(case.severity, "Low");
    assert_eq!(case.status, "InProgress");
    assert_eq!(case.category, "Security Investigation");
    assert_eq!(case.analyst_assigned, "Unassigned");
    assert!(case.observables.is_empty());
    assert_eq!(case.created_at, "now");
    assert_eq!(case.updated_at, "now");
    assert_eq!(book.len(), 1);
    assert_eq!(book.case_at(0).id, "case-1");
    match create_case(&mut book, "") {
        Err(CaseError::ValidationError(m)) => assert_eq!(m, "Account ID cannot be empty"),
        other => panic!("unexpected {:?}", other),
    }
    assert_eq!(book.len(), 1);
    let fresh = create_case(&mut book, "acct-1").expect("an account");
    assert_eq!(fresh.id.len(), 36);
    assert_eq!(fresh.created_at, fresh.updated_at);
    assert_eq!(book.len(), 2);
    let blank = Case::default();
    assert_eq!(blank.account_id, "");
    assert_eq!(blank.title, "New Investigation");
    assert_eq!(
        blank.validate().unwrap_err().message(),
        "Validation error: Account ID cannot be empty"
    );
    let mut unassigned = blank.clone();
    unassigned.account_id = String::from("acct");
    assert_eq!(
        unassigned.validate().unwrap_err().message(),
        "Validation error: Analyst must be assigned"
    );
    assert_eq!(CaseError::DatabaseError(String::from("x")).message(), "Database error: x");
    assert_eq!(
        CaseError::SerializationError(String::from("x")).message(),
        "Serialization error: x"
    );
}

#[test]
fn the_case_file_takes_no_identifier_twice_and_no_faulty_case() {
    let mut book = CaseBook::new();
    create_case_with(&mut book, "acct-1", String::from("c-1"), String::from("t")).expect("ok");
    match create_case_with(&mut book, "acct-2", String::from("c-1"), String::from("t")) {
        Err(CaseError::DatabaseError(m)) => assert_eq!(m, "Case identifier already in use"),
        other => panic!("unexpected {:?}", other),
    }
    match book.load(Case::default()) {
        Err(CaseError::ValidationError(m)) => assert_eq!(m, "Account ID cannot be empty"),
        other => panic!("unexpected {:?}", other),
    }
    create_case_with(&mut book, "acct-2", String::from("c-2"), String::from("t")).expect("ok");
    create_case_with(&mut book, "acct-1", String::from("c-3"), String::from("t")).expect("ok");
    assert_eq!(book.len(), 3);
    assert!(book.knows("c-2"));
    assert!(!book.knows("c-4"));
    let mine: Vec<String> =
        get_cases_by_account(&book, "acct-1").iter().map(|c| c.id.clone()).collect();
    assert_eq!(mine, vec!["c-1", "c-3"]);
    assert!(get_cases_by_account(&book, "nobody").is_empty());
    assert_eq!(get_case(&book, "c-2").expect("on file").account_id, "acct-2");
    assert!(get_case(&book, "c-4").is_none());
    assert!(delete_case(&mut book, "c-1"));
    assert!(!delete_case(&mut book, "c-1"));
    assert_eq!(book.len(), 2);
    assert_eq!(book.case_at(0).id, "c-2");
    assert_eq!(book.case_at(1).id, "c-3");
}

#[test]
fn observables_come_and_go() {
    let mut book = CaseBook::new();
    let mut sink = AlertSink::new();
    create_case_with(&mut book, "acct-1", String::from("c"), String::from("t")).expect("ok");
    create_case_with(&mut book, "acct-1", String::from("other"), String::from("t")).expect("ok");
    for (kind, value) in
        [("ip", "10.0.0.1"), ("domain", "example.org"), ("ip", "10.0.0.1"), ("ip", "10.0.0.2")]
    {
        add_observable_at(&mut book, &mut sink, "c", observable(kind, value), String::from("t1"))
            .expect("on file");
    }
    let case = get_case(&book, "c").expect("on file");
    assert_eq!(case.observables.len(), 4);
    assert_eq!(case.updated_at, "t1");
    assert_eq!(case.created_at, "t");
    delete_observable_at(&mut book, &mut sink, "c", observable("ip", "10.0.0.1"), String::from("t2"))
        .expect("on file");
    let case = get_case(&book, "c").expect("on file");
    assert_eq!(
        kinds(&case),
        vec![
            (String::from("domain"), String::from("example.org")),
            (String::from("ip"), String::from("10.0.0.2"))
        ]
    );
    assert_eq!(case.updated_at, "t2");
    delete_observable(&mut book, &mut sink, "c", observable("ip", "example.org")).expect("on file");
    let case = get_case(&book, "c").expect("on file");
    assert_eq!(case.observables.len(), 2);
    assert_eq!(case.title, "New Investigation");
    add_observable(&mut book, &mut sink, "c", observable("host", "h")).expect("on file");
    assert_eq!(get_case(&book, "c").expect("on file").observables.len(), 3);
    let other = get_case(&book, "other").expect("on file");
    assert!(other.observables.is_empty());
    assert_eq!(other.updated_at, "t");
}

#[test]
fn a_case_that_is_not_on_file_has_no_observables_to_change() {
    let mut book = CaseBook::new();
    let mut sink = AlertSink::new();
    create_case_with(&mut book, "acct-1", String::from("c"), String::from("t")).expect("ok");
    add_observable(&mut book, &mut sink, "c", observable("ip", "10.0.0.1")).expect("on file");
    match delete_observable(&mut book, &mut sink, "missing", observable("ip", "10.0.0.1")) {
        Err(CaseError::ValidationError(m)) => assert_eq!(m, "Case not found"),
        other => panic!("unexpected {:?}", other),
    }
    match add_observable(&mut book, &mut sink, "missing", observable("ip", "10.0.0.1")) {
        Err(CaseError::ValidationError(m)) => assert_eq!(m, "Case not found"),
        other => panic!("unexpected {:?}", other),
    }
    assert_eq!(book.len(), 1);
    assert_eq!(get_case(&book, "c").expect("on file").observables.len(), 1);
}

#[test]
fn updating_a_case_attaches_its_alerts() {
    let mut sink = AlertSink::new();
    for id in ["a-1", "a-2", "a-3"] {
        sink.append(alert(id)).expect("a good alert");
    }
    let mut book = CaseBook::new();
    let mut case = create_case_with(&mut book, "acct-1", String::from("case-1"), String::from("t"))
        .expect("ok");
    for (kind, value) in [
        ("alert", "{\"alert_id\":\"a-1\"}"),
        ("ip", "{\"alert_id\":\"a-2\"}"),
        ("alert", "not json"),
        ("alert", "{\"alert_id\":5}"),
        ("alert", "{\"alert_id\":\"\"}"),
        ("alert", "{\"alert_id\":\"unknown\"}"),
        ("alert", "{\"alert_id\":\"a-3\",\"more\":[1]}"),
    ] {
        case.observables.push(observable(kind, value));
    }
    case.title = String::from("Break-in");
    case.account_id = String::from("someone else");
    update_case_at(&mut book, &mut sink, &case, String::from("later")).expect("a good case");
    let attached: Vec<Option<String>> = ["a-1", "a-2", "a-3"]
        .iter()
        .map(|id| get_alert(&sink, &String::from(*id)).expect("id").expect("alert").case_id)
        .collect();
    assert_eq!(attached, vec![Some(String::from("case-1")), None, Some(String::from("case-1"))]);
    let stored = get_case(&book, "case-1").expect("on file");
    assert_eq!(stored.title, "Break-in");
    assert_eq!(stored.account_id, "acct-1");
    assert_eq!(stored.created_at, "t");
    assert_eq!(stored.updated_at, "later");
    assert_eq!(stored.observables.len(), 7);
    case.analyst_assigned = String::new();
    assert!(matches!(
        update_case(&mut book, &mut sink, &case),
        Err(CaseError::ValidationError(_))
    ));
    assert_eq!(get_case(&book, "case-1").expect("on file").analyst_assigned, "Unassigned");
    case.analyst_assigned = String::from("kim");
    update_case(&mut book, &mut sink, &case).expect("a good case");
    assert_eq!(get_case(&book, "case-1").expect("on file").analyst_assigned, "kim");
}

#[test]
fn adding_an_observable_that_names_an_alert_attaches_the_alert() {
    let mut sink = AlertSink::new();
    sink.append(alert("a-1")).expect("a good alert");
    let mut book = CaseBook::new();
    create_case_with(&mut book, "acct-1", String::from("case-1"), String::from("t")).expect("ok");
    add_observable(&mut book, &mut sink, "case-1", observable("alert", "{\"alert_id\":\"a-1\"}"))
        .expect("on file");
    let attached = get_alert(&sink, &String::from("a-1")).expect("id").expect("alert").case_id;
    assert_eq!(attached.as_deref(), Some("case-1"));
}

#[test]
fn an_observable_names_an_alert() {
    let members = Ok(vec![(String::from("alert_id"), JsonValue::Text(String::from("a-9")))]);
    assert_eq!(alert_of_observable(&observable("alert", ""), &members).as_deref(), Some("a-9"));
    assert_eq!(alert_of_observable(&observable("Alert", ""), &members), None);
    assert_eq!(alert_of_observable(&observable("alert", ""), &Err(String::from("bad"))), None);
    assert_eq!(alert_of_observable(&observable("alert", ""), &Ok(vec![])), None);
}

#[test]
fn case_severities_and_statuses() {
    assert_eq!(CaseSeverity::from(String::from("HIGH")), CaseSeverity::High);
    assert_eq!(CaseSeverity::from(String::from("Medium")), CaseSeverity::Medium);
    assert_eq!(CaseSeverity::from(String::from("low")), CaseSeverity::Low);
    assert_eq!(CaseSeverity::from(String::from("other")), CaseSeverity::Low);
    assert_eq!(CaseSeverity::High.name(), "High");
    assert_eq!(CaseSeverity::Medium.name(), "Medium");
    assert_eq!(CaseSeverity::Low.name(), "Low");
    assert_eq!(CaseStatus::from(String::from("CLOSED")), CaseStatus::Closed);
    assert_eq!(CaseStatus::from(String::from("hold")), CaseStatus::Hold);
    assert_eq!(CaseStatus::from(String::from("InProgress")), CaseStatus::InProgress);
    assert_eq!(CaseStatus::from(String::from("other")), CaseStatus::InProgress);
    assert_eq!(CaseStatus::InProgress.name(), "InProgress");
    assert_eq!(CaseStatus::Closed.name(), "Closed");
    assert_eq!(CaseStatus::Hold.name(), "Hold");
}

#[test]
fn comments() {
    let comment = create_comment_with("case-1", "first", String::from("c-1"), String::from("t0"))
        .expect("a text");
    assert_eq!(comment.id, "c-1");
    assert_eq!(comment.case_id, "case-1");
    assert_eq!(comment.comment, "first");
    assert_eq!(comment.created_at, "t0");
    assert_eq!(comment.updated_at, "t0");
    match create_comment("case-1", "") {
        Err(CaseCommentError::ValidationError(m)) => assert_eq!(m, "Comment cannot be empty"),
        other => panic!("unexpected {:?}", other),
    }
    let fresh = create_comment("case-1", "text").expect("a text");
    assert_eq!(fresh.id.len(), 36);
    let mut changed = comment;
    changed.comment = String::from("second");
    let updated = update_comment_at(&changed, String::from("t1")).expect("a text");
    assert_eq!(updated.comment, "second");
    assert_eq!(updated.created_at, "t0");
    assert_eq!(updated.updated_at, "t1");
    changed.comment = String::new();
    assert_eq!(
        update_comment_at(&changed, String::from("t2")).unwrap_err().message(),
        "Validation error: Comment cannot be empty"
    );
    let blank = CaseComment::default();
    assert_eq!(blank.comment, "");
    assert_eq!(blank.case_id, "");
    assert_eq!(
        CaseCommentError::DatabaseError(String::from("x")).message(),
        "Database error: x"
    );
}
