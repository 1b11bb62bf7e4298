use backend::log::{
    create_log, create_log_with, get_all_logs, get_query_logs, InsertOutcome, Log, LogError,
    LogStore,
};
use backend::log_parser::{normalize, NormalizedLog};
use sha2::{Digest, Sha256};

const CEF_LINE: &str = "CEF:0|VendorX|ProdY|1.0|1001|Login Failure|Medium|src=10.0.0.1 dst=10.0.0.2 rt=2024-01-01T00:00:00Z msg=\"bad pwd\"";
const SYSLOG_LINE: &str =
    "<134>Jan  1 00:00:00 host1 sshd[123]: Failed password for root from 1.2.3.4 port 22 ssh2";

fn event(line: &str, account: &str) -> NormalizedLog {
    normalize(line, &String::from(account), &String::from("host-1")).expect("a known line")
}

fn sha256_hex(text: &str) -> String {
    let mut hasher = Sha256::new();
    hasher.update(text.as_bytes());
    hasher.finalize().iter().map(|b| format!("{:02x}", b)).collect()
}

fn inserted(outcome: Result<InsertOutcome, LogError>) -> Log {
    match outcome {
        Ok(InsertOutcome::Inserted(log)) => log,
        other => panic!("unexpected {:?}", other),
    }
}

#[test]
fn hash_is_sha256_of_the_text() {
    let log = Log {
        id: String::from("i"),
        hash: String::new(),
        account_id: String::from("a"),
        host_id: String::from("h"),
        timestamp: None,
        log_data: String::from("abc"),
    };
    assert_eq!(
        log.calculate_hash(),
        "ba7816bf8f01cfea414140de5dae2223b00361a396177a9cb410ff61f20015ad"
    );
    let empty = Log { log_data: String::new(), ..log.clone() };
    assert_eq!(
        empty.calculate_hash(),
        "e3b0c44298fc1c149afbf4c8996fb92427ae41e4649b934ca495991b7852b855"
    );
}

#[test]
fn insert_then_duplicate() {
    let mut store = LogStore::new();
    let e = event(CEF_LINE, "acct-1");
    let log = inserted(store.insert(&e));
    assert_eq!(log.id.len(), 36);
    assert_eq!(log.account_id, "acct-1");
    assert_eq!(log.host_id, "host-1");
    assert_eq!(log.timestamp.as_deref(), Some("2024-01-01T00:00:00Z"));
    assert_eq!(log.log_data, e.canonical_json());
    assert_eq!(log.hash, sha256_hex(&e.canonical_json()));
    assert_eq!(log.hash.len(), 64);
    assert!(log.hash.chars().all(|c| c.is_ascii_digit() || ('a'..='f').contains(&c)));
    assert_eq!(store.len(), 1);
    assert!(matches!(store.insert(&e), Ok(InsertOutcome::Duplicate)));
    assert_eq!(store.len(), 1);
    assert!(store.contains_hash("acct-1", &log.hash));
    assert!(!store.contains_hash("acct-2", &log.hash));
    assert!(store.contains_id(&log.id));
}

#[test]
fn same_text_in_another_account_is_stored_again() {
    let mut store = LogStore::new();
    let first = inserted(store.insert(&event("{\"event\":\"a\"}", "acct-1")));
    let second = inserted(store.insert(&event("{\"event\":\"a\"}", "acct-2")));
    assert_ne!(first.id, second.id);
    assert_ne!(first.hash, second.hash);
    assert_eq!(store.len(), 2);
}

#[test]
fn no_two_records_of_an_account_share_a_text() {
    let mut store = LogStore::new();
    for line in [CEF_LINE, SYSLOG_LINE, CEF_LINE, "{\"event\":\"a\"}", SYSLOG_LINE, CEF_LINE] {
        let _ = store.insert(&event(line, "acct-1")).expect("valid events");
    }
    assert_eq!(store.len(), 3);
    for i in 0..store.len() {
        for j in 0..store.len() {
            if i != j {
                assert_ne!(store.get(i).log_data, store.get(j).log_data);
                assert_ne!(store.get(i).hash, store.get(j).hash);
                assert_ne!(store.get(i).id, store.get(j).id);
            }
        }
        assert_eq!(store.get(i).hash, sha256_hex(&store.get(i).log_data));
    }
}

#[test]
fn an_identifier_in_use_is_refused() {
    let mut store = LogStore::new();
    let first = store.insert_with_id(&event(CEF_LINE, "acct-1"), String::from("id-1"));
    assert_eq!(inserted(first).id, "id-1");
    match store.insert_with_id(&event(SYSLOG_LINE, "acct-1"), String::from("id-1")) {
        Err(LogError::DatabaseError(m)) => assert_eq!(m, "Log identifier already in use"),
        other => panic!("unexpected {:?}", other),
    }
    assert_eq!(store.len(), 1);
    assert!(matches!(
        store.insert_with_id(&event(CEF_LINE, "acct-1"), String::from("id-1")),
        Ok(InsertOutcome::Duplicate)
    ));
}

#[test]
fn an_event_without_account_or_host_is_refused() {
    let mut store = LogStore::new();
    let no_account =
        normalize(CEF_LINE, &String::new(), &String::from("h")).expect("a CEF line");
    match store.insert(&no_account) {
        Err(LogError::ValidationError(m)) => assert_eq!(m, "Account ID cannot be empty"),
        other => panic!("unexpected {:?}", other),
    }
    let no_host = normalize(CEF_LINE, &String::from("a"), &String::new()).expect("a CEF line");
    match store.insert(&no_host) {
        Err(LogError::ValidationError(m)) => assert_eq!(m, "Host ID cannot be empty"),
        other => panic!("unexpected {:?}", other),
    }
    assert_eq!(store.len(), 0);
}

#[test]
fn records_validate_their_origin() {
    let good = Log {
        id: String::new(),
        hash: String::new(),
        account_id: String::from("a"),
        host_id: String::from("h"),
        timestamp: None,
        log_data: String::new(),
    };
    assert!(good.validate().is_ok());
    let no_account = Log { account_id: String::new(), ..good.clone() };
    assert_eq!(
        no_account.validate().unwrap_err().message(),
        "Validation error: Account ID cannot be empty"
    );
    let no_host = Log { host_id: String::new(), ..good.clone() };
    assert_eq!(
        no_host.validate().unwrap_err().message(),
        "Validation error: Host ID cannot be empty"
    );
    assert_eq!(
        LogError::DatabaseError(String::from("x")).message(),
        "Database error: x"
    );
}

#[test]
fn get_all_keeps_the_order_of_storing() {
    let mut store = LogStore::new();
    inserted(store.insert(&event("{\"event\":\"a\"}", "acct-1")));
    inserted(store.insert(&event("{\"event\":\"x\"}", "acct-2")));
    inserted(store.insert(&event("{\"event\":\"b\"}", "acct-1")));
    let logs = get_all_logs(&store, &String::from("acct-1")).expect("an account");
    assert_eq!(logs.len(), 2);
    assert!(logs[0].log_data.contains("\"event_type\":\"a\""));
    assert!(logs[1].log_data.contains("\"event_type\":\"b\""));
    assert_eq!(store.get_all("acct-3").len(), 0);
    match get_all_logs(&store, &String::new()) {
        Err(LogError::ValidationError(m)) => assert_eq!(m, "Account ID cannot be empty"),
        other => panic!("unexpected {:?}", other),
    }
}

#[test]
fn query_results_come_newest_first() {
    let mut store = LogStore::new();
    for (stamp, name) in [("2024-01-02", "b"), ("2024-01-03", "c"), ("2024-01-01", "a")] {
        let line = format!("{{\"time\":\"{}\",\"event\":\"{}\",\"kind\":\"k\"}}", stamp, name);
        inserted(store.insert(&event(&line, "acct-1")));
    }
    inserted(store.insert(&event("{\"event\":\"none\",\"kind\":\"k\"}", "acct-1")));
    inserted(store.insert(&event("{\"time\":\"2024-01-09\",\"kind\":\"k\"}", "acct-2")));
    let logs = get_query_logs(&store, "acct-1", "kind = \"k\"", None, None).expect("a query");
    let stamps: Vec<Option<String>> = logs.iter().map(|l| l.timestamp.clone()).collect();
    assert_eq!(
        stamps,
        vec![
            Some(String::from("2024-01-03")),
            Some(String::from("2024-01-02")),
            Some(String::from("2024-01-01")),
            None
        ]
    );
    let windowed = get_query_logs(
        &store,
        "acct-1",
        "kind = \"k\"",
        Some(String::from("2024-01-02")),
        Some(String::from("2024-01-03")),
    )
    .expect("a query");
    assert_eq!(windowed.len(), 2);
    assert_eq!(windowed[0].timestamp.as_deref(), Some("2024-01-03"));
    assert_eq!(windowed[1].timestamp.as_deref(), Some("2024-01-02"));
    let half_open =
        get_query_logs(&store, "acct-1", "kind = \"k\"", Some(String::from("2024-01-02")), None)
            .expect("a query");
    assert_eq!(half_open.len(), 4);
}

#[test]
fn query_failures_come_back_as_validation_failures() {
    let store = LogStore::new();
    match get_query_logs(&store, "acct-1", "a = \"b", None, None) {
        Err(LogError::ValidationError(m)) => {
            assert_eq!(m, "Parse error: Unterminated string literal")
        }
        other => panic!("unexpected {:?}", other),
    }
    match get_query_logs(&store, "acct-1", "a = \"b\" OR c = \"d\"", None, None) {
        Err(LogError::ValidationError(m)) => assert_eq!(
            m,
            "Query build error: Complex queries with OR or parentheses not yet supported"
        ),
        other => panic!("unexpected {:?}", other),
    }
}

#[test]
fn a_draft_is_stored_under_the_hash_of_its_text() {
    let mut store = LogStore::new();
    let draft = Log {
        id: String::from("ignored"),
        hash: String::from("temp_hash"),
        account_id: String::from("acct-1"),
        host_id: String::from("host-1"),
        timestamp: Some(String::from("t")),
        log_data: String::from("abc"),
    };
    let stored = create_log(&mut store, &draft).expect("a good draft").expect("a new text");
    assert_eq!(stored.id.len(), 36);
    assert_eq!(stored.hash, "ba7816bf8f01cfea414140de5dae2223b00361a396177a9cb410ff61f20015ad");
    assert_eq!(stored.account_id, "acct-1");
    assert_eq!(stored.host_id, "host-1");
    assert_eq!(stored.timestamp.as_deref(), Some("t"));
    assert_eq!(stored.log_data, "abc");
    assert!(create_log(&mut store, &draft).expect("a good draft").is_none());
    assert_eq!(store.len(), 1);
    let other = Log { log_data: String::from("abd"), ..draft.clone() };
    match create_log_with(&mut store, &other, stored.id.clone()) {
        Err(LogError::DatabaseError(m)) => assert_eq!(m, "Log identifier already in use"),
        other => panic!("unexpected {:?}", other),
    }
    let kept = create_log_with(&mut store, &other, String::from("id-2"))
        .expect("a good draft")
        .expect("a new text");
    assert_eq!(kept.id, "id-2");
    let homeless = Log { host_id: String::new(), ..draft.clone() };
    assert!(matches!(create_log(&mut store, &homeless), Err(LogError::ValidationError(_))));
    assert_eq!(store.len(), 2);
}
