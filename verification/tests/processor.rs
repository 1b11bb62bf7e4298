use backend::alert::list_alerts;
use backend::batch_maker::{create_batches, make_batches_of, raw_lines, Batch};
use backend::collector::{process_batch, process_line, process_logs, LogCollector, ProcessorContext};
use backend::json::JsonValue;
use backend::log::Log;
use backend::log_parser::ParseLogError;
use backend::rules::{Detection, Levels, LogSource, Rule};

const CEF_LINE: &str = "CEF:0|VendorX|ProdY|1.0|1001|Login Failure|Medium|src=10.0.0.1 dst=10.0.0.2 rt=2024-01-01T00:00:00Z msg=\"bad pwd\"";
const SYSLOG_LINE: &str =
    "<134>Jan  1 00:00:00 host1 sshd[123]: Failed password for root from 1.2.3.4 port 22 ssh2";

fn rule(id: &str, field: &str, value: &str) -> Rule {
    Rule {
        id: String::from(id),
        account_id: String::from("acct-1"),
        title: String::from("Title"),
        status: String::new(),
        description: String::from("Description"),
        ref_list: vec![],
        tags: vec![],
        author: String::new(),
        date: String::new(),
        logsource: LogSource { category: String::new(), product: String::new() },
        detection: Detection {
            selection: vec![(String::from(field), JsonValue::Text(String::from(value)))],
            condition: String::from("selection"),
        },
        fields: vec![],
        falsepositives: vec![],
        level: Levels::High,
        enabled: true,
        created_at: String::new(),
        updated_at: String::new(),
    }
}

fn context() -> ProcessorContext {
    let mut ctx = ProcessorContext::new(8);
    ctx.rules.load(rule("rule-1", "event_type", "failed_login")).expect("a new identifier");
    ctx
}

fn ids() -> (String, String) {
    (String::from("acct-1"), String::from("host-1"))
}

fn batch(lines: &[&str]) -> Batch {
    let mut b = Batch::new();
    for line in lines {
        b.add_line(String::from(*line));
    }
    b
}

#[test]
fn the_collector_numbers_what_it_mirrors() {
    let mut collector = LogCollector::new();
    let log = |name: &str| Log {
        id: String::from(name),
        hash: String::new(),
        account_id: String::new(),
        host_id: String::new(),
        timestamp: None,
        log_data: String::new(),
    };
    assert_eq!(collector.add_log(log("a")), 1);
    assert_eq!(collector.add_log(log("b")), 2);
    assert_eq!(collector.len(), 2);
    assert_eq!(collector.get(0).id, "a");
    assert_eq!(collector.get(1).id, "b");
    for _ in 2..0xffff {
        collector.add_log(log("x"));
    }
    assert_eq!(collector.add_log(log("last")), 0);
    assert_eq!(collector.add_log(log("again")), 1);
}

#[test]
fn an_empty_queue_is_no_failure() {
    let mut ctx = context();
    let (account, host) = ids();
    assert!(process_logs(&mut ctx, account, host).is_ok());
    assert_eq!(ctx.store.len(), 0);
    assert_eq!(ctx.alerts.len(), 0);
    assert_eq!(ctx.collector.len(), 0);
}

#[test]
fn a_batch_is_stored_and_raises_alerts() {
    let mut ctx = context();
    let (account, host) = ids();
    ctx.queue.enqueue(batch(&[CEF_LINE, SYSLOG_LINE])).expect("room");
    ctx.queue.enqueue(batch(&["{\"event\":\"later\"}"])).expect("room");
    process_logs(&mut ctx, account.clone(), host.clone()).expect("good lines");
    assert_eq!(ctx.queue.len(), 1);
    assert_eq!(ctx.store.len(), 2);
    assert_eq!(ctx.collector.len(), 2);
    assert_eq!(ctx.collector.get(1).id, ctx.store.get(1).id);
    assert_eq!(ctx.alerts.len(), 1);
    let alerts = list_alerts(&ctx.alerts, &account).expect("an account");
    assert_eq!(alerts[0].severity, "High");
    assert_eq!(alerts[0].message, "Alert triggered: Title - Description");
    assert_eq!(alerts[0].rule_id, "rule-1");
    process_logs(&mut ctx, account, host).expect("good lines");
    assert!(ctx.queue.is_empty());
    assert_eq!(ctx.store.len(), 3);
    assert_eq!(ctx.alerts.len(), 1);
}

#[test]
fn the_same_upload_twice_changes_nothing_the_second_time() {
    let mut ctx = context();
    let (account, host) = ids();
    let lines: Vec<String> =
        [CEF_LINE, SYSLOG_LINE, "{\"event\":\"failed_login\"}", SYSLOG_LINE]
            .iter()
            .map(|l| String::from(*l))
            .collect();
    create_batches(lines.clone(), &mut ctx.queue).expect("room");
    process_logs(&mut ctx, account.clone(), host.clone()).expect("good lines");
    assert_eq!(ctx.store.len(), 3);
    assert_eq!(ctx.alerts.len(), 2);
    let stored: Vec<(String, String)> =
        (0..ctx.store.len()).map(|i| (ctx.store.get(i).id.clone(), ctx.store.get(i).hash.clone())).collect();
    let raised: Vec<(String, String)> = list_alerts(&ctx.alerts, &account)
        .expect("an account")
        .iter()
        .map(|a| (a.id.clone(), a.created_at.clone()))
        .collect();
    create_batches(lines, &mut ctx.queue).expect("room");
    process_logs(&mut ctx, account.clone(), host).expect("good lines");
    let stored_again: Vec<(String, String)> =
        (0..ctx.store.len()).map(|i| (ctx.store.get(i).id.clone(), ctx.store.get(i).hash.clone())).collect();
    let raised_again: Vec<(String, String)> = list_alerts(&ctx.alerts, &account)
        .expect("an account")
        .iter()
        .map(|a| (a.id.clone(), a.created_at.clone()))
        .collect();
    assert_eq!(stored_again, stored);
    assert_eq!(raised_again, raised);
    assert_eq!(ctx.collector.len(), 3);
}

#[test]
fn a_line_that_cannot_be_read_ends_the_batch() {
    let mut ctx = context();
    let (account, host) = ids();
    let lines: Vec<String> =
        [CEF_LINE, "garbage", SYSLOG_LINE].iter().map(|l| String::from(*l)).collect();
    match process_batch(&mut ctx, &lines, &account, &host) {
        Err(ParseLogError::InvalidFormat(m)) => assert_eq!(m, "Unknown log format"),
        other => panic!("unexpected {:?}", other),
    }
    assert_eq!(ctx.store.len(), 1);
    assert_eq!(ctx.alerts.len(), 0);
}

#[test]
fn store_and_rule_failures_are_reported_as_database_failures() {
    let mut ctx = context();
    let (account, _) = ids();
    match process_line(&mut ctx, CEF_LINE, &account, &String::new()) {
        Err(ParseLogError::DatabaseError(m)) => {
            assert_eq!(m, "Validation error: Host ID cannot be empty")
        }
        other => panic!("unexpected {:?}", other),
    }
    assert_eq!(ctx.store.len(), 0);
    let mut bad = rule("", "event_type", "x");
    bad.detection.selection.clear();
    ctx.rules.load(bad).expect("a new identifier");
    let (account, host) = ids();
    match process_line(&mut ctx, CEF_LINE, &account, &host) {
        Err(ParseLogError::DatabaseError(m)) => assert_eq!(
            m,
            "Rule evaluation error: Alert creation error: Validation error: Rule ID cannot be empty"
        ),
        other => panic!("unexpected {:?}", other),
    }
    assert_eq!(ctx.store.len(), 1);
    assert_eq!(ctx.collector.len(), 1);
    assert!(process_line(&mut ctx, CEF_LINE, &account, &host).is_ok());
    assert_eq!(ctx.store.len(), 1);
}

#[test]
fn a_json_array_upload_gives_one_event_for_each_element() {
    let mut ctx = ProcessorContext::new(8);
    let (account, host) = ids();
    let raw = raw_lines(vec![String::from(
        "[{\"event\":\"a\"},{\"event\":\"b\"},{\"event\":\"c\"}]",
    )])
    .expect("a JSON array");
    let batches = make_batches_of(raw, 2);
    let sizes: Vec<usize> = batches.iter().map(|b| b.len()).collect();
    assert_eq!(sizes, vec![2, 1]);
    for b in batches {
        ctx.queue.enqueue(b).expect("room");
    }
    process_logs(&mut ctx, account.clone(), host.clone()).expect("good lines");
    assert_eq!(ctx.store.len(), 2);
    process_logs(&mut ctx, account, host).expect("good lines");
    assert_eq!(ctx.store.len(), 3);
    let mut types: Vec<String> = (0..3)
        .map(|i| {
            backend::log_parser::decode(&ctx.store.get(i).log_data)
                .expect("stored text")
                .event_type
                .expect("an event type")
        })
        .collect();
    types.sort();
    assert_eq!(types, vec!["a", "b", "c"]);
}
