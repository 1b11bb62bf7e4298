use backend::log_parser::{
    clean_log, decode, detect_format, normalize, parse_cef, parse_json, parse_syslog,
    process_log, syslog_event_from, LogFormat, NormalizedLog, ParseLogError,
};

const CEF_LINE: &str = "CEF:0|VendorX|ProdY|1.0|1001|Login Failure|Medium|src=10.0.0.1 dst=10.0.0.2 rt=2024-01-01T00:00:00Z msg=\"bad pwd\"";
const SYSLOG_LINE: &str =
    "<134>Jan  1 00:00:00 host1 sshd[123]: Failed password for root from 1.2.3.4 port 22 ssh2";

fn ids() -> (String, String) {
    (String::from("acct-1"), String::from("host-1"))
}

fn extension_keys(event: &NormalizedLog) -> Vec<String> {
    let mut keys = Vec::new();
    for i in 0..event.extensions.len() {
        keys.push(event.extensions.key_at(i).iter().collect::<String>());
    }
    keys
}

#[test]
fn cef_line_is_normalized() {
    let (account, host) = ids();
    let event = normalize(CEF_LINE, &account, &host).expect("a CEF line");
    assert_eq!(event.event_type.as_deref(), Some("Login Failure"));
    assert_eq!(event.src_ip.as_deref(), Some("10.0.0.1"));
    assert_eq!(event.dst_ip.as_deref(), Some("10.0.0.2"));
    assert_eq!(event.timestamp.as_deref(), Some("2024-01-01T00:00:00Z"));
    assert_eq!(event.extensions.get("msg").as_deref(), Some("bad pwd"));
    assert_eq!(event.extensions.get("severity").as_deref(), Some("Medium"));
    assert_eq!(event.extensions.get("version").as_deref(), Some("0"));
    assert_eq!(event.extensions.get("device_vendor").as_deref(), Some("VendorX"));
    assert_eq!(event.extensions.get("device_product").as_deref(), Some("ProdY"));
    assert_eq!(event.extensions.get("device_version").as_deref(), Some("1.0"));
    assert_eq!(event.extensions.get("signature_id").as_deref(), Some("1001"));
    assert_eq!(event.extensions.get("name").as_deref(), Some("Login Failure"));
    assert_eq!(event.account_id, "acct-1");
    assert_eq!(event.host_id, "host-1");
    assert_eq!(event.raw, CEF_LINE);
}

#[test]
fn cef_extension_keys_come_in_dictionary_order() {
    let (account, host) = ids();
    let event = normalize(CEF_LINE, &account, &host).expect("a CEF line");
    assert_eq!(
        extension_keys(&event),
        vec![
            "device_product",
            "device_vendor",
            "device_version",
            "dst",
            "msg",
            "name",
            "rt",
            "severity",
            "signature_id",
            "src",
            "version"
        ]
    );
}

#[test]
fn cef_with_empty_extension_segment_has_only_the_header_keys() {
    let (account, host) = ids();
    let event = parse_cef("CEF:0|V|P|1.0|100|Name|5|", &account, &host).expect("eight fields");
    assert_eq!(
        extension_keys(&event),
        vec![
            "device_product",
            "device_vendor",
            "device_version",
            "name",
            "severity",
            "signature_id",
            "version"
        ]
    );
    assert_eq!(event.extensions.get("severity").as_deref(), Some("5"));
    assert_eq!(event.event_type.as_deref(), Some("Name"));
    assert_eq!(event.timestamp, None);
    assert_eq!(event.src_ip, None);
    assert_eq!(event.dst_ip, None);
}

#[test]
fn cef_needs_exactly_eight_fields() {
    let (account, host) = ids();
    let malformed = [
        "CEF:0|V|P|1.0|100|Name|5",
        "CEF:0|V|P|1.0|100|Name|5||",
        "XEF:0|V|P|1.0|100|Name|5|",
        "",
    ];
    for line in malformed {
        match parse_cef(line, &account, &host) {
            Err(ParseLogError::InvalidFormat(m)) => assert_eq!(m, "Invalid CEF format"),
            _ => panic!("a malformed CEF line was read: {line}"),
        }
    }
    match normalize("CEF:x", &account, &host) {
        Err(ParseLogError::InvalidFormat(m)) => assert_eq!(m, "Invalid CEF format"),
        _ => panic!("a malformed CEF line was read"),
    }
}

#[test]
fn cef_later_pair_wins_and_header_wins_over_pairs() {
    let (account, host) = ids();
    let event = parse_cef(
        "CEF:0|V|P|1.0|100|Name|5|a=1 a=2 name=other time=t1 junk =x k=",
        &account,
        &host,
    )
    .expect("eight fields");
    assert_eq!(event.extensions.get("a").as_deref(), Some("2"));
    assert_eq!(event.extensions.get("name").as_deref(), Some("Name"));
    assert_eq!(event.timestamp.as_deref(), Some("t1"));
    assert_eq!(event.extensions.get("junk"), None);
    assert_eq!(event.extensions.get("").as_deref(), Some("x"));
    assert_eq!(event.extensions.get("k").as_deref(), Some(""));
}

#[test]
fn cef_rt_is_preferred_over_time() {
    let (account, host) = ids();
    let event =
        parse_cef("CEF:0|V|P|1.0|100|Name|5|time=t1 rt=t2", &account, &host).expect("eight fields");
    assert_eq!(event.timestamp.as_deref(), Some("t2"));
}

#[test]
fn cef_quoted_value_keeps_its_spaces() {
    let (account, host) = ids();
    let event = parse_cef(
        "CEF:0|V|P|1.0|100|Name|5|msg=\"a b  c\" next=1",
        &account,
        &host,
    )
    .expect("eight fields");
    assert_eq!(event.extensions.get("msg").as_deref(), Some("a b  c"));
    assert_eq!(event.extensions.get("next").as_deref(), Some("1"));
}

#[test]
fn cef_version_drops_every_cef_marker() {
    let (account, host) = ids();
    let event = parse_cef("CEF:1CEF:2|V|P|1.0|100|Name|5|", &account, &host).expect("eight fields");
    assert_eq!(event.extensions.get("version").as_deref(), Some("12"));
}

#[test]
fn syslog_line_is_normalized() {
    let (account, host) = ids();
    let event = normalize(SYSLOG_LINE, &account, &host).expect("a syslog line");
    assert_eq!(event.event_type.as_deref(), Some("failed_login"));
    assert_eq!(event.src_ip.as_deref(), Some("1.2.3.4"));
    assert_eq!(event.dst_ip, None);
    assert_eq!(event.extensions.get("hostname").as_deref(), Some("host1"));
    assert_eq!(event.extensions.get("priority").as_deref(), Some("134"));
    assert_eq!(event.extensions.get("src_ip").as_deref(), Some("1.2.3.4"));
    assert_eq!(
        event.extensions.get("message").as_deref(),
        Some("sshd[123]: Failed password for root from 1.2.3.4 port 22 ssh2")
    );
    assert_eq!(event.timestamp.as_deref(), Some("Jan 1 00:00:00"));
    assert_eq!(event.raw, SYSLOG_LINE);
}

#[test]
fn syslog_event_types_follow_the_first_rule_that_applies() {
    let (account, host) = ids();
    let cases = [
        ("sshd[1]: Accepted password for root", Some("successful_login")),
        ("sshd[1]: session opened", None),
        ("audit: sudo invoked by sshd child", Some("sudo_command")),
        ("sshd[1]: Failed password under systemd", Some("failed_login")),
        ("sshd[1]: kernel module loaded", Some("kernel_event")),
        ("systemd[1]: Started kernel thing", Some("systemd_event")),
        ("kernel: crond oops", Some("kernel_event")),
        ("crond[2]: sudo job", Some("cron_job")),
        ("sudo: apache2 restart", Some("sudo_command")),
        ("apache2: error", Some("apache_error")),
        ("nothing known", None),
    ];
    for (message, expected) in cases {
        let line = format!("<13>Feb 10 10:11:12 box {}", message);
        let event = parse_syslog(&line, &account, &host).expect("a syslog line");
        assert_eq!(event.event_type.as_deref(), expected, "{}", message);
    }
}

#[test]
fn syslog_finds_destination_and_source_marked_with_src() {
    let (account, host) = ids();
    let event = parse_syslog(
        "<13>Feb 10 10:11:12 fw kernel: SRC=10.1.1.1 DST=10.2.2.2 LEN=40",
        &account,
        &host,
    )
    .expect("a syslog line");
    assert_eq!(event.src_ip.as_deref(), Some("10.1.1.1"));
    assert_eq!(event.dst_ip.as_deref(), Some("10.2.2.2"));
    assert_eq!(event.extensions.get("dst_ip").as_deref(), Some("10.2.2.2"));
}

#[test]
fn syslog_with_few_words_has_unknown_host() {
    let (account, host) = ids();
    let event = parse_syslog("<5>Jan 1", &account, &host).expect("a priority");
    assert_eq!(event.timestamp.as_deref(), Some("Jan 1"));
    assert_eq!(event.extensions.get("hostname").as_deref(), Some("unknown"));
    assert_eq!(event.extensions.get("message").as_deref(), Some(""));
    assert_eq!(event.event_type, None);
}

#[test]
fn syslog_without_priority_is_refused() {
    let (account, host) = ids();
    match parse_syslog("Jan  1 00:00:00 host1 sshd: x", &account, &host) {
        Err(ParseLogError::InvalidFormat(m)) => assert_eq!(m, "Missing syslog priority"),
        other => panic!("unexpected {:?}", other.map(|e| e.raw)),
    }
    assert!(parse_syslog("<>Jan  1 00:00:00 host1 x", &account, &host).is_err());
    assert!(parse_syslog("<1a>Jan  1 00:00:00 host1 x", &account, &host).is_err());
}

#[test]
fn syslog_event_takes_the_addresses_it_is_given() {
    let (account, host) = ids();
    let event = syslog_event_from(
        "<1>Jan 1 00:00:00 h msg",
        &account,
        &host,
        Some(String::from("9.9.9.9")),
        None,
    )
    .expect("a syslog line");
    assert_eq!(event.src_ip.as_deref(), Some("9.9.9.9"));
    assert_eq!(event.extensions.get("src_ip").as_deref(), Some("9.9.9.9"));
    assert_eq!(event.extensions.get("dst_ip"), None);
}

#[test]
fn json_line_is_routed_by_key() {
    let (account, host) = ids();
    let line = "{\"time\":\"t\",\"source_ip\":\"1.1.1.1\",\"dst\":\"2.2.2.2\",\"event\":\"login\",\"n\":5,\"ok\":true,\"none\":null,\"list\":[1,\"a\"],\"obj\":{\"k\":1}}";
    let event = normalize(line, &account, &host).expect("a JSON line");
    assert_eq!(event.timestamp.as_deref(), Some("t"));
    assert_eq!(event.src_ip.as_deref(), Some("1.1.1.1"));
    assert_eq!(event.dst_ip.as_deref(), Some("2.2.2.2"));
    assert_eq!(event.event_type.as_deref(), Some("login"));
    assert_eq!(event.extensions.get("n").as_deref(), Some("5"));
    assert_eq!(event.extensions.get("ok").as_deref(), Some("true"));
    assert_eq!(event.extensions.get("none").as_deref(), Some(""));
    assert_eq!(event.extensions.get("list").as_deref(), Some("[1,\"a\"]"));
    assert_eq!(event.extensions.get("obj").as_deref(), Some("{\"k\":1}"));
    assert_eq!(event.extensions.get("time"), None);
    assert_eq!(event.extensions.len(), 5);
}

#[test]
fn json_that_does_not_parse_is_refused() {
    let (account, host) = ids();
    match parse_json("{\"a\":", &account, &host) {
        Err(ParseLogError::InvalidFormat(m)) => {
            assert!(m.starts_with("JSON parse error: "), "{}", m);
            assert!(m.len() > "JSON parse error: ".len());
        }
        other => panic!("unexpected {:?}", other.map(|e| e.raw)),
    }
    assert!(parse_json("[1,2]", &account, &host).is_err());
}

#[test]
fn blank_and_unknown_lines_are_refused() {
    let (account, host) = ids();
    for line in ["", "   \n  ", "hello world", "<134>short", "[1]"] {
        match normalize(line, &account, &host) {
            Err(ParseLogError::InvalidFormat(m)) => assert_eq!(m, "Unknown log format"),
            other => panic!("unexpected {:?} for {:?}", other.map(|e| e.raw), line),
        }
    }
}

#[test]
fn formats_are_told_apart() {
    assert_eq!(detect_format(CEF_LINE), LogFormat::Cef);
    assert_eq!(detect_format(SYSLOG_LINE), LogFormat::Syslog);
    assert_eq!(detect_format("  {\"a\":1}  "), LogFormat::Json);
    assert_eq!(detect_format("plain"), LogFormat::Unknown);
    assert_eq!(detect_format("<134>no stamp here"), LogFormat::Unknown);
    assert_eq!(detect_format("<x34>Jan  1 00:00:00 host1 x"), LogFormat::Unknown);
    assert_eq!(detect_format(""), LogFormat::Unknown);
}

#[test]
fn cleaning_trims_and_joins_lines() {
    assert_eq!(clean_log("  a \n b  "), "a b");
    assert_eq!(clean_log("a\r\nb\n\nc"), "a b  c");
    assert_eq!(clean_log("\t x \u{a0}"), "x");
    assert_eq!(clean_log(" \n "), "");
    assert_eq!(clean_log("one"), "one");
}

#[test]
fn cleaning_twice_is_cleaning_once() {
    for text in ["  a \n b  ", "a\r\nb\n\nc", "x", "", " \n q \n\n"] {
        let once = clean_log(text);
        assert_eq!(clean_log(&once), once);
    }
}

#[test]
fn canonical_json_has_the_fixed_layout() {
    let (account, host) = ids();
    let event = normalize("{\"event\":\"a\",\"z\":\"1\",\"b\":\"q\\\"uote\"}", &account, &host)
        .expect("a JSON line");
    assert_eq!(
        event.canonical_json(),
        "{\"timestamp\":null,\"src_ip\":null,\"dst_ip\":null,\"event_type\":\"a\",\"host_id\":\"host-1\",\"account_id\":\"acct-1\",\"raw\":\"{\\\"event\\\":\\\"a\\\",\\\"z\\\":\\\"1\\\",\\\"b\\\":\\\"q\\\\\\\"uote\\\"}\",\"extensions\":{\"b\":\"q\\\"uote\",\"z\":\"1\"}}"
    );
}

#[test]
fn process_log_gives_text_and_time_stamp() {
    let (account, host) = ids();
    let (text, stamp) = process_log(CEF_LINE, &account, &host).expect("a CEF line");
    assert_eq!(stamp, "2024-01-01T00:00:00Z");
    assert!(text.starts_with("{\"timestamp\":\"2024-01-01T00:00:00Z\",\"src_ip\":\"10.0.0.1\","));
    let (text, stamp) = process_log("{\"event\":\"a\"}", &account, &host).expect("a JSON line");
    assert_eq!(stamp, "");
    assert_eq!(
        text,
        "{\"timestamp\":null,\"src_ip\":null,\"dst_ip\":null,\"event_type\":\"a\",\"host_id\":\"host-1\",\"account_id\":\"acct-1\",\"raw\":\"{\\\"event\\\":\\\"a\\\"}\",\"extensions\":{}}"
    );
    assert!(process_log("nope", &account, &host).is_err());
}

#[test]
fn an_event_is_read_back_from_its_text() {
    let (account, host) = ids();
    for line in [CEF_LINE, SYSLOG_LINE, "{\"event\":\"a\",\"k\":\"v\"}"] {
        let event = normalize(line, &account, &host).expect("a known line");
        let text = event.canonical_json();
        let back = decode(&text).expect("canonical text");
        assert_eq!(back.timestamp, event.timestamp);
        assert_eq!(back.src_ip, event.src_ip);
        assert_eq!(back.dst_ip, event.dst_ip);
        assert_eq!(back.event_type, event.event_type);
        assert_eq!(back.host_id, event.host_id);
        assert_eq!(back.account_id, event.account_id);
        assert_eq!(back.raw, event.raw);
        assert_eq!(extension_keys(&back), extension_keys(&event));
        assert_eq!(back.canonical_json(), text);
    }
}

#[test]
fn reading_back_refuses_what_is_no_event() {
    for text in [
        "not json",
        "[]",
        "{}",
        "{\"host_id\":\"h\",\"account_id\":\"a\",\"raw\":\"r\"}",
        "{\"host_id\":\"h\",\"account_id\":\"a\",\"raw\":\"r\",\"extensions\":{\"k\":1}}",
        "{\"host_id\":\"h\",\"account_id\":\"a\",\"raw\":\"r\",\"extensions\":[]}",
        "{\"host_id\":5,\"account_id\":\"a\",\"raw\":\"r\",\"extensions\":{}}",
        "{\"timestamp\":5,\"host_id\":\"h\",\"account_id\":\"a\",\"raw\":\"r\",\"extensions\":{}}",
    ] {
        match decode(text) {
            Err(ParseLogError::SerializationError(m)) => {
                assert_eq!(m, "Failed to deserialize log for rule evaluation")
            }
            other => panic!("unexpected {:?} for {}", other.map(|e| e.raw), text),
        }
    }
    let ok = decode("{\"host_id\":\"h\",\"account_id\":\"a\",\"raw\":\"r\",\"extensions\":{}}")
        .expect("all required members");
    assert_eq!(ok.timestamp, None);
    assert_eq!(ok.extensions.len(), 0);
}

#[test]
fn failures_describe_themselves() {
    assert_eq!(ParseLogError::InvalidCEFFormat.message(), "Invalid CEF format");
    assert_eq!(
        ParseLogError::InvalidFormat(String::from("x")).message(),
        "Invalid format: x"
    );
    assert_eq!(
        ParseLogError::SerializationError(String::from("y")).message(),
        "Serialization error: y"
    );
    assert_eq!(
        ParseLogError::DatabaseError(String::from("z")).message(),
        "Database error: z"
    );
}
