use backend::eql::{
    Comparison, Condition, EqlError, EqlParser, EqlQuery, QueryExecutor, TimeRange, Token,
};
use backend::json::JsonValue;
use backend::log::{InsertOutcome, LogStore};
use backend::log_parser::normalize;

const CEF_LINE: &str = "CEF:0|VendorX|ProdY|1.0|1001|Login Failure|Medium|src=10.0.0.1 dst=10.0.0.2 rt=2024-01-01T00:00:00Z msg=\"bad pwd\"";
const SYSLOG_LINE: &str =
    "<134>Jan  1 00:00:00 host1 sshd[123]: Failed password for root from 1.2.3.4 port 22 ssh2";

fn show(tokens: &[Token]) -> Vec<String> {
    tokens.iter().map(|t| format!("{:?}", t)).collect()
}

fn lex(text: &str) -> Vec<String> {
    show(&EqlParser::parse(text).expect("a query text"))
}

fn plan(text: &str) -> Result<EqlQuery, EqlError> {
    QueryExecutor::parse_query(EqlParser::parse(text)?)
}

fn parse_error(text: &str) -> String {
    match EqlParser::parse(text) {
        Err(EqlError::ParseError(m)) => m,
        other => panic!("unexpected {:?}", other),
    }
}

fn store() -> LogStore {
    let mut store = LogStore::new();
    for line in [CEF_LINE, SYSLOG_LINE] {
        let event = normalize(line, &String::from("acct-1"), &String::from("host-1"))
            .expect("a known line");
        assert!(matches!(store.insert(&event), Ok(InsertOutcome::Inserted(_))));
    }
    store
}

#[test]
fn the_lexer_finds_the_tokens() {
    assert_eq!(
        lex("severity = \"High\" AND @timestamp>2024-01-01]"),
        vec![
            "Field(\"severity\")",
            "Operator(\"=\")",
            "Value(\"High\")",
            "And",
            "TimeRange(\"timestamp>2024-01-01\")"
        ]
    );
    assert_eq!(
        lex("WHERE a_1!=\"x y\" or (b<\"\")"),
        vec![
            "Where",
            "Field(\"a_1\")",
            "Operator(\"!=\")",
            "Value(\"x y\")",
            "Or",
            "OpenParen",
            "Field(\"b\")",
            "Operator(\"<\")",
            "Value(\"\")",
            "CloseParen"
        ]
    );
    assert_eq!(lex(""), Vec::<String>::new());
    assert_eq!(lex("  \t\n "), Vec::<String>::new());
    assert_eq!(lex("a>=<!b"), vec!["Field(\"a\")", "Operator(\">=<!\")", "Field(\"b\")"]);
    assert_eq!(lex("And OR wHeRe android"), vec!["And", "Or", "Where", "Field(\"android\")"]);
}

#[test]
fn the_lexer_knows_letters_and_blanks_beyond_ascii() {
    assert_eq!(lex("\u{e9}t\u{e9}\u{a0}=\u{2003}\"1\""), vec![
        "Field(\"\u{e9}t\u{e9}\")",
        "Operator(\"=\")",
        "Value(\"1\")"
    ]);
    assert_eq!(lex("x\u{661}"), vec!["Field(\"x\u{661}\")"]);
    assert_eq!(parse_error("\u{661}x"), "Unexpected character: \u{661}");
    assert_eq!(lex("W\u{c9}RE"), vec!["Field(\"W\u{c9}RE\")"]);
}

#[test]
fn an_unterminated_string_is_a_parse_error() {
    assert_eq!(parse_error("severity = \"High"), "Unterminated string literal");
    assert_eq!(parse_error("\""), "Unterminated string literal");
}

#[test]
fn other_lexer_failures() {
    assert_eq!(parse_error("@timestamp>2024-01-01"), "Unterminated time range");
    assert_eq!(parse_error("a = 5"), "Unexpected character: 5");
    assert_eq!(parse_error("a # b"), "Unexpected character: #");
    assert_eq!(parse_error("_a"), "Unexpected character: _");
    assert_eq!(
        EqlError::ParseError(String::from("x")).message(),
        "Parse error: x"
    );
    assert_eq!(
        EqlError::QueryBuildError(String::from("x")).message(),
        "Query build error: x"
    );
    assert_eq!(
        EqlError::DatabaseError(String::from("x")).message(),
        "Database error: x"
    );
}

#[test]
fn the_planner_builds_predicates_and_a_time_range() {
    let query = plan("where severity = \"High\" and src_ip != \"1.1.1.1\" AND @timestamp<2024-02-03]")
        .expect("a conjunction");
    assert_eq!(query.conditions.len(), 2);
    assert_eq!(query.conditions[0].field, "severity");
    assert_eq!(query.conditions[0].operator, Comparison::Equal);
    assert_eq!(query.conditions[0].value, "High");
    assert_eq!(query.conditions[1].field, "src_ip");
    assert_eq!(query.conditions[1].operator, Comparison::NotEqual);
    let range = query.time_range.expect("a time range");
    assert_eq!(range.field, "timestamp");
    assert_eq!(range.operator, Comparison::Less);
    assert_eq!(range.date, "2024-02-03");
    let query = plan("a > \"1\" b < \"2\"").expect("a conjunction");
    assert_eq!(query.conditions[0].operator, Comparison::Greater);
    assert_eq!(query.conditions[1].operator, Comparison::Less);
    assert!(query.time_range.is_none());
    let dangling = plan("a = \"1\" AND b =").expect("a dropped predicate");
    assert_eq!(dangling.conditions.len(), 1);
    assert_eq!(plan("").expect("an empty query").conditions.len(), 0);
}

fn build_error(text: &str) -> String {
    match plan(text) {
        Err(EqlError::QueryBuildError(m)) => m,
        other => panic!("unexpected {:?} for {}", other, text),
    }
}

fn plan_parse_error(text: &str) -> String {
    match plan(text) {
        Err(EqlError::ParseError(m)) => m,
        other => panic!("unexpected {:?} for {}", other, text),
    }
}

#[test]
fn the_planner_refuses_what_it_does_not_support() {
    assert_eq!(
        build_error("severity = \"High\" AND @timestamp>2024-13-01]"),
        "Invalid datetime format"
    );
    assert_eq!(build_error("@timestamp>yesterday]"), "Invalid datetime format");
    assert_eq!(build_error("@timestamp>2023-02-29]"), "Invalid datetime format");
    assert_eq!(build_error("@timestamp]"), "Invalid time range");
    assert_eq!(
        build_error("@timestamp>2024-01-01] @timestamp<2024-02-01]"),
        "More than one time range"
    );
    let complex = "Complex queries with OR or parentheses not yet supported";
    assert_eq!(build_error("a = \"1\" OR b = \"2\""), complex);
    assert_eq!(build_error("(a = \"1\")"), complex);
    assert_eq!(build_error("a = \"1\")"), complex);
    assert_eq!(build_error("a == \"1\""), "Unsupported operator: ==");
    assert_eq!(build_error("a >= \"1\""), "Unsupported operator: >=");
    assert_eq!(plan_parse_error("a b"), "Unexpected field token");
    assert_eq!(plan_parse_error("= \"1\""), "Unexpected operator token");
    assert_eq!(plan_parse_error("a = = \"1\""), "Unexpected operator token");
    assert_eq!(plan_parse_error("\"1\""), "Value token without field or operator");
    assert_eq!(plan_parse_error("a \"1\""), "Value token without field or operator");
}

#[test]
fn a_time_range_is_split_at_its_marks() {
    let parts = QueryExecutor::split_time_range("timestamp>2024-01-01").expect("a mark");
    assert_eq!((parts.field.as_str(), parts.operator, parts.date.as_str()), (
        "timestamp",
        Comparison::Greater,
        "2024-01-01"
    ));
    let parts = QueryExecutor::split_time_range("a<b>c").expect("a mark");
    assert_eq!((parts.field.as_str(), parts.operator, parts.date.as_str()), (
        "a",
        Comparison::Less,
        "b"
    ));
    let parts = QueryExecutor::split_time_range("a>b<c").expect("a mark");
    assert_eq!((parts.field.as_str(), parts.operator, parts.date.as_str()), (
        "a",
        Comparison::Greater,
        "b"
    ));
    let parts = QueryExecutor::split_time_range("<").expect("a mark");
    assert_eq!((parts.field.as_str(), parts.operator, parts.date.as_str()), (
        "",
        Comparison::Less,
        ""
    ));
    assert!(QueryExecutor::split_time_range("no mark").is_none());
    assert!(QueryExecutor::time_range_given("a>b", true).is_ok());
    assert!(matches!(
        QueryExecutor::time_range_given("a>b", false),
        Err(EqlError::QueryBuildError(m)) if m == "Invalid datetime format"
    ));
    assert!(matches!(
        QueryExecutor::time_range_given("ab", true),
        Err(EqlError::QueryBuildError(m)) if m == "Invalid time range"
    ));
}

#[test]
fn a_query_is_held_against_stored_events() {
    let store = store();
    let run = |query: &str| {
        QueryExecutor::execute_query(&store, "acct-1", "", "\u{10ffff}", query)
            .expect("a supported query")
    };
    let medium = run("severity = \"Medium\" AND @timestamp>2024-01-01]");
    assert_eq!(medium.len(), 1);
    assert!(medium[0].contains("\"event_type\":\"Login Failure\""));
    assert!(run("severity = \"High\" AND @timestamp>2024-01-01]").is_empty());
    let failed = run("event_type = \"failed_login\"");
    assert_eq!(failed.len(), 1);
    assert!(failed[0].contains("\"hostname\":\"host1\""));
    assert_eq!(run("").len(), 2);
    assert_eq!(run("severity != \"Medium\"").len(), 1);
    assert_eq!(run("missing = \"\"").len(), 2);
    assert_eq!(run("src_ip > \"1.2\"").len(), 2);
    assert_eq!(run("src_ip < \"1.2\"").len(), 0);
    assert_eq!(run("src_ip > \"1.2.3.4\"").len(), 1);
    assert_eq!(run("src_ip < \"10.0.0.1\"").len(), 1);
    assert_eq!(run("src_ip < \"10.0.0.2\"").len(), 2);
    assert_eq!(run("src_ip < \"1.2.3.4\"").len(), 0);
    assert_eq!(run("@timestamp<2024-01-01]").len(), 0);
    assert_eq!(run("@timestamp>2024-01-01]").len(), 2);
    assert_eq!(run("@timestamp>2024-01-02]").len(), 1);
    assert_eq!(run("msg = \"bad pwd\" AND src_ip = \"10.0.0.1\"").len(), 1);
    assert_eq!(run("msg = \"bad pwd\" AND src_ip = \"10.0.0.9\"").len(), 0);
}

#[test]
fn the_window_bounds_the_candidates() {
    let store = store();
    let all = QueryExecutor::execute_query(&store, "acct-1", "", "\u{10ffff}", "").expect("ok");
    assert_eq!(all.len(), 2);
    let other = QueryExecutor::execute_query(&store, "acct-2", "", "\u{10ffff}", "").expect("ok");
    assert!(other.is_empty());
    let year =
        QueryExecutor::execute_query(&store, "acct-1", "2024-01-01", "2024-12-31", "").expect("ok");
    assert_eq!(year.len(), 1);
    let exact = QueryExecutor::execute_query(
        &store,
        "acct-1",
        "2024-01-01T00:00:00Z",
        "2024-01-01T00:00:00Z",
        "",
    )
    .expect("ok");
    assert_eq!(exact.len(), 1);
    let none = QueryExecutor::execute_query(&store, "acct-1", "3", "2", "").expect("ok");
    assert!(none.is_empty());
    assert!(matches!(
        QueryExecutor::execute_query(&store, "acct-1", "", "z", "a = \"1"),
        Err(EqlError::ParseError(_))
    ));
    assert!(matches!(
        QueryExecutor::execute_query(&store, "acct-1", "", "z", "@t>2024-13-01]"),
        Err(EqlError::QueryBuildError(m)) if m == "Invalid datetime format"
    ));
}

#[test]
fn a_row_that_is_no_event_meets_no_query() {
    let empty = EqlQuery { conditions: vec![], time_range: None };
    assert!(!QueryExecutor::matches_query("not json", &empty));
    assert!(!QueryExecutor::matches_query("[1]", &empty));
    assert!(QueryExecutor::matches_query("{}", &empty));
    let wants_k = EqlQuery {
        conditions: vec![Condition {
            field: String::from("k"),
            operator: Comparison::Equal,
            value: String::from("v"),
        }],
        time_range: None,
    };
    assert!(QueryExecutor::matches_query("{\"extensions\":{\"k\":\"v\"}}", &wants_k));
    assert!(!QueryExecutor::matches_query("{\"extensions\":{\"k\":5}}", &wants_k));
    assert!(!QueryExecutor::matches_query("{\"extensions\":[\"k\"]}", &wants_k));
    assert!(!QueryExecutor::matches_query("{\"k\":\"v\"}", &wants_k));
}

#[test]
fn fields_of_a_row_resolve_like_those_of_an_event() {
    let top = vec![
        (String::from("event_type"), JsonValue::Text(String::from("e"))),
        (String::from("src_ip"), JsonValue::Null),
        (String::from("custom"), JsonValue::Text(String::from("top"))),
    ];
    let nested = Some(vec![
        (String::from("custom"), JsonValue::Text(String::from("inner"))),
        (String::from("event_type"), JsonValue::Text(String::from("shadow"))),
        (String::from("n"), JsonValue::Number(String::from("5"))),
    ]);
    assert_eq!(QueryExecutor::get_json_value(&top, &nested, "event_type"), "e");
    assert_eq!(QueryExecutor::get_json_value(&top, &nested, "src_ip"), "");
    assert_eq!(QueryExecutor::get_json_value(&top, &nested, "dst_ip"), "");
    assert_eq!(QueryExecutor::get_json_value(&top, &nested, "custom"), "inner");
    assert_eq!(QueryExecutor::get_json_value(&top, &nested, "n"), "");
    assert_eq!(QueryExecutor::get_json_value(&top, &None, "custom"), "");
    let query = EqlQuery {
        conditions: vec![Condition {
            field: String::from("custom"),
            operator: Comparison::Greater,
            value: String::from("in"),
        }],
        time_range: Some(TimeRange {
            field: String::from("event_type"),
            operator: Comparison::Less,
            date: String::from("f"),
        }),
    };
    assert!(QueryExecutor::row_matches(&top, &nested, &query));
    assert!(!QueryExecutor::row_matches(&top, &None, &query));
}

#[test]
fn writing_a_query_and_reading_it_gives_it_back() {
    for text in [
        "",
        "severity = \"High\"",
        "severity = \"High\" AND @timestamp>2024-01-01]",
        "a != \"x y\" b < \"\" c > \"]@(\"",
        "@when<1999-12-31]",
        "where \u{e9}t\u{e9} = \"1\"",
    ] {
        let query = plan(text).expect("a supported query");
        let written = query.render();
        let again = plan(&written).expect("what was written");
        assert_eq!(format!("{:?}", again), format!("{:?}", query), "{}", text);
        assert_eq!(again.render(), written);
    }
    let query = plan("severity = \"High\" and  @timestamp>2024-01-01]").expect("a query");
    assert_eq!(query.render(), "severity = \"High\" AND @timestamp>2024-01-01] ");
    let query = plan("a!=\"1\" b<\"2\"").expect("a query");
    assert_eq!(query.render(), "a != \"1\" AND b < \"2\" ");
}

#[test]
fn any_white_space_between_tokens_reads_as_the_same_tokens() {
    let plain = "severity = \"High\" AND @timestamp>2024-01-01] ";
    let expected = lex(plain);
    assert_eq!(expected.len(), 5);
    let spaced = [
        "severity = \"High\" AND @timestamp>2024-01-01]",
        "  severity   =  \"High\"    AND   @timestamp>2024-01-01]   ",
        "\tseverity\t=\t\"High\"\tAND\t@timestamp>2024-01-01]\t",
        "\nseverity\n=\r\n\"High\"\n \t AND \u{b}\u{c} @timestamp>2024-01-01]\n",
        "\u{a0}severity\u{2003}=\u{3000}\"High\"\u{2028}AND\u{85}@timestamp>2024-01-01]",
    ];
    for text in spaced {
        assert_eq!(lex(text), expected, "{:?}", text);
        let query = plan(text).expect("a query");
        assert_eq!(query.conditions.len(), 1);
        assert_eq!(lex(&query.render()), expected);
    }
}
