//! The normalizer: it cleans a raw line, tells CEF, syslog and JSON apart,
//! and turns the line into the uniform event record.

use vstd::prelude::*;
use vstd::string::StringExecFns;
use crate::extensions::{lookup, put, Extensions, Pair};
use crate::json::{
    find_member, json_object_of, json_string_literal, member_named, members_view, parse_object,
    rendered, JsonModel, JsonValue, Member,
};
use crate::text::{
    ascii_digit, contains, copy_chars, find_char, first_index, from_chars, has_infix, has_prefix,
    is_digit, join, joined, opt_view, remove_all, slice_of, spells, split, split_on, split_words,
    starts_with, strip, stripped, to_chars, trim, trimmed, views, without, words,
};

verus! {

/// Why a line could not be turned into an event.
#[derive(Debug)]
pub enum ParseLogError {
    InvalidCEFFormat,
    InvalidFormat(String),
    SerializationError(String),
    DatabaseError(String),
}

/// A `ParseLogError` in contracts.
pub enum ParseFailure {
    InvalidCEFFormat,
    InvalidFormat(Seq<char>),
    SerializationError(Seq<char>),
    DatabaseError(Seq<char>),
}

impl View for ParseLogError {
    type V = ParseFailure;

    open spec fn view(&self) -> ParseFailure {
        match self {
            ParseLogError::InvalidCEFFormat => ParseFailure::InvalidCEFFormat,
            ParseLogError::InvalidFormat(m) => ParseFailure::InvalidFormat(m@),
            ParseLogError::SerializationError(m) => ParseFailure::SerializationError(m@),
            ParseLogError::DatabaseError(m) => ParseFailure::DatabaseError(m@),
        }
    }
}

/// The sentence that describes a failure.
pub open spec fn failure_text(e: ParseFailure) -> Seq<char> {
    match e {
        ParseFailure::InvalidCEFFormat => "Invalid CEF format"@,
        ParseFailure::InvalidFormat(m) => "Invalid format: "@ + m,
        ParseFailure::SerializationError(m) => "Serialization error: "@ + m,
        ParseFailure::DatabaseError(m) => "Database error: "@ + m,
    }
}

impl ParseLogError {
    /// The sentence that describes this failure.
    pub fn message(&self) -> (r: String)
        ensures
            r@ == failure_text(self@),
    {
        match self {
            ParseLogError::InvalidCEFFormat => String::from_str("Invalid CEF format"),
            ParseLogError::InvalidFormat(m) => String::from_str("Invalid format: ").concat(
                m.as_str(),
            ),
            ParseLogError::SerializationError(m) => String::from_str(
                "Serialization error: ",
            ).concat(m.as_str()),
            ParseLogError::DatabaseError(m) => String::from_str("Database error: ").concat(
                m.as_str(),
            ),
        }
    }
}

/// The canonical event record.
pub struct NormalizedLog {
    pub timestamp: Option<String>,
    pub src_ip: Option<String>,
    pub dst_ip: Option<String>,
    pub event_type: Option<String>,
    pub host_id: String,
    pub account_id: String,
    pub raw: String,
    pub extensions: Extensions,
}

/// A `NormalizedLog` in contracts.
pub struct Event {
    pub timestamp: Option<Seq<char>>,
    pub src_ip: Option<Seq<char>>,
    pub dst_ip: Option<Seq<char>>,
    pub event_type: Option<Seq<char>>,
    pub host_id: Seq<char>,
    pub account_id: Seq<char>,
    pub raw: Seq<char>,
    pub extensions: Seq<Pair>,
}

impl View for NormalizedLog {
    type V = Event;

    open spec fn view(&self) -> Event {
        Event {
            timestamp: opt_view(self.timestamp),
            src_ip: opt_view(self.src_ip),
            dst_ip: opt_view(self.dst_ip),
            event_type: opt_view(self.event_type),
            host_id: self.host_id@,
            account_id: self.account_id@,
            raw: self.raw@,
            extensions: self.extensions@,
        }
    }
}

impl NormalizedLog {
    /// The extension keys are in order.
    pub open spec fn wf(&self) -> bool {
        self.extensions.wf()
    }
}

/// The formats a line can have.
#[derive(Clone, Copy, Debug, PartialEq, Eq, Structural)]
pub enum LogFormat {
    Cef,
    Syslog,
    Json,
    Unknown,
}

/// Each piece without white space at its ends.
pub open spec fn trim_each(parts: Seq<Seq<char>>) -> Seq<Seq<char>> {
    Seq::new(parts.len(), |i: int| trim(parts[i]))
}

/// The line without outer white space and with every line break, and the
/// white space around it, turned into one space.
pub open spec fn cleaned(log: Seq<char>) -> Seq<char> {
    join(trim_each(split_on(trim(log), '\n')), " "@)
}

fn clean_chars(log: &Vec<char>) -> (r: Vec<char>)
    ensures
        r@ == cleaned(log@),
{
    let outer = trimmed(log);
    let lines = split(&outer, '\n');
    let mut pieces: Vec<Vec<char>> = Vec::new();
    let mut i: usize = 0;
    while i < lines.len()
        invariant
            i <= lines.len(),
            views(pieces@) == trim_each(views(lines@)).take(i as int),
        decreases lines.len() - i,
    {
        let piece = trimmed(&lines[i]);
        pieces.push(piece);
        assert(trim_each(views(lines@)).take(i as int + 1) == trim_each(views(lines@)).take(
            i as int,
        ).push(trim(lines@[i as int]@)));
        i += 1;
    }
    assert(trim_each(views(lines@)).take(lines.len() as int) == trim_each(views(lines@)));
    joined(&pieces, 0, pieces.len(), " ")
}

/// Cleans a raw line: outer white space goes, and every line break, with
/// the white space around it, becomes one space.
pub fn clean_log(log: &str) -> (r: String)
    ensures
        r@ == cleaned(log@),
{
    let chars = to_chars(log);
    let out = clean_chars(&chars);
    from_chars(&out)
}

/// The line opens with `<`, one or more digits and `>`.
pub open spec fn has_priority(s: Seq<char>) -> bool {
    &&& s.len() > 0
    &&& s[0] == '<'
    &&& 1 < first_index(s, '>') < s.len()
    &&& forall|i: int| 1 <= i < first_index(s, '>') ==> ascii_digit(#[trigger] s[i])
}

/// The text has the outline of a `Mmm dd hh:mm:ss` time stamp: more than
/// eleven characters, a space among the fourth to sixth and a colon among
/// the seventh to eleventh.
pub open spec fn timestamp_shaped(s: Seq<char>) -> bool {
    &&& s.len() > 11
    &&& (s[3] == ' ' || s[4] == ' ' || s[5] == ' ')
    &&& (s[6] == ':' || s[7] == ':' || s[8] == ':' || s[9] == ':' || s[10] == ':')
}

/// The format of a cleaned line.
pub open spec fn format_of(s: Seq<char>) -> LogFormat {
    if has_prefix(s, "CEF:"@) {
        LogFormat::Cef
    } else if has_priority(s) && timestamp_shaped(s.skip(first_index(s, '>') + 1)) {
        LogFormat::Syslog
    } else if s.len() > 0 && s[0] == '{' {
        LogFormat::Json
    } else {
        LogFormat::Unknown
    }
}

/// Where the priority ends, if the line opens with one.
fn priority_end(s: &Vec<char>) -> (r: Option<usize>)
    ensures
        match r {
            Some(close) => has_priority(s@) && close == first_index(s@, '>') && close < s.len(),
            None => !has_priority(s@),
        },
{
    if s.len() == 0 || s[0] != '<' {
        return None;
    }
    let close = find_char(s, '>');
    if close <= 1 || close >= s.len() {
        return None;
    }
    let mut i: usize = 1;
    while i < close
        invariant
            1 <= i <= close < s.len(),
            close == first_index(s@, '>'),
            forall|k: int| 1 <= k < i ==> ascii_digit(#[trigger] s@[k]),
        decreases close - i,
    {
        if !is_digit(s[i]) {
            return None;
        }
        i += 1;
    }
    Some(close)
}

fn is_timestamp_shaped(s: &Vec<char>, from: usize) -> (r: bool)
    requires
        from <= s.len(),
    ensures
        r == timestamp_shaped(s@.skip(from as int)),
{
    if s.len() - from <= 11 {
        return false;
    }
    (s[from + 3] == ' ' || s[from + 4] == ' ' || s[from + 5] == ' ') && (s[from + 6] == ':'
        || s[from + 7] == ':' || s[from + 8] == ':' || s[from + 9] == ':' || s[from + 10] == ':')
}

fn detect_chars(s: &Vec<char>) -> (r: LogFormat)
    ensures
        r == format_of(s@),
{
    if starts_with(s, "CEF:") {
        return LogFormat::Cef;
    }
    match priority_end(s) {
        Some(close) => {
            if is_timestamp_shaped(s, close + 1) {
                return LogFormat::Syslog;
            }
        },
        None => {},
    }
    if s.len() > 0 && s[0] == '{' {
        LogFormat::Json
    } else {
        LogFormat::Unknown
    }
}

/// The format of a line, judged after cleaning it.
pub fn detect_format(log: &str) -> (r: LogFormat)
    ensures
        r == format_of(cleaned(log@)),
{
    let chars = to_chars(log);
    let line = clean_chars(&chars);
    detect_chars(&line)
}

/// Whether an outcome is the one a contract asks for.
pub open spec fn parsed_as(
    r: Result<NormalizedLog, ParseLogError>,
    want: Result<Event, ParseFailure>,
) -> bool {
    match r {
        Ok(n) => want == Ok::<Event, ParseFailure>(n@) && n.wf(),
        Err(e) => want == Err::<Event, ParseFailure>(e@),
    }
}

/// The fields with one `key=value` pair taken in: the text before the first
/// `=` is the key, the rest without the quotes at its ends the value. A pair
/// that is empty or holds no `=` adds nothing.
pub open spec fn absorb(fields: Seq<Pair>, pair: Seq<char>) -> Seq<Pair> {
    let at = first_index(pair, '=');
    if at >= pair.len() {
        fields
    } else {
        put(fields, pair.take(at), strip(pair.skip(at + 1), '"'))
    }
}

/// How far the reading of a CEF extension segment has come.
pub struct CefScan {
    /// The pairs taken in so far.
    pub fields: Seq<Pair>,
    /// The pair being read.
    pub pending: Seq<char>,
    /// Whether an odd number of quotes has been seen in it.
    pub quoted: bool,
}

/// Reads a CEF extension segment from the left. A quote toggles the quoted
/// state and belongs to the pair; a space outside quotes ends the pair; any
/// other character belongs to the pair.
pub open spec fn cef_scan(s: Seq<char>) -> CefScan
    decreases s.len(),
{
    if s.len() == 0 {
        CefScan { fields: Seq::empty(), pending: Seq::empty(), quoted: false }
    } else {
        let before = cef_scan(s.drop_last());
        let c = s.last();
        if c == '"' {
            CefScan {
                fields: before.fields,
                pending: before.pending.push(c),
                quoted: !before.quoted,
            }
        } else if c == ' ' && !before.quoted {
            CefScan {
                fields: absorb(before.fields, before.pending),
                pending: Seq::empty(),
                quoted: false,
            }
        } else {
            CefScan { fields: before.fields, pending: before.pending.push(c), quoted: before.quoted }
        }
    }
}

/// The pairs of a CEF extension segment; of two pairs with one key the later stays.
pub open spec fn cef_fields(s: Seq<char>) -> Seq<Pair> {
    absorb(cef_scan(s).fields, cef_scan(s).pending)
}

/// The extension pairs and, over them, the seven header fields under their names.
pub open spec fn cef_extensions(parts: Seq<Seq<char>>) -> Seq<Pair> {
    let e0 = cef_fields(parts[7]);
    let e1 = put(e0, "version"@, remove_all(parts[0], "CEF:"@));
    let e2 = put(e1, "device_vendor"@, parts[1]);
    let e3 = put(e2, "device_product"@, parts[2]);
    let e4 = put(e3, "device_version"@, parts[3]);
    let e5 = put(e4, "signature_id"@, parts[4]);
    let e6 = put(e5, "name"@, parts[5]);
    put(e6, "severity"@, parts[6])
}

/// The first of two lookups that finds something.
pub open spec fn lookup_either(fields: Seq<Pair>, first: Seq<char>, second: Seq<char>) -> Option<
    Seq<char>,
> {
    match lookup(fields, first) {
        Some(v) => Some(v),
        None => lookup(fields, second),
    }
}

/// The event a CEF line stands for. The line must have exactly eight fields
/// between pipes and begin with `CEF:`. The time stamp is the extension `rt`,
/// or else `time`; the addresses are `src` and `dst`; the event type is the
/// sixth field.
pub open spec fn cef_event(line: Seq<char>, account: Seq<char>, host: Seq<char>) -> Result<
    Event,
    ParseFailure,
> {
    let parts = split_on(line, '|');
    if parts.len() != 8 || !has_prefix(parts[0], "CEF:"@) {
        Err(ParseFailure::InvalidFormat("Invalid CEF format"@))
    } else {
        let fields = cef_extensions(parts);
        Ok(
            Event {
                timestamp: lookup_either(fields, "rt"@, "time"@),
                src_ip: lookup(fields, "src"@),
                dst_ip: lookup(fields, "dst"@),
                event_type: Some(parts[5]),
                host_id: host,
                account_id: account,
                raw: line,
                extensions: fields,
            },
        )
    }
}

fn absorb_pair(fields: &mut Extensions, pair: &Vec<char>)
    requires
        old(fields).wf(),
    ensures
        final(fields)@ == absorb(old(fields)@, pair@),
        final(fields).wf(),
{
    let at = find_char(pair, '=');
    if at < pair.len() {
        let key = slice_of(pair, 0, at);
        let rest = slice_of(pair, at + 1, pair.len());
        let value = stripped(&rest, '"');
        fields.put_chars(key, value);
    }
}

fn read_cef_fields(s: &Vec<char>) -> (fields: Extensions)
    ensures
        fields@ == cef_fields(s@),
        fields.wf(),
{
    let mut fields = Extensions::new();
    let mut pending: Vec<char> = Vec::new();
    let mut quoted = false;
    let mut i: usize = 0;
    while i < s.len()
        invariant
            i <= s.len(),
            fields.wf(),
            cef_scan(s@.take(i as int)) == (CefScan {
                fields: fields@,
                pending: pending@,
                quoted: quoted,
            }),
        decreases s.len() - i,
    {
        let c = s[i];
        assert(s@.take(i as int + 1).drop_last() == s@.take(i as int));
        if c == '"' {
            quoted = !quoted;
            pending.push(c);
        } else if c == ' ' && !quoted {
            absorb_pair(&mut fields, &pending);
            pending = Vec::new();
        } else {
            pending.push(c);
        }
        i += 1;
    }
    assert(s@.take(s.len() as int) == s@);
    absorb_pair(&mut fields, &pending);
    fields
}

fn fetch(fields: &Extensions, key: &str) -> (r: Option<String>)
    ensures
        opt_view(r) == lookup(fields@, key@),
{
    fields.get(key)
}

fn cef_from_chars(line: &Vec<char>, account_id: &String, host_id: &String) -> (r: Result<
    NormalizedLog,
    ParseLogError,
>)
    ensures
        parsed_as(r, cef_event(line@, account_id@, host_id@)),
{
    let parts = split(line, '|');
    if parts.len() != 8 || !starts_with(&parts[0], "CEF:") {
        return Err(ParseLogError::InvalidFormat(String::from_str("Invalid CEF format")));
    }
    proof {
        reveal_strlit("CEF:");
    }
    let mut fields = read_cef_fields(&parts[7]);
    fields.put_chars(to_chars("version"), without(&parts[0], "CEF:"));
    fields.put_chars(to_chars("device_vendor"), copy_chars(&parts[1]));
    fields.put_chars(to_chars("device_product"), copy_chars(&parts[2]));
    fields.put_chars(to_chars("device_version"), copy_chars(&parts[3]));
    fields.put_chars(to_chars("signature_id"), copy_chars(&parts[4]));
    fields.put_chars(to_chars("name"), copy_chars(&parts[5]));
    fields.put_chars(to_chars("severity"), copy_chars(&parts[6]));
    let timestamp = match fetch(&fields, "rt") {
        Some(v) => Some(v),
        None => fetch(&fields, "time"),
    };
    let src_ip = fetch(&fields, "src");
    let dst_ip = fetch(&fields, "dst");
    Ok(
        NormalizedLog {
            timestamp,
            src_ip,
            dst_ip,
            event_type: Some(from_chars(&parts[5])),
            host_id: host_id.clone(),
            account_id: account_id.clone(),
            raw: from_chars(line),
            extensions: fields,
        },
    )
}

/// Reads a CEF line.
pub fn parse_cef(log: &str, account_id: &String, host_id: &String) -> (r: Result<
    NormalizedLog,
    ParseLogError,
>)
    ensures
        parsed_as(r, cef_event(log@, account_id@, host_id@)),
{
    let line = to_chars(log);
    cef_from_chars(&line, account_id, host_id)
}

/// The pattern that finds the source address in a syslog message.
pub const SOURCE_PATTERN: &'static str = "(?:SRC|from|client)\\s*=?\\s*(\\d+\\.\\d+\\.\\d+\\.\\d+)";

/// The pattern that finds the destination address in a syslog message.
pub const DESTINATION_PATTERN: &'static str = "DST=(\\d+\\.\\d+\\.\\d+\\.\\d+)";

/// The event type that well-known words in a syslog message give it; the
/// first rule that applies decides.
pub open spec fn syslog_event_type(message: Seq<char>) -> Option<Seq<char>> {
    if has_infix(message, "sshd"@) && has_infix(message, "Failed password"@) {
        Some("failed_login"@)
    } else if has_infix(message, "sshd"@) && has_infix(message, "Accepted password"@) {
        Some("successful_login"@)
    } else if has_infix(message, "systemd"@) {
        Some("systemd_event"@)
    } else if has_infix(message, "kernel"@) {
        Some("kernel_event"@)
    } else if has_infix(message, "crond"@) {
        Some("cron_job"@)
    } else if has_infix(message, "sudo"@) {
        Some("sudo_command"@)
    } else if has_infix(message, "apache2"@) {
        Some("apache_error"@)
    } else {
        None
    }
}

/// The fields with `value` stored under `key` where there is a value.
pub open spec fn put_some(fields: Seq<Pair>, key: Seq<char>, value: Option<Seq<char>>) -> Seq<
    Pair,
> {
    match value {
        Some(v) => put(fields, key, v),
        None => fields,
    }
}

/// The message of a syslog line: the words after the host name, one space apart.
pub open spec fn syslog_message(tokens: Seq<Seq<char>>) -> Seq<char> {
    join(
        tokens.subrange(
            if tokens.len() < 4 {
                tokens.len() as int
            } else {
                4
            },
            tokens.len() as int,
        ),
        " "@,
    )
}

/// The words of a syslog line after its priority.
pub open spec fn syslog_tokens(line: Seq<char>) -> Seq<Seq<char>> {
    words(line.skip(first_index(line, '>') + 1))
}

/// The event a syslog line stands for, given the addresses found in its
/// message. After the priority between `<` and `>` come words: the first
/// three are the time stamp, the fourth the host name, the rest the message.
pub open spec fn syslog_event_with(
    line: Seq<char>,
    account: Seq<char>,
    host: Seq<char>,
    source: Option<Seq<char>>,
    destination: Option<Seq<char>>,
) -> Result<Event, ParseFailure> {
    if !has_priority(line) {
        Err(ParseFailure::InvalidFormat("Missing syslog priority"@))
    } else {
        let close = first_index(line, '>');
        let tokens = syslog_tokens(line);
        let message = syslog_message(tokens);
        let e0 = put_some(Seq::<Pair>::empty(), "src_ip"@, source);
        let e1 = put_some(e0, "dst_ip"@, destination);
        let e2 = put(e1, "priority"@, line.subrange(1, close));
        let e3 = put(
            e2,
            "hostname"@,
            if tokens.len() > 3 {
                tokens[3]
            } else {
                "unknown"@
            },
        );
        Ok(
            Event {
                timestamp: Some(
                    join(
                        tokens.subrange(
                            0,
                            if tokens.len() < 3 {
                                tokens.len() as int
                            } else {
                                3
                            },
                        ),
                        " "@,
                    ),
                ),
                src_ip: source,
                dst_ip: destination,
                event_type: syslog_event_type(message),
                host_id: host,
                account_id: account,
                raw: line,
                extensions: put(e3, "message"@, message),
            },
        )
    }
}

/// The event a syslog line stands for: the addresses are what the two
/// patterns find in its message.
pub open spec fn syslog_event(line: Seq<char>, account: Seq<char>, host: Seq<char>) -> Result<
    Event,
    ParseFailure,
> {
    let message = syslog_message(syslog_tokens(line));
    syslog_event_with(
        line,
        account,
        host,
        crate::pattern::regex_group(SOURCE_PATTERN@, message, 1),
        crate::pattern::regex_group(DESTINATION_PATTERN@, message, 1),
    )
}

fn event_type_of(message: &Vec<char>) -> (r: Option<String>)
    ensures
        opt_view(r) == syslog_event_type(message@),
{
    let daemon = contains(message, "sshd");
    if daemon && contains(message, "Failed password") {
        Some(String::from_str("failed_login"))
    } else if daemon && contains(message, "Accepted password") {
        Some(String::from_str("successful_login"))
    } else if contains(message, "systemd") {
        Some(String::from_str("systemd_event"))
    } else if contains(message, "kernel") {
        Some(String::from_str("kernel_event"))
    } else if contains(message, "crond") {
        Some(String::from_str("cron_job"))
    } else if contains(message, "sudo") {
        Some(String::from_str("sudo_command"))
    } else if contains(message, "apache2") {
        Some(String::from_str("apache_error"))
    } else {
        None
    }
}

fn put_found(fields: &mut Extensions, key: &str, value: &Option<String>)
    requires
        old(fields).wf(),
    ensures
        final(fields)@ == put_some(old(fields)@, key@, opt_view(*value)),
        final(fields).wf(),
{
    match value {
        Some(v) => fields.insert(key, v.as_str()),
        None => {},
    }
}

fn message_of(line: &Vec<char>) -> (r: Vec<char>)
    requires
        has_priority(line@),
    ensures
        r@ == syslog_message(syslog_tokens(line@)),
{
    let close = find_char(line, '>');
    let rest = slice_of(line, close + 1, line.len());
    let tokens = split_words(&rest);
    let message_start: usize = if tokens.len() < 4 {
        tokens.len()
    } else {
        4
    };
    joined(&tokens, message_start, tokens.len(), " ")
}

fn syslog_from_chars(
    line: &Vec<char>,
    account_id: &String,
    host_id: &String,
    source: Option<String>,
    destination: Option<String>,
) -> (r: Result<NormalizedLog, ParseLogError>)
    ensures
        parsed_as(
            r,
            syslog_event_with(
                line@,
                account_id@,
                host_id@,
                opt_view(source),
                opt_view(destination),
            ),
        ),
{
    let close = match priority_end(line) {
        Some(close) => close,
        None => {
            return Err(ParseLogError::InvalidFormat(String::from_str("Missing syslog priority")));
        },
    };
    let priority = slice_of(line, 1, close);
    let rest = slice_of(line, close + 1, line.len());
    let tokens = split_words(&rest);
    let stamp_end: usize = if tokens.len() < 3 {
        tokens.len()
    } else {
        3
    };
    let message_start: usize = if tokens.len() < 4 {
        tokens.len()
    } else {
        4
    };
    let timestamp = joined(&tokens, 0, stamp_end, " ");
    let hostname = if tokens.len() > 3 {
        copy_chars(&tokens[3])
    } else {
        to_chars("unknown")
    };
    let message = joined(&tokens, message_start, tokens.len(), " ");
    let mut fields = Extensions::new();
    put_found(&mut fields, "src_ip", &source);
    put_found(&mut fields, "dst_ip", &destination);
    fields.put_chars(to_chars("priority"), priority);
    fields.put_chars(to_chars("hostname"), hostname);
    let event_type = event_type_of(&message);
    fields.put_chars(to_chars("message"), message);
    Ok(
        NormalizedLog {
            timestamp: Some(from_chars(&timestamp)),
            src_ip: source,
            dst_ip: destination,
            event_type,
            host_id: host_id.clone(),
            account_id: account_id.clone(),
            raw: from_chars(line),
            extensions: fields,
        },
    )
}

/// Builds the event of a syslog line from the line and the addresses that
/// were found in its message.
pub fn syslog_event_from(
    log: &str,
    account_id: &String,
    host_id: &String,
    source: Option<String>,
    destination: Option<String>,
) -> (r: Result<NormalizedLog, ParseLogError>)
    ensures
        parsed_as(
            r,
            syslog_event_with(
                log@,
                account_id@,
                host_id@,
                opt_view(source),
                opt_view(destination),
            ),
        ),
{
    let line = to_chars(log);
    syslog_from_chars(&line, account_id, host_id, source, destination)
}

fn syslog_with_search(line: &Vec<char>, account_id: &String, host_id: &String) -> (r: Result<
    NormalizedLog,
    ParseLogError,
>)
    ensures
        parsed_as(r, syslog_event(line@, account_id@, host_id@)),
{
    if priority_end(line).is_none() {
        return Err(ParseLogError::InvalidFormat(String::from_str("Missing syslog priority")));
    }
    let message = from_chars(&message_of(line));
    let source = crate::pattern::capture(SOURCE_PATTERN, message.as_str(), 1);
    let destination = crate::pattern::capture(DESTINATION_PATTERN, message.as_str(), 1);
    syslog_from_chars(line, account_id, host_id, source, destination)
}

/// Reads a syslog line.
pub fn parse_syslog(log: &str, account_id: &String, host_id: &String) -> (r: Result<
    NormalizedLog,
    ParseLogError,
>)
    ensures
        parsed_as(r, syslog_event(log@, account_id@, host_id@)),
{
    let line = to_chars(log);
    syslog_with_search(&line, account_id, host_id)
}

/// An event with nothing in it but where it came from and what was read.
pub open spec fn bare_event(line: Seq<char>, account: Seq<char>, host: Seq<char>) -> Event {
    Event {
        timestamp: None,
        src_ip: None,
        dst_ip: None,
        event_type: None,
        host_id: host,
        account_id: account,
        raw: line,
        extensions: Seq::empty(),
    }
}

/// The event with one member of a JSON object taken in: by its key the
/// member's text becomes the time stamp, an address or the event type, or
/// else an extension.
pub open spec fn route_member(e: Event, member: Member) -> Event {
    let key = member.0;
    let text = rendered(member.1);
    if key == "time"@ || key == "timestamp"@ {
        Event { timestamp: Some(text), ..e }
    } else if key == "src_ip"@ || key == "source_ip"@ || key == "src"@ {
        Event { src_ip: Some(text), ..e }
    } else if key == "dst_ip"@ || key == "dst"@ {
        Event { dst_ip: Some(text), ..e }
    } else if key == "event"@ || key == "event_type"@ || key == "message"@ {
        Event { event_type: Some(text), ..e }
    } else {
        Event { extensions: put(e.extensions, key, text), ..e }
    }
}

/// The event with the members taken in from first to last.
pub open spec fn route(e: Event, members: Seq<Member>) -> Event
    decreases members.len(),
{
    if members.len() == 0 {
        e
    } else {
        route_member(route(e, members.drop_last()), members.last())
    }
}

/// The event a JSON line stands for, given what the JSON parser made of the line.
pub open spec fn json_event_from(
    parsed: Result<Seq<Member>, Seq<char>>,
    line: Seq<char>,
    account: Seq<char>,
    host: Seq<char>,
) -> Result<Event, ParseFailure> {
    match parsed {
        Ok(members) => Ok(route(bare_event(line, account, host), members)),
        Err(message) => Err(ParseFailure::InvalidFormat("JSON parse error: "@ + message)),
    }
}

/// The event a JSON line stands for.
pub open spec fn json_event(line: Seq<char>, account: Seq<char>, host: Seq<char>) -> Result<
    Event,
    ParseFailure,
> {
    json_event_from(json_object_of(line), line, account, host)
}

/// Builds the event from the members of a parsed JSON object, or the failure
/// from the parser's message.
pub fn event_from_members(
    parsed: Result<Vec<(String, JsonValue)>, String>,
    log: &str,
    account_id: &String,
    host_id: &String,
) -> (r: Result<NormalizedLog, ParseLogError>)
    ensures
        parsed_as(
            r,
            json_event_from(
                match parsed {
                    Ok(members) => Ok(members_view(members@)),
                    Err(message) => Err(message@),
                },
                log@,
                account_id@,
                host_id@,
            ),
        ),
{
    let members = match parsed {
        Ok(members) => members,
        Err(message) => {
            return Err(
                ParseLogError::InvalidFormat(
                    String::from_str("JSON parse error: ").concat(message.as_str()),
                ),
            );
        },
    };
    let mut event = NormalizedLog {
        timestamp: None,
        src_ip: None,
        dst_ip: None,
        event_type: None,
        host_id: host_id.clone(),
        account_id: account_id.clone(),
        raw: String::from_str(log),
        extensions: Extensions::new(),
    };
    let ghost base = bare_event(log@, account_id@, host_id@);
    let ghost all = members_view(members@);
    let mut i: usize = 0;
    while i < members.len()
        invariant
            i <= members.len(),
            all == members_view(members@),
            event.wf(),
            event@ == route(base, all.take(i as int)),
        decreases members.len() - i,
    {
        assert(all.take(i as int + 1).drop_last() == all.take(i as int));
        let key = to_chars(members[i].0.as_str());
        let text = members[i].1.render();
        if spells(&key, "time") || spells(&key, "timestamp") {
            event.timestamp = Some(text);
        } else if spells(&key, "src_ip") || spells(&key, "source_ip") || spells(&key, "src") {
            event.src_ip = Some(text);
        } else if spells(&key, "dst_ip") || spells(&key, "dst") {
            event.dst_ip = Some(text);
        } else if spells(&key, "event") || spells(&key, "event_type") || spells(
            &key,
            "message",
        ) {
            event.event_type = Some(text);
        } else {
            event.extensions.put_chars(key, to_chars(text.as_str()));
        }
        i += 1;
    }
    assert(all.take(members.len() as int) == all);
    Ok(event)
}

/// Reads a JSON line.
pub fn parse_json(log: &str, account_id: &String, host_id: &String) -> (r: Result<
    NormalizedLog,
    ParseLogError,
>)
    ensures
        parsed_as(r, json_event(log@, account_id@, host_id@)),
{
    event_from_members(parse_object(log), log, account_id, host_id)
}

/// The event a raw line stands for: the line is cleaned, its format decides
/// how it is read, and the event keeps the line as it came.
pub open spec fn normalized(raw: Seq<char>, account: Seq<char>, host: Seq<char>) -> Result<
    Event,
    ParseFailure,
> {
    let line = cleaned(raw);
    let parsed = match format_of(line) {
        LogFormat::Cef => cef_event(line, account, host),
        LogFormat::Syslog => syslog_event(line, account, host),
        LogFormat::Json => json_event(line, account, host),
        LogFormat::Unknown => Err(ParseFailure::InvalidFormat("Unknown log format"@)),
    };
    match parsed {
        Ok(e) => Ok(Event { raw: raw, ..e }),
        Err(f) => Err(f),
    }
}

/// An event that a line was normalized into belongs to the account and the
/// host that the line came from, and keeps the line as it came.
pub proof fn lemma_normalized_origin(raw: Seq<char>, account: Seq<char>, host: Seq<char>)
    ensures
        normalized(raw, account, host) matches Ok(e) ==> e.account_id == account && e.host_id
            == host && e.raw == raw,
{
    let line = cleaned(raw);
    match json_object_of(line) {
        Ok(members) => {
            lemma_route_origin(bare_event(line, account, host), members);
        },
        Err(_) => {},
    }
}

/// Taking in the members of a JSON object changes neither where an event
/// came from nor the line it keeps.
pub proof fn lemma_route_origin(e: Event, members: Seq<Member>)
    ensures
        route(e, members).account_id == e.account_id,
        route(e, members).host_id == e.host_id,
        route(e, members).raw == e.raw,
    decreases members.len(),
{
    if members.len() > 0 {
        lemma_route_origin(e, members.drop_last());
    }
}

/// Turns a raw line into an event for the given account and host. A line
/// that is blank, of no known format, or malformed for its format is refused
/// as an invalid format.
pub fn normalize(raw: &str, account_id: &String, host_id: &String) -> (r: Result<
    NormalizedLog,
    ParseLogError,
>)
    ensures
        parsed_as(r, normalized(raw@, account_id@, host_id@)),
        match r {
            Ok(e) => e.account_id@ == account_id@ && e.host_id@ == host_id@ && e.raw@ == raw@,
            Err(e) => e is InvalidFormat,
        },
{
    proof {
        lemma_normalized_origin(raw@, account_id@, host_id@);
    }
    let chars = to_chars(raw);
    let line = clean_chars(&chars);
    let parsed = match detect_chars(&line) {
        LogFormat::Cef => cef_from_chars(&line, account_id, host_id),
        LogFormat::Syslog => syslog_with_search(&line, account_id, host_id),
        LogFormat::Json => {
            let text = from_chars(&line);
            event_from_members(parse_object(text.as_str()), text.as_str(), account_id, host_id)
        },
        LogFormat::Unknown => Err(
            ParseLogError::InvalidFormat(String::from_str("Unknown log format")),
        ),
    };
    match parsed {
        Ok(event) => {
            let mut event = event;
            event.raw = String::from_str(raw);
            Ok(event)
        },
        Err(e) => Err(e),
    }
}

/// An optional text as JSON: the string literal, or `null`.
pub open spec fn json_opt(o: Option<Seq<char>>) -> Seq<char> {
    match o {
        Some(s) => json_string_literal(s),
        None => "null"@,
    }
}

/// One extension as a member of a JSON object.
pub open spec fn json_member(p: Pair) -> Seq<char> {
    json_string_literal(p.0) + ":"@ + json_string_literal(p.1)
}

/// The extensions as the members of a JSON object, with commas between them.
pub open spec fn json_members(fields: Seq<Pair>) -> Seq<char>
    decreases fields.len(),
{
    if fields.len() == 0 {
        Seq::<char>::empty()
    } else if fields.len() == 1 {
        json_member(fields[0])
    } else {
        json_members(fields.drop_last()) + ","@ + json_member(fields.last())
    }
}

/// The canonical JSON text of an event: one object whose members are, in
/// this order, `timestamp`, `src_ip`, `dst_ip`, `event_type`, `host_id`,
/// `account_id`, `raw` and `extensions`, the last an object of the extensions
/// in the order of their keys, with no white space anywhere between tokens.
pub open spec fn canonical(e: Event) -> Seq<char> {
    "{\"timestamp\":"@ + json_opt(e.timestamp) + ",\"src_ip\":"@ + json_opt(e.src_ip)
        + ",\"dst_ip\":"@ + json_opt(e.dst_ip) + ",\"event_type\":"@ + json_opt(e.event_type)
        + ",\"host_id\":"@ + json_string_literal(e.host_id) + ",\"account_id\":"@
        + json_string_literal(e.account_id) + ",\"raw\":"@ + json_string_literal(e.raw)
        + ",\"extensions\":{"@ + json_members(e.extensions) + "}}"@
}

fn append_opt(out: &mut String, value: &Option<String>)
    ensures
        final(out)@ == old(out)@ + json_opt(opt_view(*value)),
{
    match value {
        Some(s) => {
            let q = crate::json::quote(s.as_str());
            out.append(q.as_str());
        },
        None => out.append("null"),
    }
}

fn append_quoted(out: &mut String, value: &str)
    ensures
        final(out)@ == old(out)@ + json_string_literal(value@),
{
    let q = crate::json::quote(value);
    out.append(q.as_str());
}

impl NormalizedLog {
    /// The canonical JSON text of this event.
    pub fn canonical_json(&self) -> (r: String)
        ensures
            r@ == canonical(self@),
    {
        let mut out = String::from_str("{\"timestamp\":");
        append_opt(&mut out, &self.timestamp);
        out.append(",\"src_ip\":");
        append_opt(&mut out, &self.src_ip);
        out.append(",\"dst_ip\":");
        append_opt(&mut out, &self.dst_ip);
        out.append(",\"event_type\":");
        append_opt(&mut out, &self.event_type);
        out.append(",\"host_id\":");
        append_quoted(&mut out, self.host_id.as_str());
        out.append(",\"account_id\":");
        append_quoted(&mut out, self.account_id.as_str());
        out.append(",\"raw\":");
        append_quoted(&mut out, self.raw.as_str());
        out.append(",\"extensions\":{");
        let ghost head = out@;
        let ghost fields = self.extensions@;
        let count = self.extensions.len();
        let mut i: usize = 0;
        while i < count
            invariant
                i <= count,
                count == fields.len(),
                fields == self.extensions@,
                out@ == head + json_members(fields.take(i as int)),
            decreases count - i,
        {
            assert(fields.take(i as int + 1).drop_last() == fields.take(i as int));
            if i > 0 {
                out.append(",");
            }
            let key = from_chars(self.extensions.key_at(i));
            let value = from_chars(self.extensions.value_at(i));
            append_quoted(&mut out, key.as_str());
            out.append(":");
            append_quoted(&mut out, value.as_str());
            i += 1;
        }
        assert(fields.take(count as int) == fields);
        out.append("}}");
        out
    }
}

/// The canonical JSON text and the time stamp of the event a raw line stands for.
pub open spec fn processed(raw: Seq<char>, account: Seq<char>, host: Seq<char>) -> Result<
    (Seq<char>, Seq<char>),
    ParseFailure,
> {
    match normalized(raw, account, host) {
        Ok(e) => Ok(
            (
                canonical(e),
                match e.timestamp {
                    Some(t) => t,
                    None => Seq::<char>::empty(),
                },
            ),
        ),
        Err(f) => Err(f),
    }
}

/// Normalizes a raw line and hands back its canonical JSON text together
/// with its time stamp, which is empty where the line gave none.
pub fn process_log(log: &str, account_id: &String, host_id: &String) -> (r: Result<
    (String, String),
    ParseLogError,
>)
    ensures
        match r {
            Ok(pair) => processed(log@, account_id@, host_id@) == Ok::<
                (Seq<char>, Seq<char>),
                ParseFailure,
            >((pair.0@, pair.1@)),
            Err(e) => processed(log@, account_id@, host_id@) == Err::<
                (Seq<char>, Seq<char>),
                ParseFailure,
            >(e@),
        },
{
    match normalize(log, account_id, host_id) {
        Ok(event) => {
            let text = event.canonical_json();
            let timestamp = match event.timestamp {
                Some(t) => t,
                None => String::new(),
            };
            Ok((text, timestamp))
        },
        Err(e) => Err(e),
    }
}

/// An optional text read from a member: absent or null is none, a string is
/// itself, anything else does not fit.
pub open spec fn optional_text(m: Option<JsonModel>) -> Option<Option<Seq<char>>> {
    match m {
        None => Some(None),
        Some(JsonModel::Null) => Some(None),
        Some(JsonModel::Text(s)) => Some(Some(s)),
        _ => None,
    }
}

/// A text read from a member: only a string fits.
pub open spec fn required_text(m: Option<JsonModel>) -> Option<Seq<char>> {
    match m {
        Some(JsonModel::Text(s)) => Some(s),
        _ => None,
    }
}

/// The extensions read from the members of a JSON object: every value must
/// be a string.
pub open spec fn extension_pairs(members: Seq<Member>) -> Option<Seq<Pair>>
    decreases members.len(),
{
    if members.len() == 0 {
        Some(Seq::<Pair>::empty())
    } else {
        match (extension_pairs(members.drop_last()), members.last().1) {
            (Some(pairs), JsonModel::Text(s)) => Some(put(pairs, members.last().0, s)),
            _ => None,
        }
    }
}

/// What the failure to read an event back from its JSON text says.
pub open spec fn decode_failure() -> ParseFailure {
    ParseFailure::SerializationError("Failed to deserialize log for rule evaluation"@)
}

/// The event read back from the members of its JSON text and, where
/// `extensions` is an array or object, what the JSON parser made of that.
pub open spec fn decoded_from(
    top: Result<Seq<Member>, Seq<char>>,
    nested: Option<Result<Seq<Member>, Seq<char>>>,
) -> Result<Event, ParseFailure> {
    match (top, nested) {
        (Ok(members), Some(Ok(inner))) => match (
            optional_text(member_named(members, "timestamp"@)),
            optional_text(member_named(members, "src_ip"@)),
            optional_text(member_named(members, "dst_ip"@)),
            optional_text(member_named(members, "event_type"@)),
            required_text(member_named(members, "host_id"@)),
            required_text(member_named(members, "account_id"@)),
            required_text(member_named(members, "raw"@)),
            extension_pairs(inner),
        ) {
            (
                Some(timestamp),
                Some(src_ip),
                Some(dst_ip),
                Some(event_type),
                Some(host_id),
                Some(account_id),
                Some(raw),
                Some(extensions),
            ) => Ok(
                Event {
                    timestamp,
                    src_ip,
                    dst_ip,
                    event_type,
                    host_id,
                    account_id,
                    raw,
                    extensions,
                },
            ),
            _ => Err(decode_failure()),
        },
        _ => Err(decode_failure()),
    }
}

/// The JSON text of the `extensions` member, where that is an array or object.
pub open spec fn extensions_text(top: Result<Seq<Member>, Seq<char>>) -> Option<Seq<char>> {
    match top {
        Ok(members) => match member_named(members, "extensions"@) {
            Some(JsonModel::Nested(text)) => Some(text),
            _ => None,
        },
        Err(_) => None,
    }
}

/// The event read back from its JSON text.
pub open spec fn decoded(text: Seq<char>) -> Result<Event, ParseFailure> {
    decoded_from(
        json_object_of(text),
        match extensions_text(json_object_of(text)) {
            Some(inner) => Some(json_object_of(inner)),
            None => None,
        },
    )
}

fn read_optional(m: Option<&JsonValue>) -> (r: Option<Option<String>>)
    ensures
        match r {
            Some(o) => optional_text(
                match m {
                    Some(v) => Some(v@),
                    None => None,
                },
            ) == Some(opt_view(o)),
            None => optional_text(
                match m {
                    Some(v) => Some(v@),
                    None => None,
                },
            ) is None,
        },
{
    match m {
        None => Some(None),
        Some(JsonValue::Null) => Some(None),
        Some(JsonValue::Text(s)) => Some(Some(s.clone())),
        _ => None,
    }
}

fn read_required(m: Option<&JsonValue>) -> (r: Option<String>)
    ensures
        opt_view(r) == required_text(
            match m {
                Some(v) => Some(v@),
                None => None,
            },
        ),
{
    match m {
        Some(JsonValue::Text(s)) => Some(s.clone()),
        _ => None,
    }
}

fn read_extensions(members: &Vec<(String, JsonValue)>) -> (r: Option<Extensions>)
    ensures
        match r {
            Some(e) => extension_pairs(members_view(members@)) == Some(e@) && e.wf(),
            None => extension_pairs(members_view(members@)) is None,
        },
{
    let ghost all = members_view(members@);
    let mut fields = Extensions::new();
    let mut i: usize = 0;
    while i < members.len()
        invariant
            i <= members.len(),
            all == members_view(members@),
            fields.wf(),
            extension_pairs(all.take(i as int)) == Some(fields@),
        decreases members.len() - i,
    {
        proof {
            assert(all.take(i as int + 1).drop_last() == all.take(i as int));
            lemma_extension_pairs_stay_none(all, i as int + 1);
        }
        match &members[i].1 {
            JsonValue::Text(s) => {
                fields.insert(members[i].0.as_str(), s.as_str());
            },
            _ => {
                return None;
            },
        }
        i += 1;
    }
    assert(all.take(members.len() as int) == all);
    Some(fields)
}

/// Once a value that is no string has been met, the extensions cannot be read.
pub proof fn lemma_extension_pairs_stay_none(members: Seq<Member>, n: int)
    requires
        0 <= n <= members.len(),
    ensures
        extension_pairs(members.take(n)) is None ==> extension_pairs(members) is None,
    decreases members.len(),
{
    if n == members.len() {
        assert(members.take(n) == members);
    } else {
        lemma_extension_pairs_stay_none(members.drop_last(), n);
        assert(members.drop_last().take(n) == members.take(n));
    }
}

/// Builds the event back from the members of its JSON text and, where
/// `extensions` is an array or object, from what the JSON parser made of that.
pub fn decode_members(
    top: Result<Vec<(String, JsonValue)>, String>,
    nested: Option<Result<Vec<(String, JsonValue)>, String>>,
) -> (r: Result<NormalizedLog, ParseLogError>)
    ensures
        parsed_as(
            r,
            decoded_from(
                match top {
                    Ok(v) => Ok(members_view(v@)),
                    Err(m) => Err(m@),
                },
                match nested {
                    Some(Ok(v)) => Some(Ok(members_view(v@))),
                    Some(Err(m)) => Some(Err(m@)),
                    None => None,
                },
            ),
        ),
{
    let members = match top {
        Ok(members) => members,
        Err(_) => {
            return Err(decode_error());
        },
    };
    let inner = match nested {
        Some(Ok(inner)) => inner,
        _ => {
            return Err(decode_error());
        },
    };
    let timestamp = read_optional(find_member(&members, "timestamp"));
    let src_ip = read_optional(find_member(&members, "src_ip"));
    let dst_ip = read_optional(find_member(&members, "dst_ip"));
    let event_type = read_optional(find_member(&members, "event_type"));
    let host_id = read_required(find_member(&members, "host_id"));
    let account_id = read_required(find_member(&members, "account_id"));
    let raw = read_required(find_member(&members, "raw"));
    let extensions = read_extensions(&inner);
    match (timestamp, src_ip, dst_ip, event_type, host_id, account_id, raw, extensions) {
        (
            Some(timestamp),
            Some(src_ip),
            Some(dst_ip),
            Some(event_type),
            Some(host_id),
            Some(account_id),
            Some(raw),
            Some(extensions),
        ) => Ok(
            NormalizedLog {
                timestamp,
                src_ip,
                dst_ip,
                event_type,
                host_id,
                account_id,
                raw,
                extensions,
            },
        ),
        _ => Err(decode_error()),
    }
}

fn decode_error() -> (e: ParseLogError)
    ensures
        e@ == decode_failure(),
{
    ParseLogError::SerializationError(
        String::from_str("Failed to deserialize log for rule evaluation"),
    )
}

/// Reads an event back from its JSON text.
pub fn decode(log_data: &str) -> (r: Result<NormalizedLog, ParseLogError>)
    ensures
        parsed_as(r, decoded(log_data@)),
{
    let top = parse_object(log_data);
    let nested = match &top {
        Ok(members) => match find_member(members, "extensions") {
            Some(JsonValue::Nested(text)) => Some(parse_object(text.as_str())),
            _ => None,
        },
        Err(_) => None,
    };
    decode_members(top, nested)
}

} // verus!
