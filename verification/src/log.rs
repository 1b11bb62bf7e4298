//! The log store: events kept under the hash of their canonical JSON text,
//! at most one per account and hash.

use vstd::prelude::*;
use vstd::string::StringExecFns;
use crate::eql::{
    data_matches, eql_failure_text, EqlParser, lexed, planned, QueryExecutor, QueryModel,
};
use crate::log_parser::{canonical, Event, NormalizedLog};
use crate::text::{
    lemma_lex_irreflexive, lemma_lex_transitive, lex_lt, lex_order, opt_view, str_eq, to_chars,
    Order,
};

verus! {

/// The SHA-256 digest of the UTF-8 bytes of a text, as 64 lowercase
/// hexadecimal digits.
pub uninterp spec fn sha256_hex(data: Seq<char>) -> Seq<char>;

/// A digit of lowercase hexadecimal.
pub open spec fn hex_digit(c: char) -> bool {
    ('0' <= c <= '9') || ('a' <= c <= 'f')
}

/// A text of 64 lowercase hexadecimal digits.
pub open spec fn hash_shaped(s: Seq<char>) -> bool {
    s.len() == 64 && forall|i: int| 0 <= i < s.len() ==> hex_digit(#[trigger] s[i])
}

/// Feeds the bytes of `data` to `Sha256` and writes the digest with `{:x}`.
/// The contract names the outcome, and says of it what the sources show: the
/// digest has 32 bytes, and `{:x}` writes each byte as two digits out of
/// `0123456789abcdef`.
#[verifier::external_body]
pub(crate) fn digest_hex(data: &str) -> (r: String)
    ensures
        r@ == sha256_hex(data@),
        hash_shaped(r@),
{
    let mut hasher = <sha2::Sha256 as sha2::Digest>::new();
    sha2::Digest::update(&mut hasher, data.as_bytes());
    format!("{:x}", sha2::Digest::finalize(hasher))
}

/// Why the store turned a request down.
#[derive(Debug)]
pub enum LogError {
    DatabaseError(String),
    ValidationError(String),
}

/// A `LogError` in contracts.
pub enum LogFailure {
    DatabaseError(Seq<char>),
    ValidationError(Seq<char>),
}

impl View for LogError {
    type V = LogFailure;

    open spec fn view(&self) -> LogFailure {
        match self {
            LogError::DatabaseError(m) => LogFailure::DatabaseError(m@),
            LogError::ValidationError(m) => LogFailure::ValidationError(m@),
        }
    }
}

/// The sentence that describes a failure.
pub open spec fn log_failure_text(e: LogFailure) -> Seq<char> {
    match e {
        LogFailure::DatabaseError(m) => "Database error: "@ + m,
        LogFailure::ValidationError(m) => "Validation error: "@ + m,
    }
}

impl LogError {
    /// The sentence that describes this failure.
    pub fn message(&self) -> (r: String)
        ensures
            r@ == log_failure_text(self@),
    {
        match self {
            LogError::DatabaseError(m) => String::from_str("Database error: ").concat(m.as_str()),
            LogError::ValidationError(m) => String::from_str("Validation error: ").concat(
                m.as_str(),
            ),
        }
    }
}

/// A stored event: its identifier, the hash of its canonical JSON text,
/// where it came from, its time stamp and the text itself.
#[derive(Debug)]
pub struct Log {
    pub id: String,
    pub hash: String,
    pub account_id: String,
    pub host_id: String,
    pub timestamp: Option<String>,
    pub log_data: String,
}

/// A `Log` in contracts.
pub struct LogRecord {
    pub id: Seq<char>,
    pub hash: Seq<char>,
    pub account_id: Seq<char>,
    pub host_id: Seq<char>,
    pub timestamp: Option<Seq<char>>,
    pub log_data: Seq<char>,
}

impl View for Log {
    type V = LogRecord;

    open spec fn view(&self) -> LogRecord {
        LogRecord {
            id: self.id@,
            hash: self.hash@,
            account_id: self.account_id@,
            host_id: self.host_id@,
            timestamp: opt_view(self.timestamp),
            log_data: self.log_data@,
        }
    }
}

/// What is wrong with where a record says it came from, if anything.
pub open spec fn origin_fault(account: Seq<char>, host: Seq<char>) -> Option<LogFailure> {
    if account.len() == 0 {
        Some(LogFailure::ValidationError("Account ID cannot be empty"@))
    } else if host.len() == 0 {
        Some(LogFailure::ValidationError("Host ID cannot be empty"@))
    } else {
        None
    }
}

fn check_origin(account_id: &String, host_id: &String) -> (r: Result<(), LogError>)
    ensures
        match r {
            Ok(_) => origin_fault(account_id@, host_id@) is None,
            Err(e) => origin_fault(account_id@, host_id@) == Some(e@),
        },
{
    if account_id.as_str().is_empty() {
        return Err(LogError::ValidationError(String::from_str("Account ID cannot be empty")));
    }
    if host_id.as_str().is_empty() {
        return Err(LogError::ValidationError(String::from_str("Host ID cannot be empty")));
    }
    Ok(())
}

impl Log {
    /// A record names the account and the host it came from.
    pub fn validate(&self) -> (r: Result<(), LogError>)
        ensures
            match r {
                Ok(_) => origin_fault(self.account_id@, self.host_id@) is None,
                Err(e) => origin_fault(self.account_id@, self.host_id@) == Some(e@),
            },
    {
        check_origin(&self.account_id, &self.host_id)
    }

    /// The content hash of the record: that of its canonical JSON text, as
    /// 64 lowercase hexadecimal digits.
    pub fn calculate_hash(&self) -> (r: String)
        ensures
            r@ == sha256_hex(self.log_data@),
            hash_shaped(r@),
    {
        digest_hex(self.log_data.as_str())
    }

    /// A copy of the record.
    pub fn clone(&self) -> (r: Log)
        ensures
            r@ == self@,
    {
        Log {
            id: self.id.clone(),
            hash: self.hash.clone(),
            account_id: self.account_id.clone(),
            host_id: self.host_id.clone(),
            timestamp: match &self.timestamp {
                Some(t) => Some(t.clone()),
                None => None,
            },
            log_data: self.log_data.clone(),
        }
    }
}

/// What an insert did.
#[derive(Debug)]
pub enum InsertOutcome {
    /// The event was new for its account and is now stored.
    Inserted(Log),
    /// The account already held an event with this content.
    Duplicate,
}

/// An `InsertOutcome` in contracts.
pub enum Outcome {
    Inserted(LogRecord),
    Duplicate,
}

impl View for InsertOutcome {
    type V = Outcome;

    open spec fn view(&self) -> Outcome {
        match self {
            InsertOutcome::Inserted(log) => Outcome::Inserted(log@),
            InsertOutcome::Duplicate => Outcome::Duplicate,
        }
    }
}

/// The account holds a record with this hash.
pub open spec fn holds(s: Seq<LogRecord>, account: Seq<char>, hash: Seq<char>) -> bool {
    exists|i: int| 0 <= i < s.len() && (#[trigger] s[i]).account_id == account && s[i].hash == hash
}

/// Some record has this identifier.
pub open spec fn id_in_use(s: Seq<LogRecord>, id: Seq<char>) -> bool {
    exists|i: int| 0 <= i < s.len() && (#[trigger] s[i]).id == id
}

/// The record under which an event is stored.
pub open spec fn record_of(e: Event, id: Seq<char>) -> LogRecord {
    LogRecord {
        id: id,
        hash: sha256_hex(canonical(e)),
        account_id: e.account_id,
        host_id: e.host_id,
        timestamp: e.timestamp,
        log_data: canonical(e),
    }
}

/// What the store holds is consistent: every hash is that of its text, no
/// identifier occurs twice, and no account holds a hash twice.
pub open spec fn consistent(s: Seq<LogRecord>) -> bool {
    &&& forall|i: int| 0 <= i < s.len() ==> (#[trigger] s[i]).hash == sha256_hex(s[i].log_data)
    &&& forall|i: int, j: int|
        0 <= i < s.len() && 0 <= j < s.len() && i != j ==> (#[trigger] s[i]).id != (
        #[trigger] s[j]).id
    &&& forall|i: int, j: int|
        0 <= i < s.len() && 0 <= j < s.len() && i != j && (#[trigger] s[i]).account_id == (
        #[trigger] s[j]).account_id ==> s[i].hash != s[j].hash
}

/// What inserting an event under a proposed identifier does to the records
/// and what it reports. An event without an account or a host is refused; an
/// event whose content its account already holds changes nothing and is
/// reported as a duplicate; an identifier already in use is refused;
/// otherwise the record goes to the end.
pub open spec fn inserted(s: Seq<LogRecord>, e: Event, id: Seq<char>) -> Result<
    (Seq<LogRecord>, Outcome),
    LogFailure,
> {
    match origin_fault(e.account_id, e.host_id) {
        Some(fault) => Err(fault),
        None => if holds(s, e.account_id, sha256_hex(canonical(e))) {
            Ok((s, Outcome::Duplicate))
        } else if id_in_use(s, id) {
            Err(LogFailure::DatabaseError("Log identifier already in use"@))
        } else {
            Ok((s.push(record_of(e, id)), Outcome::Inserted(record_of(e, id))))
        },
    }
}

/// The records of one account, in the order in which they were stored.
pub open spec fn of_account(s: Seq<LogRecord>, account: Seq<char>) -> Seq<LogRecord>
    decreases s.len(),
{
    if s.len() == 0 {
        Seq::<LogRecord>::empty()
    } else if s.last().account_id == account {
        of_account(s.drop_last(), account).push(s.last())
    } else {
        of_account(s.drop_last(), account)
    }
}

/// The records behind a list of logs.
pub open spec fn records(v: Seq<Log>) -> Seq<LogRecord> {
    Seq::new(v.len(), |i: int| v[i]@)
}

/// The content-addressed store of events.
pub struct LogStore {
    logs: Vec<Log>,
}

impl View for LogStore {
    type V = Seq<LogRecord>;

    closed spec fn view(&self) -> Seq<LogRecord> {
        Seq::new(self.logs@.len(), |i: int| self.logs@[i]@)
    }
}

/// Whether an outcome and the store after it are what a contract asks for.
pub open spec fn insert_as(
    after: Seq<LogRecord>,
    before: Seq<LogRecord>,
    r: Result<InsertOutcome, LogError>,
    want: Result<(Seq<LogRecord>, Outcome), LogFailure>,
) -> bool {
    match r {
        Ok(outcome) => want == Ok::<(Seq<LogRecord>, Outcome), LogFailure>((after, outcome@)),
        Err(e) => want == Err::<(Seq<LogRecord>, Outcome), LogFailure>(e@) && after == before,
    }
}

impl LogStore {
    /// What the store holds is consistent.
    pub open spec fn wf(&self) -> bool {
        consistent(self@)
    }

    /// An empty store.
    pub fn new() -> (s: LogStore)
        ensures
            s@ == Seq::<LogRecord>::empty(),
            s.wf(),
    {
        LogStore { logs: Vec::new() }
    }

    /// How many records the store holds.
    pub fn len(&self) -> (n: usize)
        ensures
            n == self@.len(),
    {
        self.logs.len()
    }

    /// The record at a position, counted in the order of storing.
    pub fn get(&self, i: usize) -> (r: &Log)
        requires
            i < self@.len(),
        ensures
            r@ == self@[i as int],
    {
        &self.logs[i]
    }

    /// Whether the account holds a record with this hash.
    pub fn contains_hash(&self, account_id: &str, hash: &str) -> (r: bool)
        ensures
            r == holds(self@, account_id@, hash@),
    {
        let mut i: usize = 0;
        while i < self.logs.len()
            invariant
                i <= self.logs.len(),
                forall|k: int|
                    0 <= k < i ==> !((#[trigger] self@[k]).account_id == account_id@ && self@[k].hash
                        == hash@),
            decreases self.logs.len() - i,
        {
            if str_eq(self.logs[i].account_id.as_str(), account_id) && str_eq(
                self.logs[i].hash.as_str(),
                hash,
            ) {
                assert(self@[i as int].account_id == account_id@);
                return true;
            }
            i += 1;
        }
        false
    }

    /// Whether some record has this identifier.
    pub fn contains_id(&self, id: &str) -> (r: bool)
        ensures
            r == id_in_use(self@, id@),
    {
        let mut i: usize = 0;
        while i < self.logs.len()
            invariant
                i <= self.logs.len(),
                forall|k: int| 0 <= k < i ==> (#[trigger] self@[k]).id != id@,
            decreases self.logs.len() - i,
        {
            if str_eq(self.logs[i].id.as_str(), id) {
                assert(self@[i as int].id == id@);
                return true;
            }
            i += 1;
        }
        false
    }

    /// Stores an event under the identifier proposed for it, unless its
    /// account already holds its content.
    pub fn insert_with_id(&mut self, normalized: &NormalizedLog, id: String) -> (r: Result<
        InsertOutcome,
        LogError,
    >)
        requires
            old(self).wf(),
        ensures
            insert_as(final(self)@, old(self)@, r, inserted(old(self)@, normalized@, id@)),
            final(self).wf(),
            r is Ok ==> holds(
                final(self)@,
                normalized@.account_id,
                sha256_hex(canonical(normalized@)),
            ),
    {
        proof {
            lemma_insert_stores_hash(self@, normalized@, id@);
        }
        let log_data = normalized.canonical_json();
        let draft = Log {
            id: String::new(),
            hash: String::new(),
            account_id: normalized.account_id.clone(),
            host_id: normalized.host_id.clone(),
            timestamp: match &normalized.timestamp {
                Some(t) => Some(t.clone()),
                None => None,
            },
            log_data,
        };
        match create_log_with(self, &draft, id) {
            Ok(Some(log)) => Ok(InsertOutcome::Inserted(log)),
            Ok(None) => Ok(InsertOutcome::Duplicate),
            Err(e) => Err(e),
        }
    }

    /// Stores an event under a fresh identifier, unless its account already
    /// holds its content.
    pub fn insert(&mut self, normalized: &NormalizedLog) -> (r: Result<InsertOutcome, LogError>)
        requires
            old(self).wf(),
        ensures
            exists|id: Seq<char>|
                insert_as(final(self)@, old(self)@, r, #[trigger] inserted(old(self)@, normalized@, id)),
            final(self).wf(),
            r is Ok ==> holds(
                final(self)@,
                normalized@.account_id,
                sha256_hex(canonical(normalized@)),
            ),
    {
        let id = crate::stamp::fresh_id();
        self.insert_with_id(normalized, id)
    }

    /// The records of one account, in the order in which they were stored.
    pub fn get_all(&self, account_id: &str) -> (r: Vec<Log>)
        ensures
            records(r@) == of_account(self@, account_id@),
    {
        let mut out: Vec<Log> = Vec::new();
        let mut i: usize = 0;
        while i < self.logs.len()
            invariant
                i <= self.logs.len(),
                records(out@) == of_account(self@.take(i as int), account_id@),
            decreases self.logs.len() - i,
        {
            assert(self@.take(i as int + 1).drop_last() == self@.take(i as int));
            if str_eq(self.logs[i].account_id.as_str(), account_id) {
                let copy = self.logs[i].clone();
                out.push(copy);
            }
            i += 1;
        }
        assert(self@.take(self.logs.len() as int) == self@);
        out
    }
}

/// The record that is stored for a draft: under the given identifier, with
/// the hash of its text.
pub open spec fn stored_record(draft: LogRecord, id: Seq<char>) -> LogRecord {
    LogRecord { id: id, hash: sha256_hex(draft.log_data), ..draft }
}

/// What storing a draft under a proposed identifier does to the records
/// and what it hands back. A draft without an account or a host is refused;
/// a draft whose text its account already holds changes nothing and hands
/// back nothing; an identifier already in use is refused; otherwise the
/// record goes to the end and is handed back.
pub open spec fn log_created(s: Seq<LogRecord>, draft: LogRecord, id: Seq<char>) -> Result<
    (Seq<LogRecord>, Option<LogRecord>),
    LogFailure,
> {
    match origin_fault(draft.account_id, draft.host_id) {
        Some(fault) => Err(fault),
        None => if holds(s, draft.account_id, sha256_hex(draft.log_data)) {
            Ok((s, None))
        } else if id_in_use(s, id) {
            Err(LogFailure::DatabaseError("Log identifier already in use"@))
        } else {
            Ok((s.push(stored_record(draft, id)), Some(stored_record(draft, id))))
        },
    }
}

/// Whether what came of storing a draft, and the store after it, are what
/// a contract asks for.
pub open spec fn created_as(
    after: Seq<LogRecord>,
    before: Seq<LogRecord>,
    r: Result<Option<Log>, LogError>,
    want: Result<(Seq<LogRecord>, Option<LogRecord>), LogFailure>,
) -> bool {
    match r {
        Ok(found) => want == Ok::<(Seq<LogRecord>, Option<LogRecord>), LogFailure>(
            (
                after,
                match found {
                    Some(log) => Some(log@),
                    None => None,
                },
            ),
        ),
        Err(e) => want == Err::<(Seq<LogRecord>, Option<LogRecord>), LogFailure>(e@) && after
            == before,
    }
}

/// Stores a draft under the identifier proposed for it, with the hash of
/// its text, unless its account already holds that text.
pub fn create_log_with(store: &mut LogStore, log: &Log, id: String) -> (r: Result<
    Option<Log>,
    LogError,
>)
    requires
        old(store).wf(),
    ensures
        created_as(final(store)@, old(store)@, r, log_created(old(store)@, log@, id@)),
        final(store).wf(),
{
    match log.validate() {
        Err(e) => {
            return Err(e);
        },
        Ok(_) => {},
    }
    let hash = log.calculate_hash();
    if store.contains_hash(log.account_id.as_str(), hash.as_str()) {
        return Ok(None);
    }
    if store.contains_id(id.as_str()) {
        return Err(LogError::DatabaseError(String::from_str("Log identifier already in use")));
    }
    let mut stored = log.clone();
    stored.id = id;
    stored.hash = hash;
    let copy = stored.clone();
    let ghost before = store@;
    store.logs.push(stored);
    assert(store@ == before.push(copy@));
    Ok(Some(copy))
}

/// Stores a draft under a fresh identifier, with the hash of its text,
/// unless its account already holds that text.
pub fn create_log(store: &mut LogStore, log: &Log) -> (r: Result<Option<Log>, LogError>)
    requires
        old(store).wf(),
    ensures
        exists|id: Seq<char>|
            created_as(final(store)@, old(store)@, r, #[trigger] log_created(old(store)@, log@, id)),
        final(store).wf(),
{
    let id = crate::stamp::fresh_id();
    create_log_with(store, log, id)
}

/// The records of one account in the order in which they were stored. An
/// empty account is refused.
pub fn get_all_logs(store: &LogStore, account_id: &String) -> (r: Result<Vec<Log>, LogError>)
    ensures
        match r {
            Ok(logs) => account_id@.len() > 0 && records(logs@) == of_account(
                store@,
                account_id@,
            ),
            Err(e) => account_id@.len() == 0 && e@ == LogFailure::ValidationError(
                "Account ID cannot be empty"@,
            ),
        },
{
    if account_id.as_str().is_empty() {
        return Err(LogError::ValidationError(String::from_str("Account ID cannot be empty")));
    }
    Ok(store.get_all(account_id.as_str()))
}

/// Two records of one account with the same text have the same hash and
/// are one and the same record.
pub proof fn lemma_one_record_per_text(s: Seq<LogRecord>, i: int, j: int)
    requires
        consistent(s),
        0 <= i < s.len(),
        0 <= j < s.len(),
        s[i].account_id == s[j].account_id,
        s[i].log_data == s[j].log_data,
    ensures
        s[i].hash == s[j].hash,
        i == j,
{
}

/// An insert keeps the store consistent.
pub proof fn lemma_insert_keeps_consistent(s: Seq<LogRecord>, e: Event, id: Seq<char>)
    requires
        consistent(s),
    ensures
        inserted(s, e, id) matches Ok(after) ==> consistent(after.0),
{
    match inserted(s, e, id) {
        Ok((after, Outcome::Inserted(record))) => {
        },
        _ => {},
    }
}

/// After an insert that went through, the account holds a record whose hash
/// is that of the event's canonical JSON text; a record that was inserted
/// has that hash and that text.
pub proof fn lemma_insert_stores_hash(s: Seq<LogRecord>, e: Event, id: Seq<char>)
    ensures
        inserted(s, e, id) matches Ok(after) ==> holds(
            after.0,
            e.account_id,
            sha256_hex(canonical(e)),
        ),
        inserted(s, e, id) matches Ok(after) ==> (after.1 matches Outcome::Inserted(record)
            ==> record.hash == sha256_hex(canonical(e)) && record.log_data == canonical(e)),
{
    match inserted(s, e, id) {
        Ok((after, Outcome::Inserted(record))) => {
            assert(after[after.len() - 1] == record);
        },
        _ => {},
    }
}

/// Inserting an event a second time reports a duplicate and changes nothing.
pub proof fn lemma_insert_twice(s: Seq<LogRecord>, e: Event, first: Seq<char>, second: Seq<char>)
    ensures
        inserted(s, e, first) matches Ok(after) ==> inserted(after.0, e, second) == Ok::<
            (Seq<LogRecord>, Outcome),
            LogFailure,
        >((after.0, Outcome::Duplicate)),
{
    lemma_insert_stores_hash(s, e, first);
}

/// Whether one time stamp comes before another: no time stamp comes before
/// any, and two time stamps stand in dictionary order.
pub open spec fn stamp_lt(a: Option<Seq<char>>, b: Option<Seq<char>>) -> bool {
    match (a, b) {
        (None, Some(_)) => true,
        (Some(x), Some(y)) => lex_lt(x, y),
        _ => false,
    }
}

/// The records, which fall by time stamp, with one more put in its place:
/// before the first record with an earlier time stamp.
pub open spec fn placed(sorted: Seq<LogRecord>, r: LogRecord) -> Seq<LogRecord>
    decreases sorted.len(),
{
    if sorted.len() == 0 {
        seq![r]
    } else if stamp_lt(sorted[0].timestamp, r.timestamp) {
        seq![r] + sorted
    } else {
        seq![sorted[0]] + placed(sorted.skip(1), r)
    }
}

/// The records arranged by falling time stamp; records with one time stamp
/// keep their order.
pub open spec fn newest_first(s: Seq<LogRecord>) -> Seq<LogRecord>
    decreases s.len(),
{
    if s.len() == 0 {
        Seq::<LogRecord>::empty()
    } else {
        placed(newest_first(s.drop_last()), s.last())
    }
}

/// No record comes before one with a later time stamp.
pub open spec fn falling(s: Seq<LogRecord>) -> bool {
    forall|i: int, j: int|
        0 <= i < j < s.len() ==> !stamp_lt((#[trigger] s[i]).timestamp, (#[trigger] s[j]).timestamp)
}

/// No time stamp comes before itself.
pub proof fn lemma_stamp_irreflexive(a: Option<Seq<char>>)
    ensures
        !stamp_lt(a, a),
{
    match a {
        Some(x) => {
            lemma_lex_irreflexive(x);
        },
        None => {},
    }
}

/// Every record of `placed(sorted, r)` is `r` or a record of `sorted`, and
/// the result is one longer.
pub proof fn lemma_placed_members(sorted: Seq<LogRecord>, r: LogRecord)
    ensures
        placed(sorted, r).len() == sorted.len() + 1,
        forall|k: int|
            0 <= k < placed(sorted, r).len() ==> #[trigger] placed(sorted, r)[k] == r || exists|
                m: int,
            |
                0 <= m < sorted.len() && sorted[m] == placed(sorted, r)[k],
    decreases sorted.len(),
{
    let p = placed(sorted, r);
    if sorted.len() == 0 {
    } else if stamp_lt(sorted[0].timestamp, r.timestamp) {
    } else {
        lemma_placed_members(sorted.skip(1), r);
        let inner = placed(sorted.skip(1), r);
    }
}

/// Putting a record in its place keeps the time stamps falling.
pub proof fn lemma_placed_falling(sorted: Seq<LogRecord>, r: LogRecord)
    requires
        falling(sorted),
    ensures
        falling(placed(sorted, r)),
    decreases sorted.len(),
{
    let p = placed(sorted, r);
    if sorted.len() == 0 {
    } else if stamp_lt(sorted[0].timestamp, r.timestamp) {
        assert forall|i: int, j: int| 0 <= i < j < p.len() implies !stamp_lt(
            (#[trigger] p[i]).timestamp,
            (#[trigger] p[j]).timestamp,
        ) by {
            if i == 0 {
                if stamp_lt(r.timestamp, sorted[j - 1].timestamp) {
                    lemma_stamp_chain(sorted[0].timestamp, r.timestamp, sorted[j - 1].timestamp);
                    if j == 1 {
                        lemma_stamp_irreflexive(sorted[0].timestamp);
                    }
                }
            }
        }
    } else {
        let rest = sorted.skip(1);
        lemma_placed_falling(rest, r);
        lemma_placed_members(rest, r);
        let inner = placed(rest, r);
    }
}

/// Before is carried along: what comes before something that comes before
/// a third comes before the third.
pub proof fn lemma_stamp_chain(a: Option<Seq<char>>, b: Option<Seq<char>>, c: Option<Seq<char>>)
    requires
        stamp_lt(a, b),
        stamp_lt(b, c),
    ensures
        stamp_lt(a, c),
{
    match (a, b, c) {
        (Some(x), Some(y), Some(z)) => {
            lemma_lex_transitive(x, y, z);
        },
        _ => {},
    }
}

/// Arranged by falling time stamp, the records fall by time stamp and are
/// as many as before.
pub proof fn lemma_newest_first_falling(s: Seq<LogRecord>)
    ensures
        falling(newest_first(s)),
        newest_first(s).len() == s.len(),
    decreases s.len(),
{
    if s.len() > 0 {
        lemma_newest_first_falling(s.drop_last());
        lemma_placed_falling(newest_first(s.drop_last()), s.last());
        lemma_placed_members(newest_first(s.drop_last()), s.last());
    }
}

/// One record alone, as a multiset, is the empty multiset with it put in.
proof fn lemma_single_record(r: LogRecord)
    ensures
        seq![r].to_multiset() == vstd::multiset::Multiset::<LogRecord>::empty().insert(r),
{
    let none = Seq::<LogRecord>::empty();
    none.to_multiset_ensures();
    vstd::multiset::lemma_multiset_empty_len(none.to_multiset());
}

/// Putting a record in its place adds that record and no other.
pub proof fn lemma_placed_same_records(sorted: Seq<LogRecord>, r: LogRecord)
    ensures
        placed(sorted, r).to_multiset() == sorted.to_multiset().insert(r),
    decreases sorted.len(),
{
    broadcast use vstd::multiset::group_multiset_axioms;

    lemma_single_record(r);
    if sorted.len() == 0 {
        sorted.to_multiset_ensures();
    } else if stamp_lt(sorted[0].timestamp, r.timestamp) {
        vstd::seq_lib::lemma_multiset_commutative(seq![r], sorted);
    } else {
        let head = seq![sorted[0]];
        let rest = sorted.skip(1);
        lemma_placed_same_records(rest, r);
        vstd::seq_lib::lemma_multiset_commutative(head, placed(rest, r));
        vstd::seq_lib::lemma_multiset_commutative(head, rest);
        assert(head + rest == sorted);
    }
}

/// Arranged by falling time stamp, the records are the same ones, each as
/// often as before.
pub proof fn lemma_newest_first_same_records(s: Seq<LogRecord>)
    ensures
        newest_first(s).to_multiset() == s.to_multiset(),
    decreases s.len(),
{
    if s.len() > 0 {
        lemma_newest_first_same_records(s.drop_last());
        lemma_placed_same_records(newest_first(s.drop_last()), s.last());
        s.drop_last().to_multiset_ensures();
        assert(s.drop_last().push(s.last()) == s);
    } else {
        assert(newest_first(s) == s);
    }
}

/// The records of an account that meet a query, in the order of the store.
/// Where both ends of a time window are given, a record must bear a time
/// stamp between them, both included, in dictionary order.
pub open spec fn found(
    store: Seq<LogRecord>,
    account: Seq<char>,
    window: Option<(Seq<char>, Seq<char>)>,
    q: QueryModel,
) -> Seq<LogRecord>
    decreases store.len(),
{
    if store.len() == 0 {
        Seq::<LogRecord>::empty()
    } else {
        let r = store.last();
        let inside = match window {
            Some((start, end)) => match r.timestamp {
                Some(t) => !lex_lt(t, start) && !lex_lt(end, t),
                None => false,
            },
            None => true,
        };
        if r.account_id == account && inside && data_matches(r.log_data, q) {
            found(store.drop_last(), account, window, q).push(r)
        } else {
            found(store.drop_last(), account, window, q)
        }
    }
}

/// The time window that two optional ends make: there is one where both are given.
pub open spec fn window_of(start: Option<Seq<char>>, end: Option<Seq<char>>) -> Option<
    (Seq<char>, Seq<char>),
> {
    match (start, end) {
        (Some(s), Some(e)) => Some((s, e)),
        _ => None,
    }
}

/// What a query text finds in the store for an account: a refusal by the
/// lexer or the planner, as a validation failure that carries its sentence,
/// or the records that meet the query, newest first.
pub open spec fn queried(
    store: Seq<LogRecord>,
    account: Seq<char>,
    query: Seq<char>,
    start: Option<Seq<char>>,
    end: Option<Seq<char>>,
) -> Result<Seq<LogRecord>, LogFailure> {
    match lexed(query) {
        Err(e) => Err(LogFailure::ValidationError(eql_failure_text(e))),
        Ok(tokens) => match planned(tokens) {
            Err(e) => Err(LogFailure::ValidationError(eql_failure_text(e))),
            Ok(q) => Ok(newest_first(found(store, account, window_of(start, end), q))),
        },
    }
}

fn stamp_before(a: &Option<String>, b: &Option<String>) -> (r: bool)
    ensures
        r == stamp_lt(opt_view(*a), opt_view(*b)),
{
    match (a, b) {
        (None, Some(_)) => true,
        (Some(x), Some(y)) => lex_order(&to_chars(x.as_str()), &to_chars(y.as_str()))
            == Order::Less,
        _ => false,
    }
}

fn place(sorted: &mut Vec<Log>, log: Log)
    ensures
        records(final(sorted)@) == placed(records(old(sorted)@), log@),
{
    let ghost s = records(sorted@);
    let ghost r = log@;
    let mut i: usize = 0;
    assert(s.skip(0) == s);
    while i < sorted.len() && !stamp_before(&sorted[i].timestamp, &log.timestamp)
        invariant
            i <= sorted.len(),
            s == records(sorted@),
            r == log@,
            placed(s, r) == s.take(i as int) + placed(s.skip(i as int), r),
        decreases sorted.len() - i,
    {
        let ghost rest = s.skip(i as int);
        assert(rest.skip(1) == s.skip(i as int + 1));
        i += 1;
    }
    sorted.insert(i, log);
}

/// Runs a query text against the records of an account and hands back
/// those that meet it, newest first. A refusal by the lexer or the planner
/// comes back as a validation failure that carries its sentence.
pub fn get_query_logs(
    store: &LogStore,
    account_id: &str,
    eql_query: &str,
    start_time: Option<String>,
    end_time: Option<String>,
) -> (r: Result<Vec<Log>, LogError>)
    ensures
        match r {
            Ok(logs) => queried(
                store@,
                account_id@,
                eql_query@,
                opt_view(start_time),
                opt_view(end_time),
            ) == Ok::<Seq<LogRecord>, LogFailure>(records(logs@)),
            Err(e) => queried(
                store@,
                account_id@,
                eql_query@,
                opt_view(start_time),
                opt_view(end_time),
            ) == Err::<Seq<LogRecord>, LogFailure>(e@),
        },
{
    let tokens = match EqlParser::parse(eql_query) {
        Ok(tokens) => tokens,
        Err(e) => {
            return Err(LogError::ValidationError(e.message()));
        },
    };
    let query = match QueryExecutor::parse_query(tokens) {
        Ok(query) => query,
        Err(e) => {
            return Err(LogError::ValidationError(e.message()));
        },
    };
    let window: Option<(Vec<char>, Vec<char>)> = match (&start_time, &end_time) {
        (Some(s), Some(e)) => Some((to_chars(s.as_str()), to_chars(e.as_str()))),
        _ => None,
    };
    let ghost wanted = window_of(opt_view(start_time), opt_view(end_time));
    let mut sorted: Vec<Log> = Vec::new();
    let count = store.len();
    let mut i: usize = 0;
    while i < count
        invariant
            i <= count,
            count == store@.len(),
            wanted == (match window {
                Some(w) => Some((w.0@, w.1@)),
                None => None,
            }),
            records(sorted@) == newest_first(
                found(store@.take(i as int), account_id@, wanted, query@),
            ),
        decreases count - i,
    {
        assert(store@.take(i as int + 1).drop_last() == store@.take(i as int));
        let log = store.get(i);
        let inside = match &window {
            Some(w) => match &log.timestamp {
                Some(t) => {
                    let stamp = to_chars(t.as_str());
                    lex_order(&stamp, &w.0) != Order::Less && lex_order(&w.1, &stamp)
                        != Order::Less
                },
                None => false,
            },
            None => true,
        };
        if str_eq(log.account_id.as_str(), account_id) && inside && QueryExecutor::matches_query(
            log.log_data.as_str(),
            &query,
        ) {
            let ghost before = found(store@.take(i as int), account_id@, wanted, query@);
            assert(before.push(log@).drop_last() == before);
            place(&mut sorted, log.clone());
        }
        i += 1;
    }
    assert(store@.take(count as int) == store@);
    Ok(sorted)
}

} // verus!
