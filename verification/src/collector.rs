//! The processor: it takes a batch from the queue and drives each line
//! through the normalizer, the log store and the rule engine.

use vstd::prelude::*;
use vstd::string::StringExecFns;
use crate::alert::{AlertModel, AlertSink};
use crate::log::{
    holds, inserted, InsertOutcome, Log, log_failure_text, LogRecord, LogStore, Outcome, records,
};
use crate::log_parser::{decode, decoded, normalize, normalized, Event, ParseFailure, ParseLogError};
use crate::message_queue::MessageQueue;
use crate::rules::{
    applicable, broke_off, evaluate_log_against_rules, raised_by, rule_failure_text, RuleBook,
    RuleFailure, RuleModel,
};

verus! {

/// A mirror of the events stored of late, with a running number.
pub struct LogCollector {
    logs: Vec<Log>,
    next_id: u16,
}

impl LogCollector {
    /// The events mirrored so far, oldest first.
    pub closed spec fn mirrored(&self) -> Seq<LogRecord> {
        records(self.logs@)
    }

    /// The number that the next event gets.
    pub closed spec fn next_number(&self) -> int {
        self.next_id as int
    }

    /// A collector that mirrors nothing yet and counts from one.
    pub fn new() -> (c: LogCollector)
        ensures
            c.mirrored() == Seq::<LogRecord>::empty(),
            c.next_number() == 1,
    {
        let c = LogCollector { logs: Vec::new(), next_id: 1 };
        c
    }

    /// Mirrors an event and hands back its number. The numbers start at one
    /// and begin again at zero after 65535.
    pub fn add_log(&mut self, log: Log) -> (number: u16)
        ensures
            number == old(self).next_number(),
            final(self).mirrored() == old(self).mirrored().push(log@),
            final(self).next_number() == (old(self).next_number() + 1) % 0x10000,
    {
        let number = self.next_id;
        self.next_id = if number == 0xffff {
            0
        } else {
            number + 1
        };
        self.logs.push(log);
        number
    }

    /// How many events are mirrored.
    pub fn len(&self) -> (n: usize)
        ensures
            n == self.mirrored().len(),
    {
        self.logs.len()
    }

    /// The mirrored event at a position, oldest first.
    pub fn get(&self, i: usize) -> (r: &Log)
        requires
            i < self.mirrored().len(),
        ensures
            r@ == self.mirrored()[i as int],
    {
        &self.logs[i]
    }
}

/// Everything the processor works on.
pub struct ProcessorContext {
    pub queue: MessageQueue,
    pub store: LogStore,
    pub rules: RuleBook,
    pub alerts: AlertSink,
    pub collector: LogCollector,
}

/// What the processor changes, in contracts.
pub struct Pipeline {
    pub store: Seq<LogRecord>,
    pub alerts: Seq<AlertModel>,
    pub mirror: Seq<LogRecord>,
    pub next_number: int,
}

impl ProcessorContext {
    /// The queue, the store, the book of rules and the sink are in order.
    pub open spec fn wf(&self) -> bool {
        self.queue.wf() && self.store.wf() && self.rules.wf() && self.alerts.wf()
    }

    /// What the processor changes.
    pub open spec fn pipeline(&self) -> Pipeline {
        Pipeline {
            store: self.store@,
            alerts: self.alerts@,
            mirror: self.collector.mirrored(),
            next_number: self.collector.next_number(),
        }
    }

    /// A context with nothing in it and a queue of the given capacity.
    pub fn new(capacity: usize) -> (c: ProcessorContext)
        ensures
            c.wf(),
            c.queue@.len() == 0,
            c.queue.capacity() == capacity,
            c.store@.len() == 0,
            c.rules@.len() == 0,
            c.alerts@.len() == 0,
            c.collector.mirrored().len() == 0,
            c.collector.next_number() == 1,
    {
        ProcessorContext {
            queue: MessageQueue::with_capacity(capacity),
            store: LogStore::new(),
            rules: RuleBook::new(),
            alerts: AlertSink::new(),
            collector: LogCollector::new(),
        }
    }
}

/// How the rule engine leaves the alerts where it fails on an event, and
/// with what failure: an empty account is refused and nothing changes, or
/// the evaluation broke off where the sink refused an alert.
pub open spec fn evaluation_failed(
    rules: Seq<RuleModel>,
    e: Event,
    account: Seq<char>,
    before: Seq<AlertModel>,
    after: Seq<AlertModel>,
    fault: RuleFailure,
) -> bool {
    if account.len() == 0 {
        fault == RuleFailure::ValidationError("Account ID cannot be empty"@) && after == before
    } else {
        broke_off(after, before, applicable(rules, e, account), fault)
    }
}

/// How the rule engine may leave the alerts after a new event, and what the
/// processor then reports: all the rules that apply raised their alerts, or
/// the engine failed and the processor reports a database failure whose
/// text is `Rule evaluation error: ` and the sentence of the engine's
/// failure.
pub open spec fn evaluated(
    rules: Seq<RuleModel>,
    e: Event,
    account: Seq<char>,
    before: Seq<AlertModel>,
    after: Seq<AlertModel>,
    r: Result<(), ParseFailure>,
) -> bool {
    match r {
        Ok(_) => exists|raised: Seq<AlertModel>| #[trigger]
            raised_by(raised, applicable(rules, e, account)) && after == before + raised,
        Err(f) => exists|fault: RuleFailure| #[trigger]
            evaluation_failed(rules, e, account, before, after, fault) && f
                == ParseFailure::DatabaseError(
                "Rule evaluation error: "@ + rule_failure_text(fault),
            ),
    }
}

/// How one raw line may take the pipeline from one state to the next, and
/// what the processor reports for it. A line that cannot be normalized is
/// reported and changes nothing. An event that its account already holds
/// changes nothing. A new event is stored and mirrored, read back from its
/// stored text, and held against the rules.
pub open spec fn line_step(
    rules: Seq<RuleModel>,
    s0: Pipeline,
    line: Seq<char>,
    account: Seq<char>,
    host: Seq<char>,
    s1: Pipeline,
    r: Result<(), ParseFailure>,
) -> bool {
    match normalized(line, account, host) {
        Err(f) => r == Err::<(), ParseFailure>(f) && s1 == s0,
        Ok(e) => exists|id: Seq<char>|
            match #[trigger] inserted(s0.store, e, id) {
                Err(f) => r == Err::<(), ParseFailure>(
                    ParseFailure::DatabaseError(log_failure_text(f)),
                ) && s1 == s0,
                Ok((_, Outcome::Duplicate)) => r is Ok && s1 == s0,
                Ok((store, Outcome::Inserted(record))) => s1.store == store && s1.mirror
                    == s0.mirror.push(record) && s1.next_number == (s0.next_number + 1) % 0x10000
                    && (match decoded(record.log_data) {
                    Err(f) => r == Err::<(), ParseFailure>(f) && s1.alerts == s0.alerts,
                    Ok(read) => evaluated(rules, read, account, s0.alerts, s1.alerts, r),
                }),
            },
    }
}

/// How the lines of a batch, taken first to last, may take the pipeline
/// from one state to another with the given report for the last line; every
/// line before the last went through.
pub open spec fn ran(
    rules: Seq<RuleModel>,
    s0: Pipeline,
    lines: Seq<Seq<char>>,
    account: Seq<char>,
    host: Seq<char>,
    s1: Pipeline,
    r: Result<(), ParseFailure>,
) -> bool
    decreases lines.len(),
{
    if lines.len() == 0 {
        s1 == s0 && r is Ok
    } else {
        exists|mid: Pipeline|
            ran(rules, s0, lines.drop_last(), account, host, mid, Ok(())) && #[trigger] line_step(
                rules,
                mid,
                lines.last(),
                account,
                host,
                s1,
                r,
            )
    }
}

/// How a batch may take the pipeline from one state to another: all its
/// lines went through, or the lines up to one that was reported did, and
/// the rest of the batch is dropped.
pub open spec fn batch_run(
    rules: Seq<RuleModel>,
    s0: Pipeline,
    lines: Seq<Seq<char>>,
    account: Seq<char>,
    host: Seq<char>,
    s1: Pipeline,
    r: Result<(), ParseFailure>,
) -> bool {
    exists|n: int|
        0 <= n <= lines.len() && (r is Ok ==> n == lines.len()) && #[trigger] ran(
            rules,
            s0,
            lines.take(n),
            account,
            host,
            s1,
            r,
        )
}

/// Puts one raw line through the normalizer, the store and the rule engine.
pub fn process_line(ctx: &mut ProcessorContext, line: &str, account_id: &String, host_id: &String) -> (r:
    Result<(), ParseLogError>)
    requires
        old(ctx).wf(),
    ensures
        final(ctx).wf(),
        final(ctx).queue@ == old(ctx).queue@,
        final(ctx).queue.capacity() == old(ctx).queue.capacity(),
        final(ctx).rules@ == old(ctx).rules@,
        line_step(
            old(ctx).rules@,
            old(ctx).pipeline(),
            line@,
            account_id@,
            host_id@,
            final(ctx).pipeline(),
            match r {
                Ok(_) => Ok(()),
                Err(e) => Err(e@),
            },
        ),
{
    let event = match normalize(line, account_id, host_id) {
        Ok(event) => event,
        Err(e) => {
            return Err(e);
        },
    };
    let id = crate::stamp::fresh_id();
    let outcome = ctx.store.insert_with_id(&event, id);
    match outcome {
        Err(e) => Err(ParseLogError::DatabaseError(e.message())),
        Ok(InsertOutcome::Duplicate) => Ok(()),
        Ok(InsertOutcome::Inserted(log)) => {
            let read = decode(log.log_data.as_str());
            ctx.collector.add_log(log);
            match read {
                Err(e) => Err(e),
                Ok(read) => {
                    let ghost before = ctx.alerts@;
                    match evaluate_log_against_rules(&ctx.rules, &mut ctx.alerts, &read, account_id) {
                        Ok(_) => Ok(()),
                        Err(e) => {
                            assert(evaluation_failed(
                                ctx.rules@,
                                read@,
                                account_id@,
                                before,
                                ctx.alerts@,
                                e@,
                            ));
                            Err(
                                ParseLogError::DatabaseError(
                                    String::from_str("Rule evaluation error: ").concat(
                                        e.message().as_str(),
                                    ),
                                ),
                            )
                        },
                    }
                },
            }
        },
    }
}

/// Puts the lines of a batch through the pipeline, first to last, and
/// breaks off at the first line that is reported.
pub fn process_batch(
    ctx: &mut ProcessorContext,
    lines: &Vec<String>,
    account_id: &String,
    host_id: &String,
) -> (r: Result<(), ParseLogError>)
    requires
        old(ctx).wf(),
    ensures
        final(ctx).wf(),
        final(ctx).queue@ == old(ctx).queue@,
        final(ctx).queue.capacity() == old(ctx).queue.capacity(),
        final(ctx).rules@ == old(ctx).rules@,
        batch_run(
            old(ctx).rules@,
            old(ctx).pipeline(),
            crate::text::string_views(lines@),
            account_id@,
            host_id@,
            final(ctx).pipeline(),
            match r {
                Ok(_) => Ok(()),
                Err(e) => Err(e@),
            },
        ),
{
    let ghost all = crate::text::string_views(lines@);
    let ghost s0 = ctx.pipeline();
    let ghost rules = ctx.rules@;
    let mut i: usize = 0;
    while i < lines.len()
        invariant
            i <= lines.len(),
            ctx.wf(),
            ctx.queue@ == old(ctx).queue@,
            ctx.queue.capacity() == old(ctx).queue.capacity(),
            ctx.rules@ == rules,
            rules == old(ctx).rules@,
            s0 == old(ctx).pipeline(),
            all == crate::text::string_views(lines@),
            ran(rules, s0, all.take(i as int), account_id@, host_id@, ctx.pipeline(), Ok(())),
        decreases lines.len() - i,
    {
        let ghost mid = ctx.pipeline();
        let step = process_line(ctx, lines[i].as_str(), account_id, host_id);
        proof {
            let upto = all.take(i as int + 1);
            assert(upto.drop_last() == all.take(i as int));
            let report = match &step {
                Ok(_) => Ok::<(), ParseFailure>(()),
                Err(e) => Err::<(), ParseFailure>(e@),
            };
            assert(ran(rules, s0, upto.drop_last(), account_id@, host_id@, mid, Ok(()))
                && line_step(
                rules,
                mid,
                upto.last(),
                account_id@,
                host_id@,
                ctx.pipeline(),
                report,
            ));
            assert(ran(rules, s0, upto, account_id@, host_id@, ctx.pipeline(), report));
        }
        match step {
            Ok(_) => {},
            Err(e) => {
                return Err(e);
            },
        }
        i += 1;
    }
    Ok(())
}

/// Takes one batch from the queue and puts its lines through the pipeline,
/// first to last. An empty queue is no failure and changes nothing. The
/// first line that is reported ends the batch: what was stored and raised
/// before it stays, and the rest of the batch is dropped.
pub fn process_logs(ctx: &mut ProcessorContext, account_id: String, host_id: String) -> (r: Result<
    (),
    ParseLogError,
>)
    requires
        old(ctx).wf(),
    ensures
        final(ctx).wf(),
        final(ctx).queue.capacity() == old(ctx).queue.capacity(),
        final(ctx).rules@ == old(ctx).rules@,
        if old(ctx).queue@.len() == 0 {
            r is Ok && final(ctx).queue@ == old(ctx).queue@ && final(ctx).pipeline() == old(
                ctx,
            ).pipeline()
        } else {
            final(ctx).queue@ == old(ctx).queue@.skip(1) && batch_run(
                old(ctx).rules@,
                old(ctx).pipeline(),
                old(ctx).queue@[0],
                account_id@,
                host_id@,
                final(ctx).pipeline(),
                match r {
                    Ok(_) => Ok(()),
                    Err(e) => Err(e@),
                },
            )
        },
{
    let batch = match ctx.queue.dequeue() {
        Ok(batch) => batch,
        Err(_) => {
            return Ok(());
        },
    };
    process_batch(ctx, &batch.lines, &account_id, &host_id)
}

/// A line that went through leaves its event in the store, whether it was
/// new or not, and keeps everything the store held.
pub proof fn lemma_line_is_held(
    rules: Seq<RuleModel>,
    s0: Pipeline,
    line: Seq<char>,
    account: Seq<char>,
    host: Seq<char>,
    s1: Pipeline,
    r: Result<(), ParseFailure>,
)
    requires
        line_step(rules, s0, line, account, host, s1, r),
    ensures
        s0.store.len() <= s1.store.len(),
        s1.store.take(s0.store.len() as int) == s0.store,
        r is Ok ==> (normalized(line, account, host) matches Ok(e) && crate::log::origin_fault(
            e.account_id,
            e.host_id,
        ) is None && holds(
            s1.store,
            e.account_id,
            crate::log::sha256_hex(crate::log_parser::canonical(e)),
        )),
{
    match normalized(line, account, host) {
        Err(_) => {
        },
        Ok(e) => {
            let id = choose|id: Seq<char>|
                match #[trigger] inserted(s0.store, e, id) {
                    Err(f) => r == Err::<(), ParseFailure>(
                        ParseFailure::DatabaseError(log_failure_text(f)),
                    ) && s1 == s0,
                    Ok((_, Outcome::Duplicate)) => r is Ok && s1 == s0,
                    Ok((store, Outcome::Inserted(record))) => s1.store == store && s1.mirror
                        == s0.mirror.push(record) && s1.next_number == (s0.next_number + 1)
                        % 0x10000 && (match decoded(record.log_data) {
                        Err(f) => r == Err::<(), ParseFailure>(f) && s1.alerts == s0.alerts,
                        Ok(read) => evaluated(rules, read, account, s0.alerts, s1.alerts, r),
                    }),
                };
            match inserted(s0.store, e, id) {
                Ok((store, Outcome::Inserted(record))) => {
                    assert(s1.store[s0.store.len() as int] == record);
                },
                _ => {
                },
            }
        },
    }
}

/// What a store holds, a store that begins with it holds too.
pub proof fn lemma_holds_grows(
    small: Seq<LogRecord>,
    large: Seq<LogRecord>,
    account: Seq<char>,
    hash: Seq<char>,
)
    requires
        small.len() <= large.len(),
        large.take(small.len() as int) == small,
        holds(small, account, hash),
    ensures
        holds(large, account, hash),
{
}

/// A line whose event the store holds goes through and changes nothing.
pub proof fn lemma_held_line_changes_nothing(
    rules: Seq<RuleModel>,
    s0: Pipeline,
    line: Seq<char>,
    account: Seq<char>,
    host: Seq<char>,
    s1: Pipeline,
    r: Result<(), ParseFailure>,
)
    requires
        line_step(rules, s0, line, account, host, s1, r),
        normalized(line, account, host) matches Ok(e) && crate::log::origin_fault(
            e.account_id,
            e.host_id,
        ) is None && holds(
            s0.store,
            e.account_id,
            crate::log::sha256_hex(crate::log_parser::canonical(e)),
        ),
    ensures
        s1 == s0,
        r is Ok,
{
}

/// After a batch went through, every line of it has its event in the store.
pub proof fn lemma_batch_is_held(
    rules: Seq<RuleModel>,
    s0: Pipeline,
    lines: Seq<Seq<char>>,
    account: Seq<char>,
    host: Seq<char>,
    s1: Pipeline,
)
    requires
        ran(rules, s0, lines, account, host, s1, Ok(())),
    ensures
        s0.store.len() <= s1.store.len(),
        s1.store.take(s0.store.len() as int) == s0.store,
        forall|k: int|
            0 <= k < lines.len() ==> (normalized(#[trigger] lines[k], account, host) matches Ok(e)
                && crate::log::origin_fault(e.account_id, e.host_id) is None && holds(
                s1.store,
                e.account_id,
                crate::log::sha256_hex(crate::log_parser::canonical(e)),
            )),
    decreases lines.len(),
{
    if lines.len() == 0 {
    } else {
        let mid = choose|mid: Pipeline|
            ran(rules, s0, lines.drop_last(), account, host, mid, Ok(())) && #[trigger] line_step(
                rules,
                mid,
                lines.last(),
                account,
                host,
                s1,
                Ok(()),
            );
        lemma_batch_is_held(rules, s0, lines.drop_last(), account, host, mid);
        lemma_line_is_held(rules, mid, lines.last(), account, host, s1, Ok(()));
        assert forall|k: int| 0 <= k < lines.len() implies (normalized(
            #[trigger] lines[k],
            account,
            host,
        ) matches Ok(e) && crate::log::origin_fault(e.account_id, e.host_id) is None && holds(
            s1.store,
            e.account_id,
            crate::log::sha256_hex(crate::log_parser::canonical(e)),
        )) by {
            if k < lines.len() - 1 {
                assert(lines.drop_last()[k] == lines[k]);
                let e = normalized(lines[k], account, host)->Ok_0;
                lemma_holds_grows(
                    mid.store,
                    s1.store,
                    e.account_id,
                    crate::log::sha256_hex(crate::log_parser::canonical(e)),
                );
            }
        }
    }
}

/// A batch all of whose lines have their events in the store goes through
/// and changes nothing.
pub proof fn lemma_held_batch_changes_nothing(
    rules: Seq<RuleModel>,
    s0: Pipeline,
    lines: Seq<Seq<char>>,
    account: Seq<char>,
    host: Seq<char>,
    s1: Pipeline,
    r: Result<(), ParseFailure>,
)
    requires
        ran(rules, s0, lines, account, host, s1, r),
        forall|k: int|
            0 <= k < lines.len() ==> (normalized(#[trigger] lines[k], account, host) matches Ok(e)
                && crate::log::origin_fault(e.account_id, e.host_id) is None && holds(
                s0.store,
                e.account_id,
                crate::log::sha256_hex(crate::log_parser::canonical(e)),
            )),
    ensures
        s1 == s0,
        r is Ok,
    decreases lines.len(),
{
    if lines.len() > 0 {
        let mid = choose|mid: Pipeline|
            ran(rules, s0, lines.drop_last(), account, host, mid, Ok(())) && #[trigger] line_step(
                rules,
                mid,
                lines.last(),
                account,
                host,
                s1,
                r,
            );
        lemma_held_batch_changes_nothing(rules, s0, lines.drop_last(), account, host, mid, Ok(()));
        lemma_held_line_changes_nothing(rules, mid, lines.last(), account, host, s1, r);
    }
}

/// Putting the same lines through a second time for the same account and
/// host goes through and changes nothing: the store, the alerts and the
/// mirror stay as the first time left them.
pub proof fn lemma_second_run_changes_nothing(
    rules: Seq<RuleModel>,
    s0: Pipeline,
    lines: Seq<Seq<char>>,
    account: Seq<char>,
    host: Seq<char>,
    s1: Pipeline,
    s2: Pipeline,
    r2: Result<(), ParseFailure>,
)
    requires
        batch_run(rules, s0, lines, account, host, s1, Ok(())),
        batch_run(rules, s1, lines, account, host, s2, r2),
    ensures
        s2 == s1,
        r2 is Ok,
{
    let n = choose|n: int|
        0 <= n <= lines.len() && n == lines.len() && #[trigger] ran(
            rules,
            s0,
            lines.take(n),
            account,
            host,
            s1,
            Ok(()),
        );
    assert(lines.take(n) == lines);
    lemma_batch_is_held(rules, s0, lines, account, host, s1);
    let m = choose|m: int|
        0 <= m <= lines.len() && (r2 is Ok ==> m == lines.len()) && #[trigger] ran(
            rules,
            s1,
            lines.take(m),
            account,
            host,
            s2,
            r2,
        );
    lemma_held_batch_changes_nothing(rules, s1, lines.take(m), account, host, s2, r2);
}

} // verus!
