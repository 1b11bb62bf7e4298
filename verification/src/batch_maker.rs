//! The batcher: it cuts the lines of an upload into batches of bounded
//! length, and takes a JSON array apart into one line for each element.

use vstd::prelude::*;
use vstd::string::StringExecFns;
use crate::json::{json_array_of, parse_array};
use crate::message_queue::MessageQueue;
use crate::text::{
    append_chars, from_chars, has_prefix, join, starts_with, string_views, to_chars, trim, trimmed,
};

verus! {

/// The most lines that a batch carries.
pub const BATCH_MAX: usize = 50;

/// An ordered run of raw lines, handed from the batcher to a processor.
#[derive(Debug)]
pub struct Batch {
    pub lines: Vec<String>,
}

impl View for Batch {
    type V = Seq<Seq<char>>;

    open spec fn view(&self) -> Seq<Seq<char>> {
        string_views(self.lines@)
    }
}

/// The batches behind a list of batches.
pub open spec fn batch_views(v: Seq<Batch>) -> Seq<Seq<Seq<char>>> {
    Seq::new(v.len(), |i: int| v[i]@)
}

impl Batch {
    /// An empty batch.
    pub fn new() -> (b: Batch)
        ensures
            b@ == Seq::<Seq<char>>::empty(),
    {
        let b = Batch { lines: Vec::new() };
        b
    }

    /// Puts a line at the end of the batch.
    pub fn add_line(&mut self, line: String)
        ensures
            final(self)@ == old(self)@.push(line@),
    {
        self.lines.push(line);
    }

    /// Whether the batch holds `BATCH_MAX` lines or more.
    pub fn is_full(&self) -> (full: bool)
        ensures
            full == (self@.len() >= BATCH_MAX),
    {
        self.lines.len() >= BATCH_MAX
    }

    /// Empties the batch.
    pub fn clear(&mut self)
        ensures
            final(self)@ == Seq::<Seq<char>>::empty(),
    {
        self.lines.clear();
    }

    /// How many lines the batch holds.
    pub fn len(&self) -> (n: usize)
        ensures
            n == self@.len(),
    {
        self.lines.len()
    }

    /// A copy of the batch.
    pub fn clone(&self) -> (r: Batch)
        ensures
            r@ == self@,
    {
        let mut lines: Vec<String> = Vec::new();
        let mut i: usize = 0;
        while i < self.lines.len()
            invariant
                i <= self.lines.len(),
                string_views(lines@) == self@.take(i as int),
            decreases self.lines.len() - i,
        {
            lines.push(self.lines[i].clone());
            assert(self@.take(i as int + 1) == self@.take(i as int).push(self.lines@[i as int]@));
            i += 1;
        }
        Batch { lines }
    }
}

/// The limit that a batcher works with: a limit below one counts as one.
pub open spec fn effective(limit: int) -> int {
    if limit < 1 {
        1
    } else {
        limit
    }
}

/// The lines cut into batches: each batch but the last holds `limit` lines,
/// the last holds what is left, and there is no empty batch.
pub open spec fn batched_by(lines: Seq<Seq<char>>, limit: int) -> Seq<Seq<Seq<char>>>
    decreases lines.len(),
{
    let size = effective(limit);
    if lines.len() == 0 {
        Seq::<Seq<Seq<char>>>::empty()
    } else if lines.len() <= size {
        seq![lines]
    } else {
        seq![lines.take(size)] + batched_by(lines.skip(size), limit)
    }
}

/// The lines cut into batches of `BATCH_MAX`.
pub open spec fn batched(lines: Seq<Seq<char>>) -> Seq<Seq<Seq<char>>> {
    batched_by(lines, BATCH_MAX as int)
}

/// The batches put end to end.
pub open spec fn concat(batches: Seq<Seq<Seq<char>>>) -> Seq<Seq<char>>
    decreases batches.len(),
{
    if batches.len() == 0 {
        Seq::<Seq<char>>::empty()
    } else {
        concat(batches.drop_last()) + batches.last()
    }
}

/// Batches put end to end begin with the first batch.
pub proof fn lemma_concat_first(first: Seq<Seq<char>>, rest: Seq<Seq<Seq<char>>>)
    ensures
        concat(seq![first] + rest) == first + concat(rest),
    decreases rest.len(),
{
    let all = seq![first] + rest;
    if rest.len() == 0 {
        assert(concat(all) == concat(all.drop_last()) + all.last());
    } else {
        lemma_concat_first(first, rest.drop_last());
        assert(all.drop_last() == seq![first] + rest.drop_last());
    }
}

/// The batches put end to end are the lines, in their order.
pub proof fn lemma_batches_keep_lines(lines: Seq<Seq<char>>, limit: int)
    ensures
        concat(batched_by(lines, limit)) == lines,
    decreases lines.len(),
{
    let size = effective(limit);
    if lines.len() == 0 {
    } else if lines.len() <= size {
        lemma_concat_first(lines, Seq::empty());
    } else {
        lemma_batches_keep_lines(lines.skip(size), limit);
        lemma_concat_first(lines.take(size), batched_by(lines.skip(size), limit));
    }
}

/// No batch is empty, none holds more than the limit, and all but the last
/// hold exactly the limit.
pub proof fn lemma_batch_sizes(lines: Seq<Seq<char>>, limit: int)
    ensures
        forall|k: int|
            0 <= k < batched_by(lines, limit).len() ==> 0 < (#[trigger] batched_by(
                lines,
                limit,
            )[k]).len() <= effective(limit),
        forall|k: int|
            0 <= k < batched_by(lines, limit).len() - 1 ==> (#[trigger] batched_by(
                lines,
                limit,
            )[k]).len() == effective(limit),
    decreases lines.len(),
{
    let size = effective(limit);
    if lines.len() > size {
        lemma_batch_sizes(lines.skip(size), limit);
        let rest = batched_by(lines.skip(size), limit);
    }
}

/// A run of lines exactly as long as the limit makes one batch; one line
/// more makes a full batch and a batch of that one line.
pub proof fn lemma_batch_boundaries(lines: Seq<Seq<char>>, limit: int)
    requires
        limit >= 1,
    ensures
        lines.len() == limit ==> batched_by(lines, limit) == seq![lines],
        lines.len() == limit + 1 ==> batched_by(lines, limit) == seq![
            lines.take(limit),
            seq![lines[limit]],
        ],
{
    if lines.len() == limit + 1 {
        let rest = lines.skip(limit);
        assert(rest == seq![lines[limit]]);
        assert(batched_by(rest, limit) == seq![rest]);
    }
}

/// Every batch that the lines make holds exactly the limit.
pub open spec fn fills_batches(lines: Seq<Seq<char>>, limit: int) -> bool {
    forall|k: int|
        0 <= k < batched_by(lines, limit).len() ==> (#[trigger] batched_by(lines, limit)[k]).len()
            == effective(limit)
}

/// Adding a last batch to lines that fill whole batches adds it as a batch.
pub proof fn lemma_batched_push(done: Seq<Seq<char>>, last: Seq<Seq<char>>, limit: int)
    requires
        fills_batches(done, limit),
        0 < last.len() <= effective(limit),
    ensures
        batched_by(done + last, limit) == batched_by(done, limit).push(last),
    decreases done.len(),
{
    let size = effective(limit);
    let all = done + last;
    if done.len() == 0 {
    } else {
        assert(done.len() >= size) by {
            if done.len() < size {
                assert(batched_by(done, limit)[0] == done);
            }
        }
        let rest = done.skip(size);
        assert(all.take(size) == done.take(size));
        assert(all.skip(size) == rest + last);
        if done.len() == size {
            assert(done.take(size) == done);
            lemma_batched_push(rest, last, limit);
        } else {
            let inner = batched_by(rest, limit);
            assert(fills_batches(rest, limit)) by {
                assert forall|k: int| 0 <= k < inner.len() implies (#[trigger] inner[k]).len()
                    == size by {
                    assert(batched_by(done, limit)[k + 1] == inner[k]);
                }
            }
            lemma_batched_push(rest, last, limit);
        }
    }
}

/// The streaming batcher: lines go in one at a time, and a batch comes out
/// whenever the limit is reached.
pub struct Batcher {
    current: Batch,
    limit: usize,
}

impl Batcher {
    /// The lines taken in and not yet handed out.
    pub closed spec fn pending(&self) -> Seq<Seq<char>> {
        self.current@
    }

    /// The limit this batcher works with.
    pub closed spec fn limit(&self) -> int {
        effective(self.limit as int)
    }

    /// Fewer lines are pending than the limit.
    pub open spec fn wf(&self) -> bool {
        self.pending().len() < self.limit()
    }

    /// A batcher for batches of `BATCH_MAX` lines.
    pub fn new() -> (b: Batcher)
        ensures
            b.wf(),
            b.pending() == Seq::<Seq<char>>::empty(),
            b.limit() == BATCH_MAX,
    {
        Batcher { current: Batch::new(), limit: BATCH_MAX }
    }

    /// A batcher for batches of `limit` lines; a limit below one counts as one.
    pub fn with_limit(limit: usize) -> (b: Batcher)
        ensures
            b.wf(),
            b.pending() == Seq::<Seq<char>>::empty(),
            b.limit() == effective(limit as int),
    {
        Batcher { current: Batch::new(), limit: if limit < 1 {
            1
        } else {
            limit
        } }
    }

    /// Takes in a line. Where that fills the batch, the batch comes out and
    /// nothing stays pending.
    pub fn feed(&mut self, line: String) -> (out: Option<Batch>)
        requires
            old(self).wf(),
        ensures
            final(self).wf(),
            final(self).limit() == old(self).limit(),
            match out {
                Some(batch) => batch@ == old(self).pending().push(line@) && batch@.len() == old(
                    self,
                ).limit() && final(self).pending() == Seq::<Seq<char>>::empty(),
                None => final(self).pending() == old(self).pending().push(line@),
            },
    {
        self.current.add_line(line);
        if self.current.len() >= self.limit {
            let mut full = Batch::new();
            std::mem::swap(&mut full, &mut self.current);
            Some(full)
        } else {
            None
        }
    }

    /// Ends the source: what is pending comes out as the last batch, if
    /// anything is.
    pub fn finish(self) -> (out: Option<Batch>)
        ensures
            match out {
                Some(batch) => batch@ == self.pending() && batch@.len() > 0,
                None => self.pending().len() == 0,
            },
    {
        if self.current.len() > 0 {
            Some(self.current)
        } else {
            None
        }
    }
}

/// Cuts lines into batches of `limit` lines; a limit below one counts as one.
pub fn make_batches_of(lines: Vec<String>, limit: usize) -> (r: Vec<Batch>)
    ensures
        batch_views(r@) == batched_by(string_views(lines@), limit as int),
{
    let ghost all = string_views(lines@);
    let ghost size = effective(limit as int);
    let mut batcher = Batcher::with_limit(limit);
    let mut out: Vec<Batch> = Vec::new();
    let mut i: usize = 0;
    while i < lines.len()
        invariant
            i <= lines.len(),
            all == string_views(lines@),
            size == effective(limit as int),
            batcher.wf(),
            batcher.limit() == size,
            batcher.pending().len() <= i,
            fills_batches(all.take(i - batcher.pending().len()), limit as int),
            batcher.pending() == all.subrange(i - batcher.pending().len(), i as int),
            batch_views(out@) == batched_by(all.take(i - batcher.pending().len()), limit as int),
        decreases lines.len() - i,
    {
        let ghost pending = batcher.pending();
        let ghost start = i - pending.len();
        match batcher.feed(lines[i].clone()) {
            Some(batch) => {
                let ghost full = batch@;
                out.push(batch);
                proof {
                    lemma_batched_push(all.take(start), full, limit as int);
                    assert(all.take(start) + full == all.take(i as int + 1));
                }
            },
            None => {},
        }
        i += 1;
    }
    let ghost pending = batcher.pending();
    let ghost start = lines.len() - pending.len();
    match batcher.finish() {
        Some(batch) => {
            let ghost last = batch@;
            out.push(batch);
            proof {
                lemma_batched_push(all.take(start), last, limit as int);
                assert(all.take(start) + last == all);
            }
        },
        None => {
            assert(all.take(start) == all);
        },
    }
    out
}

/// Cuts lines into batches of `BATCH_MAX` lines.
pub fn make_batches(lines: Vec<String>) -> (r: Vec<Batch>)
    ensures
        batch_views(r@) == batched(string_views(lines@)),
{
    make_batches_of(lines, BATCH_MAX)
}

/// Why an upload could not be batched.
#[derive(Debug)]
pub enum BatchError {
    /// The source began like a JSON array and did not parse as one.
    InvalidData(String),
}

/// A `BatchError` in contracts.
pub enum BatchFailure {
    InvalidData(Seq<char>),
}

impl View for BatchError {
    type V = BatchFailure;

    open spec fn view(&self) -> BatchFailure {
        match self {
            BatchError::InvalidData(m) => BatchFailure::InvalidData(m@),
        }
    }
}

/// The first line that is not blank, without the white space at its ends.
pub open spec fn first_text(lines: Seq<Seq<char>>) -> Option<Seq<char>>
    decreases lines.len(),
{
    if lines.len() == 0 {
        None
    } else if trim(lines[0]).len() > 0 {
        Some(trim(lines[0]))
    } else {
        first_text(lines.skip(1))
    }
}

/// Whether a source is a JSON array: its first line that is not blank
/// begins, after its white space, with `[`.
pub open spec fn array_source(lines: Seq<Seq<char>>) -> bool {
    match first_text(lines) {
        Some(text) => has_prefix(text, "["@),
        None => false,
    }
}

/// Blank lines at the head of a source do not change its first text.
proof fn lemma_first_text_after_blanks(lines: Seq<Seq<char>>, n: int)
    requires
        0 <= n <= lines.len(),
        forall|k: int| 0 <= k < n ==> trim(#[trigger] lines[k]).len() == 0,
    ensures
        first_text(lines) == first_text(lines.skip(n)),
    decreases n,
{
    if n == 0 {
        assert(lines.skip(0) =~= lines);
    } else {
        let rest = lines.skip(1);
        assert forall|k: int| 0 <= k < n - 1 implies trim(#[trigger] rest[k]).len() == 0 by {
            assert(rest[k] == lines[k + 1]);
        }
        lemma_first_text_after_blanks(rest, n - 1);
        assert(rest.skip(n - 1) =~= lines.skip(n));
    }
}

/// The raw lines of a source, given what the JSON parser made of its whole
/// text: for a JSON array one line for each element, or the failure to read
/// it; for any other source its lines as they are.
pub open spec fn raw_lines_from(
    lines: Seq<Seq<char>>,
    parsed: Result<Seq<Seq<char>>, Seq<char>>,
) -> Result<Seq<Seq<char>>, BatchFailure> {
    if array_source(lines) {
        match parsed {
            Ok(items) => Ok(items),
            Err(m) => Err(BatchFailure::InvalidData("Failed to parse JSON array: "@ + m)),
        }
    } else {
        Ok(lines)
    }
}

/// The raw lines of a source.
pub open spec fn raw_lines_of(lines: Seq<Seq<char>>) -> Result<Seq<Seq<char>>, BatchFailure> {
    raw_lines_from(lines, json_array_of(join(lines, "\n"@)))
}

/// Whether a source is a JSON array, judged by its first line that is not
/// blank.
pub fn is_array_source(lines: &Vec<String>) -> (r: bool)
    ensures
        r == array_source(string_views(lines@)),
{
    let ghost all = string_views(lines@);
    let mut i: usize = 0;
    while i < lines.len()
        invariant
            i <= lines.len(),
            all == string_views(lines@),
            forall|k: int| 0 <= k < i ==> trim(#[trigger] all[k]).len() == 0,
        decreases lines.len() - i,
    {
        let text = trimmed(&to_chars(lines[i].as_str()));
        if text.len() > 0 {
            proof {
                lemma_first_text_after_blanks(all, i as int);
                assert(all.skip(i as int)[0] == all[i as int]);
            }
            return starts_with(&text, "[");
        }
        i += 1;
    }
    proof {
        lemma_first_text_after_blanks(all, lines.len() as int);
        assert(all.skip(lines.len() as int) =~= Seq::<Seq<char>>::empty());
    }
    false
}

/// The raw lines of a source, given what the JSON parser made of its whole text.
pub fn raw_lines_given(lines: Vec<String>, parsed: Result<Vec<String>, String>) -> (r: Result<
    Vec<String>,
    BatchError,
>)
    ensures
        match r {
            Ok(raw) => raw_lines_from(
                string_views(lines@),
                match parsed {
                    Ok(items) => Ok(string_views(items@)),
                    Err(m) => Err(m@),
                },
            ) == Ok::<Seq<Seq<char>>, BatchFailure>(string_views(raw@)),
            Err(e) => raw_lines_from(
                string_views(lines@),
                match parsed {
                    Ok(items) => Ok(string_views(items@)),
                    Err(m) => Err(m@),
                },
            ) == Err::<Seq<Seq<char>>, BatchFailure>(e@),
        },
{
    if is_array_source(&lines) {
        match parsed {
            Ok(items) => Ok(items),
            Err(m) => Err(
                BatchError::InvalidData(
                    String::from_str("Failed to parse JSON array: ").concat(m.as_str()),
                ),
            ),
        }
    } else {
        Ok(lines)
    }
}

fn whole_text(lines: &Vec<String>) -> (r: String)
    ensures
        r@ == join(string_views(lines@), "\n"@),
{
    let newline = to_chars("\n");
    let mut out: Vec<char> = Vec::new();
    let ghost all = string_views(lines@);
    let mut i: usize = 0;
    while i < lines.len()
        invariant
            i <= lines.len(),
            newline@ == "\n"@,
            all == string_views(lines@),
            out@ == join(all.take(i as int), "\n"@),
        decreases lines.len() - i,
    {
        assert(all.take(i as int + 1).drop_last() == all.take(i as int));
        if i > 0 {
            append_chars(&mut out, &newline);
        }
        let piece = to_chars(lines[i].as_str());
        append_chars(&mut out, &piece);
        i += 1;
    }
    assert(all.take(lines.len() as int) == all);
    from_chars(&out)
}

/// The raw lines of a source: a source whose first line that is not blank
/// begins with `[` is read as one JSON array and gives one line for each
/// element.
pub fn raw_lines(lines: Vec<String>) -> (r: Result<Vec<String>, BatchError>)
    ensures
        match r {
            Ok(raw) => raw_lines_of(string_views(lines@)) == Ok::<Seq<Seq<char>>, BatchFailure>(
                string_views(raw@),
            ),
            Err(e) => raw_lines_of(string_views(lines@)) == Err::<Seq<Seq<char>>, BatchFailure>(
                e@,
            ),
        },
{
    if is_array_source(&lines) {
        let text = whole_text(&lines);
        let parsed = parse_array(text.as_str());
        raw_lines_given(lines, parsed)
    } else {
        Ok(lines)
    }
}

/// How many of `count` batches go into a queue with the given room: all of
/// them, or as many as there is room for.
pub open spec fn fitting(room: int, count: int) -> int {
    if count <= room {
        count
    } else if room <= 0 {
        0
    } else {
        room
    }
}

/// The batches of a source that wait for room in the queue, in order.
pub struct Backlog {
    batches: Vec<Batch>,
    next: usize,
}

impl View for Backlog {
    type V = Seq<Seq<Seq<char>>>;

    closed spec fn view(&self) -> Seq<Seq<Seq<char>>> {
        if self.next <= self.batches@.len() {
            batch_views(self.batches@).skip(self.next as int)
        } else {
            Seq::empty()
        }
    }
}

impl Backlog {
    /// The batches, all of them waiting.
    pub fn new(batches: Vec<Batch>) -> (b: Backlog)
        ensures
            b@ == batch_views(batches@),
    {
        assert(batch_views(batches@).skip(0) =~= batch_views(batches@));
        Backlog { batches, next: 0 }
    }

    /// How many batches wait.
    pub fn len(&self) -> (n: usize)
        ensures
            n == self@.len(),
    {
        if self.next <= self.batches.len() {
            self.batches.len() - self.next
        } else {
            0
        }
    }

    /// Whether nothing waits.
    pub fn is_empty(&self) -> (r: bool)
        ensures
            r == (self@.len() == 0),
    {
        self.next >= self.batches.len()
    }

    /// Puts the waiting batches into the queue, first to last, until none
    /// waits or the queue is full, and tells how many went in. The others
    /// go on waiting: nothing is lost, and a call after the queue was
    /// emptied somewhat goes on where this one stopped.
    pub fn push_on(&mut self, queue: &mut MessageQueue) -> (n: usize)
        requires
            old(queue).wf(),
        ensures
            final(queue).wf(),
            final(queue).capacity() == old(queue).capacity(),
            n == fitting(old(queue).capacity() - old(queue)@.len(), old(self)@.len() as int),
            final(queue)@ == old(queue)@ + old(self)@.take(n as int),
            final(self)@ == old(self)@.skip(n as int),
    {
        let ghost waiting = self@;
        let ghost start = queue@;
        let ghost all = batch_views(self.batches@);
        let ghost first = self.next as int;
        let mut n: usize = 0;
        assert(waiting.take(0) =~= Seq::<Seq<Seq<char>>>::empty());
        assert(waiting.skip(0) =~= waiting);
        assert(start + Seq::<Seq<Seq<char>>>::empty() =~= start);
        while self.next < self.batches.len() && !queue.is_full()
            invariant
                queue.wf(),
                queue.capacity() == old(queue).capacity(),
                start == old(queue)@,
                waiting == old(self)@,
                all == batch_views(self.batches@),
                first == old(self).next,
                self.next == first + n,
                first <= self.batches@.len() ==> waiting == all.skip(first),
                n <= waiting.len(),
                queue@ == start + waiting.take(n as int),
                self@ == waiting.skip(n as int),
            decreases self.batches.len() - self.next,
        {
            let batch = self.batches[self.next].clone();
            assert(batch@ == waiting[n as int]);
            assert(waiting.take(n as int + 1) =~= waiting.take(n as int).push(waiting[n as int]));
            assert(start + waiting.take(n as int + 1) =~= (start + waiting.take(n as int)).push(
                waiting[n as int],
            ));
            let _ = queue.enqueue(batch);
            self.next = self.next + 1;
            n = n + 1;
            assert(self@ =~= waiting.skip(n as int));
        }
        n
    }
}

/// Puts batches into the queue, first to last, until all are in or the
/// queue is full, and hands back those that found no room, which wait.
pub fn enqueue_all(queue: &mut MessageQueue, batches: Vec<Batch>) -> (rest: Backlog)
    requires
        old(queue).wf(),
    ensures
        final(queue).wf(),
        final(queue).capacity() == old(queue).capacity(),
        final(queue)@ == old(queue)@ + batch_views(batches@).take(
            fitting(old(queue).capacity() - old(queue)@.len(), batches@.len() as int),
        ),
        rest@ == batch_views(batches@).skip(
            fitting(old(queue).capacity() - old(queue)@.len(), batches@.len() as int),
        ),
{
    let mut rest = Backlog::new(batches);
    let _ = rest.push_on(queue);
    rest
}

/// Nothing is lost where a queue takes the first of some batches and the
/// others wait: the queue with the waiting batches behind it is the old
/// queue with all the batches behind it.
pub proof fn lemma_taken_and_waiting(
    before: Seq<Seq<Seq<char>>>,
    all: Seq<Seq<Seq<char>>>,
    room: int,
)
    ensures
        0 <= fitting(room, all.len() as int) <= all.len(),
        (before + all.take(fitting(room, all.len() as int))) + all.skip(
            fitting(room, all.len() as int),
        ) == before + all,
{
    let n = fitting(room, all.len() as int);
    assert(all.take(n) + all.skip(n) =~= all);
    assert((before + all.take(n)) + all.skip(n) =~= before + (all.take(n) + all.skip(n)));
}

/// Batches a source into the queue with a limit of its own: its raw lines
/// are cut into batches of `limit` lines, and the batches go into the queue
/// in order as far as it has room. Those that found none come back and
/// wait. A source that begins like a JSON array and is none leaves the
/// queue as it was.
pub fn create_batches_of(lines: Vec<String>, limit: usize, queue: &mut MessageQueue) -> (r: Result<
    Backlog,
    BatchError,
>)
    requires
        old(queue).wf(),
    ensures
        final(queue).wf(),
        final(queue).capacity() == old(queue).capacity(),
        match raw_lines_of(string_views(lines@)) {
            Err(failure) => r matches Err(e) && e@ == failure && final(queue)@ == old(queue)@,
            Ok(raw) => r matches Ok(rest) && final(queue)@ == old(queue)@ + batched_by(
                raw,
                limit as int,
            ).take(
                fitting(
                    old(queue).capacity() - old(queue)@.len(),
                    batched_by(raw, limit as int).len() as int,
                ),
            ) && rest@ == batched_by(raw, limit as int).skip(
                fitting(
                    old(queue).capacity() - old(queue)@.len(),
                    batched_by(raw, limit as int).len() as int,
                ),
            ),
        },
{
    let raw = match raw_lines(lines) {
        Ok(raw) => raw,
        Err(e) => {
            return Err(e);
        },
    };
    let batches = make_batches_of(raw, limit);
    Ok(enqueue_all(queue, batches))
}

/// Batches a source into the queue: its raw lines are cut into batches of
/// `BATCH_MAX`, and the batches go into the queue in order as far as it has
/// room. Those that found none come back and wait. A source that begins
/// like a JSON array and is none leaves the queue as it was.
pub fn create_batches(lines: Vec<String>, queue: &mut MessageQueue) -> (r: Result<
    Backlog,
    BatchError,
>)
    requires
        old(queue).wf(),
    ensures
        final(queue).wf(),
        final(queue).capacity() == old(queue).capacity(),
        match raw_lines_of(string_views(lines@)) {
            Err(failure) => r matches Err(e) && e@ == failure && final(queue)@ == old(queue)@,
            Ok(raw) => r matches Ok(rest) && final(queue)@ == old(queue)@ + batched(raw).take(
                fitting(old(queue).capacity() - old(queue)@.len(), batched(raw).len() as int),
            ) && rest@ == batched(raw).skip(
                fitting(old(queue).capacity() - old(queue)@.len(), batched(raw).len() as int),
            ),
        },
{
    create_batches_of(lines, BATCH_MAX, queue)
}

} // verus!
