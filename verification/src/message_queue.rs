//! The queue between the batcher and the processor: first in, first out,
//! and bounded.

use vstd::prelude::*;
use vstd::string::StringExecFns;
use std::collections::VecDeque;
use crate::batch_maker::Batch;

verus! {

/// The room of a queue made without a stated capacity.
pub const DEFAULT_CAPACITY: usize = 1024;

/// A bounded first-in, first-out queue of batches.
pub struct MessageQueue {
    queue: VecDeque<Batch>,
    capacity: usize,
}

impl View for MessageQueue {
    type V = Seq<Seq<Seq<char>>>;

    closed spec fn view(&self) -> Seq<Seq<Seq<char>>> {
        Seq::new(self.queue@.len(), |i: int| self.queue@[i]@)
    }
}

impl MessageQueue {
    /// How many batches the queue takes.
    pub closed spec fn capacity(&self) -> int {
        self.capacity as int
    }

    /// The queue holds no more than it takes.
    pub open spec fn wf(&self) -> bool {
        self@.len() <= self.capacity()
    }

    /// An empty queue with room for `DEFAULT_CAPACITY` batches.
    pub fn new() -> (q: MessageQueue)
        ensures
            q.wf(),
            q@ == Seq::<Seq<Seq<char>>>::empty(),
            q.capacity() == DEFAULT_CAPACITY,
    {
        MessageQueue { queue: VecDeque::new(), capacity: DEFAULT_CAPACITY }
    }

    /// An empty queue with room for `capacity` batches.
    pub fn with_capacity(capacity: usize) -> (q: MessageQueue)
        ensures
            q.wf(),
            q@ == Seq::<Seq<Seq<char>>>::empty(),
            q.capacity() == capacity,
    {
        MessageQueue { queue: VecDeque::new(), capacity }
    }

    /// Puts a batch at the end. A full queue takes nothing, which is where a
    /// producer has to wait.
    pub fn enqueue(&mut self, batch: Batch) -> (r: Result<(), String>)
        requires
            old(self).wf(),
        ensures
            final(self).wf(),
            final(self).capacity() == old(self).capacity(),
            match r {
                Ok(_) => old(self)@.len() < old(self).capacity() && final(self)@ == old(self)@.push(
                    batch@,
                ),
                Err(m) => old(self)@.len() == old(self).capacity() && final(self)@ == old(self)@
                    && m@ == "Queue is full"@,
            },
    {
        if self.queue.len() >= self.capacity {
            return Err(String::from_str("Queue is full"));
        }
        self.queue.push_back(batch);
        Ok(())
    }

    /// Takes the batch at the front. An empty queue gives nothing, which is
    /// where a consumer has to wait.
    pub fn dequeue(&mut self) -> (r: Result<Batch, String>)
        requires
            old(self).wf(),
        ensures
            final(self).wf(),
            final(self).capacity() == old(self).capacity(),
            match r {
                Ok(batch) => old(self)@.len() > 0 && batch@ == old(self)@[0] && final(self)@ == old(
                    self,
                )@.skip(1),
                Err(m) => old(self)@.len() == 0 && final(self)@ == old(self)@ && m@
                    == "Queue is empty"@,
            },
    {
        match self.queue.pop_front() {
            Some(batch) => {
                Ok(batch)
            },
            None => Err(String::from_str("Queue is empty")),
        }
    }

    /// Whether the queue holds nothing.
    pub fn is_empty(&self) -> (r: bool)
        ensures
            r == (self@.len() == 0),
    {
        self.queue.len() == 0
    }

    /// Whether the queue takes no more.
    pub fn is_full(&self) -> (r: bool)
        ensures
            r == (self@.len() >= self.capacity()),
    {
        self.queue.len() >= self.capacity
    }

    /// How many batches the queue holds.
    pub fn len(&self) -> (n: usize)
        ensures
            n == self@.len(),
    {
        self.queue.len()
    }
}

} // verus!
