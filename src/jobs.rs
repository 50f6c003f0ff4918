//! The broker's decisions: numbering input lines, how many jobs to hand out
//! after each result, and when to tell the workers to stop.

use vstd::prelude::*;

verus! {

/// What a worker receives.
pub enum Message {
    /// Run the input line with this sequence number.
    Job((usize, String)),
    /// Stop: no more input.
    Quit,
}

/// What the broker does after a result came back.
pub enum Dispatch {
    /// Read and hand out up to this many new jobs.
    Refill(usize),
    /// Tell one worker to stop.
    Quit,
    /// Every worker has been told to stop already.
    Wait,
}

/// The number of jobs that can join a queue holding `queue_len` without
/// taking it past `capacity`.
pub open spec fn vacancies(capacity: nat, queue_len: nat) -> nat {
    if queue_len < capacity {
        (capacity - queue_len) as nat
    } else {
        0
    }
}

/// Hands out input lines to a pool of workers, no more at a time than the
/// pool has slots.
pub struct Broker {
    capacity: usize,
    next_sequence: usize,
    quits_sent: usize,
}

impl Broker {
    /// The most jobs that may wait in the queue at once: one per worker.
    pub closed spec fn capacity(&self) -> usize {
        self.capacity
    }

    /// The sequence number of the next line that is read.
    pub closed spec fn next_sequence(&self) -> usize {
        self.next_sequence
    }

    /// How many workers have been told to stop.
    pub closed spec fn quits_sent(&self) -> usize {
        self.quits_sent
    }

    pub fn new(capacity: usize) -> (r: Self)
        ensures
            r.capacity() == capacity,
            r.next_sequence() == 0,
            r.quits_sent() == 0,
    {
        Broker { capacity, next_sequence: 0, quits_sent: 0 }
    }

    /// The sequence number of the next line that is read.
    pub fn next_sequence_number(&self) -> (r: usize)
        ensures
            r == self.next_sequence(),
    {
        self.next_sequence
    }

    /// Numbers a line that was read: lines that could not be read are never
    /// handed here, so the numbers have no gaps.
    pub fn number_line(&mut self, line: String) -> (r: Message)
        requires
            old(self).next_sequence() < usize::MAX,
        ensures
            r == Message::Job((old(self).next_sequence(), line)),
            final(self).next_sequence() == old(self).next_sequence() + 1,
            final(self).capacity() == old(self).capacity(),
            final(self).quits_sent() == old(self).quits_sent(),
    {
        let n = self.next_sequence;
        self.next_sequence = n + 1;
        Message::Job((n, line))
    }

    /// The decision after a result came back, seeing `queue_len` jobs
    /// waiting: while input remains, refill the queue up to the capacity;
    /// after that, tell the workers to stop, one message per worker.
    pub fn on_result(&mut self, input_remaining: bool, queue_len: usize) -> (r: Dispatch)
        ensures
            final(self).capacity() == old(self).capacity(),
            final(self).next_sequence() == old(self).next_sequence(),
            input_remaining ==> r == Dispatch::Refill(
                vacancies(old(self).capacity() as nat, queue_len as nat) as usize,
            ) && final(self).quits_sent() == old(self).quits_sent(),
            !input_remaining && old(self).quits_sent() < old(self).capacity() ==> r == Dispatch::Quit
                && final(self).quits_sent() == old(self).quits_sent() + 1,
            !input_remaining && old(self).quits_sent() >= old(self).capacity() ==> r == Dispatch::Wait
                && final(self).quits_sent() == old(self).quits_sent(),
    {
        if input_remaining {
            if queue_len < self.capacity {
                Dispatch::Refill(self.capacity - queue_len)
            } else {
                Dispatch::Refill(0)
            }
        } else if self.quits_sent < self.capacity {
            self.quits_sent = self.quits_sent + 1;
            Dispatch::Quit
        } else {
            Dispatch::Wait
        }
    }
}

/// A refill round keeps the queue within its capacity: a queue that was
/// seen holding at most `capacity` jobs, and then got no more than the
/// vacancies the broker computed, holds at most `capacity` jobs, however
/// many of them the workers took meanwhile.
pub proof fn lemma_backpressure(capacity: nat, observed: nat, sent: nat, taken: nat)
    requires
        observed <= capacity,
        sent <= vacancies(capacity, observed),
        taken <= observed + sent,
    ensures
        observed + sent - taken <= capacity,
{
}

/// Number of workers: the number asked for, else one fewer than the
/// available parallelism, leaving a core to the broker, but at least one.
pub fn job_count(requested: Option<usize>, parallelism: usize) -> (r: usize)
    ensures
        r == match requested {
            Some(n) => n as int,
            None => if parallelism > 1 {
                parallelism - 1
            } else {
                1
            },
        },
{
    match requested {
        Some(n) => n,
        None => if parallelism > 1 {
            parallelism - 1
        } else {
            1
        },
    }
}

} // verus!
