//! Separating a job's output from the completion marker that the shell prints
//! after it, whatever the boundaries of the reads, and holding that output in
//! memory or handing it to a file once it grows large.

use vstd::prelude::*;

verus! {

/// Length of the completion marker that a shell prints after every command.
pub const RAND_STRING_SIZE: usize = 16;

/// The bytes of one completion marker.
pub type EndBytes = [u8; RAND_STRING_SIZE];

/// `s` ends with `suffix`.
pub open spec fn ends_with(s: Seq<u8>, suffix: Seq<u8>) -> bool {
    suffix.len() <= s.len() && s.subrange(s.len() - suffix.len(), s.len() as int) == suffix
}

/// The last `n` items of `s` (all of `s` when it is shorter).
pub open spec fn last_n(s: Seq<u8>, n: nat) -> Seq<u8> {
    if s.len() <= n {
        s
    } else {
        s.subrange(s.len() - n, s.len() as int)
    }
}

/// Whether `stdout` ends with the marker `end_bytes`.
pub fn process_is_complete(end_bytes: &[u8], stdout: &[u8]) -> (r: bool)
    ensures
        r == ends_with(stdout@, end_bytes@),
{
    let bytes_len = end_bytes.len();
    let stdout_len = stdout.len();
    if stdout_len < bytes_len {
        return false;
    }
    let start = stdout_len - bytes_len;
    let mut i: usize = 0;
    while i < bytes_len
        invariant
            i <= bytes_len,
            bytes_len == end_bytes@.len(),
            stdout_len == stdout@.len(),
            start + bytes_len == stdout_len,
            forall|j: int| 0 <= j < i ==> stdout@[start + j] == end_bytes@[j],
        decreases bytes_len - i,
    {
        if stdout[start + i] != end_bytes[i] {
            assert(stdout@.subrange(start as int, stdout_len as int)[i as int] != end_bytes@[i as int]);
            return false;
        }
        i += 1;
    }
    assert(stdout@.subrange(start as int, stdout_len as int) =~= end_bytes@);
    true
}

/// Shifts the bytes of `buf` into the history, which keeps the last
/// `RAND_STRING_SIZE` bytes seen.
fn update_byte_history(byte_history: &mut EndBytes, buf: &[u8])
    ensures
        final(byte_history)@ == last_n(old(byte_history)@ + buf@, RAND_STRING_SIZE as nat),
{
    let buf_len = buf.len();
    let ghost joined = old(byte_history)@ + buf@;
    if buf_len >= RAND_STRING_SIZE {
        let idx = buf_len - RAND_STRING_SIZE;
        let mut i: usize = 0;
        while i < RAND_STRING_SIZE
            invariant
                i <= RAND_STRING_SIZE,
                idx + RAND_STRING_SIZE == buf_len,
                buf_len == buf@.len(),
                byte_history@.len() == RAND_STRING_SIZE,
                forall|j: int| 0 <= j < i ==> byte_history@[j] == buf@[idx + j],
            decreases RAND_STRING_SIZE - i,
        {
            byte_history[i] = buf[idx + i];
            i += 1;
        }
        assert(byte_history@ =~= last_n(joined, RAND_STRING_SIZE as nat));
    } else {
        let keep = RAND_STRING_SIZE - buf_len;
        let mut i: usize = 0;
        while i < keep
            invariant
                i <= keep,
                keep + buf_len == RAND_STRING_SIZE,
                byte_history@.len() == RAND_STRING_SIZE,
                forall|j: int| 0 <= j < i ==> byte_history@[j] == old(byte_history)@[j + buf_len],
                forall|j: int| i <= j < RAND_STRING_SIZE ==> byte_history@[j] == old(byte_history)@[j],
            decreases keep - i,
        {
            let b = byte_history[i + buf_len];
            byte_history[i] = b;
            i += 1;
        }
        let mut k: usize = 0;
        while k < buf_len
            invariant
                k <= buf_len,
                keep + buf_len == RAND_STRING_SIZE,
                buf_len == buf@.len(),
                byte_history@.len() == RAND_STRING_SIZE,
                forall|j: int| 0 <= j < keep ==> byte_history@[j] == old(byte_history)@[j + buf_len],
                forall|j: int| 0 <= j < k ==> byte_history@[keep + j] == buf@[j],
            decreases buf_len - k,
        {
            byte_history[keep + k] = buf[k];
            k += 1;
        }
        assert(byte_history@ =~= last_n(joined, RAND_STRING_SIZE as nat));
    }
}


/// Above this many bytes of output a job's output goes to a file.
pub const MAX_MEMORY_SIZE: usize = 8192;

/// Once spilled, output waits in memory until more than this many bytes are
/// pending, and is then appended to the file in one write.
pub const CACHE_SIZE: usize = 2048;

/// The byte history after `raw` was seen: the last `RAND_STRING_SIZE` bytes
/// of `raw`, preceded by zeros while fewer than that have been seen.
pub open spec fn history_of(raw: Seq<u8>) -> Seq<u8> {
    last_n(Seq::new(RAND_STRING_SIZE as nat, |i: int| 0u8) + raw, RAND_STRING_SIZE as nat)
}

/// The bytes of `raw` that are known to come before any marker: all but the
/// last `RAND_STRING_SIZE`.
pub open spec fn cleared_of(raw: Seq<u8>) -> Seq<u8> {
    if raw.len() <= RAND_STRING_SIZE {
        Seq::empty()
    } else {
        raw.subrange(0, raw.len() - RAND_STRING_SIZE)
    }
}

/// Where the cleared output of one job on one stream is held.
pub enum Accumulator {
    /// No output yet.
    Empty,
    /// All output so far, in memory; never empty.
    InMemory(Vec<u8>),
    /// Output has gone to a file; these bytes wait to be appended to it.
    Spilled(Vec<u8>),
}

/// What must be done to the spill file after a chunk was taken in.
pub enum FileWork {
    Nothing,
    /// Create the file and write these bytes to it.
    Create(Vec<u8>),
    /// Append these bytes to the file created before.
    Append(Vec<u8>),
}

/// The outcome of taking in one chunk.
pub struct Step {
    /// The marker has arrived: the job's output on this stream is complete.
    pub complete: bool,
    pub work: FileWork,
}

/// Framing state of one job on one stream: the bytes that may still belong
/// to a marker, the history of the last bytes seen, and the output so far.
pub struct ExecutionReader {
    byte_history: EndBytes,
    uncleared_message: Vec<u8>,
    job: Accumulator,
    received: Ghost<Seq<u8>>,
    flushed: Ghost<Seq<u8>>,
}

impl ExecutionReader {
    /// Every byte taken in so far, marker included.
    pub closed spec fn received(&self) -> Seq<u8> {
        self.received@
    }

    /// Every byte handed to the spill file so far.
    pub closed spec fn flushed(&self) -> Seq<u8> {
        self.flushed@
    }

    pub closed spec fn job(&self) -> Accumulator {
        self.job
    }

    pub open spec fn is_spilled(&self) -> bool {
        self.job() is Spilled
    }

    /// Bytes that wait in memory to be appended to the spill file.
    pub open spec fn pending(&self) -> Seq<u8> {
        match self.job() {
            Accumulator::Spilled(c) => c@,
            _ => Seq::empty(),
        }
    }

    /// The output held so far: in memory, or in the file followed by what
    /// waits to be appended to it.
    pub open spec fn delivered(&self) -> Seq<u8> {
        match self.job() {
            Accumulator::Empty => Seq::empty(),
            Accumulator::InMemory(v) => v@,
            Accumulator::Spilled(c) => self.flushed() + c@,
        }
    }

    /// The output held is exactly the cleared part of the bytes received:
    /// nothing while that is empty, in memory up to `MAX_MEMORY_SIZE`
    /// bytes, spilled past it, with at most `CACHE_SIZE` bytes waiting.
    pub open spec fn holds_cleared(&self) -> bool {
        &&& self.delivered() == cleared_of(self.received())
        &&& (self.job() is Empty) == (cleared_of(self.received()).len() == 0)
        &&& self.is_spilled() == (cleared_of(self.received()).len() > MAX_MEMORY_SIZE)
        &&& self.pending().len() <= CACHE_SIZE
    }

    pub closed spec fn wf(&self) -> bool {
        &&& self.uncleared_message@ == last_n(self.received@, RAND_STRING_SIZE as nat)
        &&& self.byte_history@ == history_of(self.received@)
        &&& self.holds_cleared()
    }

    pub fn new() -> (r: Self)
        ensures
            r.wf(),
            r.holds_cleared(),
            r.received() == Seq::<u8>::empty(),
            r.flushed() == Seq::<u8>::empty(),
            r.job() is Empty,
    {
        let r = ExecutionReader {
            byte_history: [0u8; RAND_STRING_SIZE],
            uncleared_message: Vec::new(),
            job: Accumulator::Empty,
            received: Ghost(Seq::empty()),
            flushed: Ghost(Seq::empty()),
        };
        assert(r.byte_history@ =~= history_of(Seq::empty()));
        r
    }

    /// Takes in one chunk as read from the stream: the bytes that can no
    /// longer be part of a marker join the output, which goes to a file once
    /// it grows past `MAX_MEMORY_SIZE`; the step says whether the marker has
    /// arrived and what to do to the file.
    pub fn read(&mut self, chunk: &[u8], end_indication_bytes: &EndBytes) -> (r: Step)
        requires
            old(self).wf(),
        ensures
            final(self).wf(),
            final(self).holds_cleared(),
            final(self).received() == old(self).received() + chunk@,
            r.complete == ends_with(final(self).received(), end_indication_bytes@),
            match r.work {
                FileWork::Nothing => final(self).flushed() == old(self).flushed(),
                FileWork::Create(b) => final(self).flushed() == b@,
                FileWork::Append(b) => final(self).flushed() == old(self).flushed() + b@,
            },
            (r.work is Create) == (!old(self).is_spilled() && final(self).is_spilled()),
            (r.work is Append) == (old(self).is_spilled() && (r.complete || old(self).pending().len()
                + (cleared_of(final(self).received()).len() - cleared_of(old(self).received()).len())
                > CACHE_SIZE)),
            !(r.work is Nothing) ==> final(self).pending().len() == 0,
            r.complete && final(self).is_spilled() ==> final(self).pending().len() == 0,
    {
        let ghost raw = self.received@;
        proof {
            lemma_cleared_extend(raw, chunk@);
            lemma_last_n_extend(Seq::new(RAND_STRING_SIZE as nat, |i: int| 0u8) + raw, chunk@);
            assert(Seq::new(RAND_STRING_SIZE as nat, |i: int| 0u8) + raw + chunk@ =~= Seq::new(
                RAND_STRING_SIZE as nat,
                |i: int| 0u8,
            ) + (raw + chunk@));
        }
        self.uncleared_message.extend_from_slice(chunk);
        assert(self.uncleared_message@ =~= last_n(raw, RAND_STRING_SIZE as nat) + chunk@);
        let mut cleared: Vec<u8>;
        if self.uncleared_message.len() > RAND_STRING_SIZE {
            let at = self.uncleared_message.len() - RAND_STRING_SIZE;
            let tail = self.uncleared_message.split_off(at);
            cleared = Vec::new();
            core::mem::swap(&mut cleared, &mut self.uncleared_message);
            self.uncleared_message = tail;
        } else {
            cleared = Vec::new();
        }
        self.received = Ghost(raw + chunk@);
        update_byte_history(&mut self.byte_history, chunk);
        let complete = self.uncleared_message.len() == RAND_STRING_SIZE && process_is_complete(
            end_indication_bytes,
            &self.byte_history,
        );
        proof {
            let rec = self.received@;
            let n = RAND_STRING_SIZE as int;
            assert(self.byte_history@ == history_of(rec));
            assert(self.byte_history@.subrange(0, n) =~= self.byte_history@);
            if rec.len() >= n {
                assert(history_of(rec) =~= rec.subrange(rec.len() - n, rec.len() as int));
            }
        }
        assert(cleared_of(self.received@) =~= cleared_of(raw) + cleared@);

        let mut job = Accumulator::Empty;
        core::mem::swap(&mut job, &mut self.job);
        let work = match job {
            Accumulator::Empty => {
                if cleared.len() == 0 {
                    FileWork::Nothing
                } else if cleared.len() > MAX_MEMORY_SIZE {
                    self.job = Accumulator::Spilled(Vec::new());
                    self.flushed = Ghost(cleared@);
                    assert(self.delivered() =~= cleared_of(self.received@));
                    FileWork::Create(cleared)
                } else {
                    self.job = Accumulator::InMemory(cleared);
                    FileWork::Nothing
                }
            },
            Accumulator::InMemory(mut v) => {
                let spill = cleared.len() > MAX_MEMORY_SIZE - v.len();
                v.append(&mut cleared);
                if spill {
                    self.job = Accumulator::Spilled(Vec::new());
                    self.flushed = Ghost(v@);
                    assert(self.delivered() =~= cleared_of(self.received@));
                    FileWork::Create(v)
                } else {
                    self.job = Accumulator::InMemory(v);
                    FileWork::Nothing
                }
            },
            Accumulator::Spilled(mut cache) => {
                let flush = complete || cleared.len() > CACHE_SIZE - cache.len();
                cache.append(&mut cleared);
                if flush {
                    self.job = Accumulator::Spilled(Vec::new());
                    self.flushed = Ghost(self.flushed@ + cache@);
                    assert(self.delivered() =~= cleared_of(self.received@));
                    FileWork::Append(cache)
                } else {
                    self.job = Accumulator::Spilled(cache);
                    assert(self.delivered() =~= cleared_of(self.received@));
                    FileWork::Nothing
                }
            },
        };
        Step { complete, work }
    }

    /// The accumulated output, once the stream is complete.
    pub fn into_output(self) -> (r: Accumulator)
        ensures
            r == self.job(),
    {
        self.job
    }
}

/// Size of the first read buffer of a stream.
pub const INITIAL_BUF_SIZE: usize = 50;

/// The read buffer never grows past this size.
pub const MAX_BUF_SIZE: usize = 2048;

/// The size of the next read buffer: a read that filled the buffer makes it
/// grow by two fifths, up to `MAX_BUF_SIZE`.
pub fn next_buf_size(buf_size: usize, n_bytes_read: usize) -> (r: usize)
    ensures
        r == if buf_size == n_bytes_read {
            if buf_size * 14 / 10 < MAX_BUF_SIZE {
                buf_size * 14 / 10
            } else {
                MAX_BUF_SIZE as int
            }
        } else {
            buf_size as int
        },
{
    if buf_size != n_bytes_read {
        buf_size
    } else if buf_size >= MAX_BUF_SIZE {
        MAX_BUF_SIZE
    } else {
        let grown = buf_size * 14 / 10;
        if grown < MAX_BUF_SIZE {
            grown
        } else {
            MAX_BUF_SIZE
        }
    }
}

/// Two framers that were handed the same bytes, however these were split
/// into reads, hold the same output, in memory or spilled alike, and agree
/// on whether the marker has arrived.
pub proof fn lemma_chunking_irrelevant(a: &ExecutionReader, b: &ExecutionReader, marker: Seq<u8>)
    requires
        a.wf(),
        b.wf(),
        a.received() == b.received(),
    ensures
        a.delivered() == b.delivered(),
        a.delivered() == cleared_of(a.received()),
        a.is_spilled() == b.is_spilled(),
        ends_with(a.received(), marker) == ends_with(b.received(), marker),
{
}

/// Once the bytes seen are some output followed by the marker, wherever the
/// reads split the marker, the framer reports completion and holds exactly
/// that output, without a byte of the marker.
pub proof fn lemma_marker_stripped(r: &ExecutionReader, output: Seq<u8>, marker: EndBytes)
    requires
        r.wf(),
        r.received() == output + marker@,
    ensures
        ends_with(r.received(), marker@),
        r.delivered() == output,
{
    let raw = r.received();
    let n = RAND_STRING_SIZE as int;
    assert(raw.subrange(raw.len() - n, raw.len() as int) =~= marker@);
    if raw.len() > n {
        assert(raw.subrange(0, raw.len() - n) =~= output);
    } else {
        assert(output.len() == 0);
        assert(output =~= Seq::<u8>::empty());
    }
}

/// Output that crossed `MAX_MEMORY_SIZE` has been spilled, and the bytes of
/// the file and of what waits to be appended to it are the same whether the
/// crossing came in one large read or in many small ones.
pub proof fn lemma_spill_transparent(a: &ExecutionReader, b: &ExecutionReader)
    requires
        a.wf(),
        b.wf(),
        a.received() == b.received(),
        cleared_of(a.received()).len() > MAX_MEMORY_SIZE,
    ensures
        a.is_spilled(),
        b.is_spilled(),
        a.flushed() + a.pending() == b.flushed() + b.pending(),
        a.flushed() + a.pending() == cleared_of(a.received()),
{
}

/// Taking in a chunk moves the boundary of the cleared bytes: what was
/// cleared stays, and the uncleared tail followed by the chunk splits anew.
proof fn lemma_cleared_extend(raw: Seq<u8>, chunk: Seq<u8>)
    ensures
        cleared_of(raw + chunk) == cleared_of(raw) + cleared_of(
            last_n(raw, RAND_STRING_SIZE as nat) + chunk,
        ),
        last_n(raw + chunk, RAND_STRING_SIZE as nat) == last_n(
            last_n(raw, RAND_STRING_SIZE as nat) + chunk,
            RAND_STRING_SIZE as nat,
        ),
{
    let n = RAND_STRING_SIZE as int;
    let t = last_n(raw, n as nat) + chunk;
    if raw.len() <= n {
        assert(t =~= raw + chunk);
        assert(cleared_of(raw) + cleared_of(t) =~= cleared_of(t));
    } else {
        let head = raw.subrange(0, raw.len() - n);
        assert(raw + chunk =~= head + t);
        assert(cleared_of(raw + chunk) =~= head + cleared_of(t));
        assert(last_n(raw + chunk, n as nat) =~= last_n(t, n as nat));
    }
}

/// The last bytes of a long enough sequence, followed by more bytes, end as
/// the whole sequence followed by those bytes does.
proof fn lemma_last_n_extend(s: Seq<u8>, chunk: Seq<u8>)
    requires
        s.len() >= RAND_STRING_SIZE,
    ensures
        last_n(last_n(s, RAND_STRING_SIZE as nat) + chunk, RAND_STRING_SIZE as nat) == last_n(
            s + chunk,
            RAND_STRING_SIZE as nat,
        ),
{
    let n = RAND_STRING_SIZE as int;
    let head = s.subrange(0, s.len() - n);
    assert(s + chunk =~= head + (last_n(s, n as nat) + chunk));
    assert(last_n(last_n(s, n as nat) + chunk, n as nat) =~= last_n(s + chunk, n as nat));
}

} // verus!
