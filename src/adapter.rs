//! The direct adapter: one cached chunk with a read cursor, and at most one
//! pull in flight.
//!
//! The adapter makes the decisions; its driver does the waiting. A driver asks
//! `poll_read` what to do for a destination of a given size. Depending on the
//! answer it hands over bytes, reports end-of-stream, starts one pull on the
//! source, or keeps waiting on the pull already in flight. When a pull resolves,
//! the driver passes what came back to `on_pull` and polls again.
//!
//! After a failed pull the adapter is idle with an empty buffer. The next read
//! that needs data starts a new pull: retrying is left to the caller, and the
//! adapter never retries by itself.
use vstd::prelude::*;

use crate::reply::{classify_reply, ChunkValue, PullReply, ReplyError};

verus! {

/// What one resolved pull contributed, as recorded in the adapter's history.
pub enum PullRecord {
    /// A chunk of data; the stream goes on.
    Data(Seq<u8>),
    /// The exhaustion signal, with no data.
    End,
    /// The exhaustion signal, carrying the last data.
    LastData(Seq<u8>),
    /// The pull failed, or resolved with a malformed reply.
    Fault,
}

impl PullRecord {
    /// The bytes this pull yielded.
    pub open spec fn payload(self) -> Seq<u8> {
        match self {
            PullRecord::Data(b) => b,
            PullRecord::LastData(b) => b,
            _ => Seq::empty(),
        }
    }

    /// Whether this pull signalled exhaustion.
    pub open spec fn is_terminal(self) -> bool {
        self matches PullRecord::End || self matches PullRecord::LastData(_)
    }
}

/// The concatenation of all bytes that the pulls of `log` yielded, in order.
pub open spec fn bytes_of(log: Seq<PullRecord>) -> Seq<u8>
    decreases log.len(),
{
    if log.len() == 0 {
        Seq::empty()
    } else {
        bytes_of(log.drop_last()) + log.last().payload()
    }
}

/// How many pulls of `log` yielded a chunk and let the stream go on.
pub open spec fn data_pulls(log: Seq<PullRecord>) -> nat
    decreases log.len(),
{
    if log.len() == 0 {
        0
    } else {
        let before = data_pulls(log.drop_last());
        match log.last() {
            PullRecord::Data(_) => before + 1,
            _ => before,
        }
    }
}

/// How many pulls of `log` failed.
pub open spec fn faults(log: Seq<PullRecord>) -> nat
    decreases log.len(),
{
    if log.len() == 0 {
        0
    } else {
        let before = faults(log.drop_last());
        match log.last() {
            PullRecord::Fault => before + 1,
            _ => before,
        }
    }
}

proof fn lemma_log_push(log: Seq<PullRecord>, rec: PullRecord)
    ensures
        bytes_of(log.push(rec)) == bytes_of(log) + rec.payload(),
        rec matches PullRecord::Data(_) ==> data_pulls(log.push(rec)) == data_pulls(log) + 1,
        !(rec matches PullRecord::Data(_)) ==> data_pulls(log.push(rec)) == data_pulls(log),
        rec matches PullRecord::Fault ==> faults(log.push(rec)) == faults(log) + 1,
        !(rec matches PullRecord::Fault) ==> faults(log.push(rec)) == faults(log),
{
    assert(log.push(rec).drop_last() =~= log);
}

/// Where the adapter stands with respect to the source.
#[derive(Clone, Copy, Debug, PartialEq, Eq, Structural)]
pub enum Phase {
    /// No pull is in flight.
    Idle,
    /// Exactly one pull is in flight.
    Busy,
    /// The source is exhausted and all its bytes were handed out.
    Complete,
}

/// What a driver should do after `poll_read`.
#[derive(Debug)]
pub enum ReadAction {
    /// Hand these bytes to the reader; no waiting.
    Data(Vec<u8>),
    /// End of stream: the read yields zero bytes.
    Eof,
    /// Start one pull on the source, then wait for it and call `on_pull`.
    StartPull,
    /// A pull is already in flight: keep waiting on that same pull.
    AwaitPull,
}

/// Why a read failed.
#[derive(Debug, PartialEq, Eq)]
pub enum ReadError {
    /// The pull itself failed; the message is the source's.
    Source(String),
    /// The pull resolved with a reply of the wrong shape.
    Protocol(ReplyError),
}

/// What a pull on the source resolved with, before classification.
pub enum PullOutcome {
    /// The pull resolved with a reply holding these fields.
    Replied(Option<bool>, ChunkValue),
    /// The pull was rejected with this message.
    Rejected(String),
}

/// The record that a pull resolving with `o` adds to the history.
pub open spec fn record_of(o: PullOutcome) -> PullRecord {
    match o {
        PullOutcome::Rejected(_) => PullRecord::Fault,
        PullOutcome::Replied(None, _) => PullRecord::Fault,
        PullOutcome::Replied(Some(_), ChunkValue::NotBytes) => PullRecord::Fault,
        PullOutcome::Replied(Some(false), ChunkValue::Absent) => PullRecord::Fault,
        PullOutcome::Replied(Some(false), ChunkValue::Bytes(b)) => PullRecord::Data(b@),
        PullOutcome::Replied(Some(true), ChunkValue::Absent) => PullRecord::End,
        PullOutcome::Replied(Some(true), ChunkValue::Bytes(b)) => PullRecord::LastData(b@),
    }
}

/// The error that a read reports when its pull resolves with `o`, if any.
pub open spec fn error_of(o: PullOutcome) -> Option<ReadError> {
    match o {
        PullOutcome::Rejected(m) => Some(ReadError::Source(m)),
        PullOutcome::Replied(None, _) => Some(ReadError::Protocol(ReplyError::MissingDone)),
        PullOutcome::Replied(Some(_), ChunkValue::NotBytes) => Some(
            ReadError::Protocol(ReplyError::NotBytes),
        ),
        PullOutcome::Replied(Some(false), ChunkValue::Absent) => Some(
            ReadError::Protocol(ReplyError::MissingValue),
        ),
        _ => None,
    }
}

/// A copy of `n` bytes of `v`, starting at `start`.
fn copy_range(v: &Vec<u8>, start: usize, n: usize) -> (r: Vec<u8>)
    requires
        start + n <= v@.len(),
    ensures
        r@ == v@.subrange(start as int, start + n),
{
    let len = v.len();
    let mut out: Vec<u8> = Vec::with_capacity(n);
    let mut i: usize = 0;
    while i < n
        invariant
            len == v@.len(),
            start + n <= v@.len(),
            i <= n,
            out@ == v@.subrange(start as int, start + i),
        decreases n - i,
    {
        out.push(v[start + i]);
        i = i + 1;
        assert(out@ =~= v@.subrange(start as int, start + i));
    }
    out
}

/// The direct stream-to-reader adapter.
pub struct StreamAdapter {
    phase: Phase,
    buffer: Vec<u8>,
    cursor: usize,
    stream_done: bool,
    delivered: Ghost<Seq<u8>>,
    log: Ghost<Seq<PullRecord>>,
}

impl StreamAdapter {
    /// The current phase.
    pub closed spec fn phase(self) -> Phase {
        self.phase
    }

    /// The cached bytes not yet handed out.
    pub closed spec fn unread(self) -> Seq<u8> {
        self.buffer@.subrange(self.cursor as int, self.buffer@.len() as int)
    }

    /// Whether the source has signalled exhaustion.
    pub closed spec fn stream_done(self) -> bool {
        self.stream_done
    }

    /// All bytes handed out so far, in the order they were handed out.
    pub closed spec fn delivered(self) -> Seq<u8> {
        self.delivered@
    }

    /// The resolved pulls, in order.
    pub closed spec fn log(self) -> Seq<PullRecord> {
        self.log@
    }

    /// The read cursor stays within the cached chunk.
    pub closed spec fn cursor_ok(self) -> bool {
        self.cursor <= self.buffer@.len()
    }

    /// The concatenation of all chunks the source yielded so far.
    pub open spec fn received(self) -> Seq<u8> {
        bytes_of(self.log())
    }

    /// The number of pulls started so far, resolved or in flight.
    pub open spec fn pulls(self) -> nat {
        if self.phase() == Phase::Busy {
            self.log().len() + 1
        } else {
            self.log().len()
        }
    }

    /// The adapter's invariant.
    pub open spec fn wf(self) -> bool {
        &&& self.cursor_ok()
        &&& self.delivered() + self.unread() == self.received()
        &&& self.stream_done() <==> (self.log().len() > 0 && self.log().last().is_terminal())
        &&& forall|i: int| 0 <= i < self.log().len() - 1 ==> !(#[trigger] self.log()[i]).is_terminal()
        &&& self.phase() == Phase::Busy ==> !self.stream_done() && self.unread().len() == 0
        &&& self.phase() == Phase::Complete ==> self.stream_done() && self.unread().len() == 0
    }

    proof fn lemma_cursor(self)
        requires
            self.wf(),
        ensures
            self.cursor <= self.buffer@.len(),
            self.unread().len() == self.buffer@.len() - self.cursor,
    {
    }

    /// A fresh adapter: idle, nothing cached, nothing pulled.
    pub fn new() -> (r: Self)
        ensures
            r.wf(),
            r.phase() == Phase::Idle,
            r.unread().len() == 0,
            !r.stream_done(),
            r.delivered().len() == 0,
            r.log().len() == 0,
    {
        let r = StreamAdapter {
            phase: Phase::Idle,
            buffer: Vec::new(),
            cursor: 0,
            stream_done: false,
            delivered: Ghost(Seq::empty()),
            log: Ghost(Seq::empty()),
        };
        assert(r.unread() =~= Seq::<u8>::empty());
        assert(r.delivered() + r.unread() =~= r.received());
        r
    }

    /// The current phase.
    pub fn phase_now(&self) -> (r: Phase)
        ensures
            r == self.phase(),
    {
        self.phase
    }

    /// Whether the source has signalled exhaustion.
    pub fn is_stream_done(&self) -> (r: bool)
        ensures
            r == self.stream_done(),
    {
        self.stream_done
    }

    /// The number of cached bytes not yet handed out.
    pub fn remaining(&self) -> (r: usize)
        requires
            self.wf(),
        ensures
            r == self.unread().len(),
    {
        proof {
            self.lemma_cursor();
        }
        self.buffer.len() - self.cursor
    }

    /// Decides what a read into a destination of `dst_len` bytes does.
    ///
    /// Cached bytes are handed out first, as many as fit, with no waiting. With
    /// nothing cached, an exhausted source gives end-of-stream and a zero-length
    /// destination gets zero bytes; otherwise the read needs the next chunk. It
    /// starts a pull only when none is in flight, so polling again while a pull
    /// is pending never starts a second one.
    pub fn poll_read(&mut self, dst_len: usize) -> (r: ReadAction)
        requires
            old(self).wf(),
        ensures
            final(self).wf(),
            final(self).log() == old(self).log(),
            final(self).stream_done() == old(self).stream_done(),
            old(self).unread().len() > 0 ==> {
                let n = if dst_len < old(self).unread().len() {
                    dst_len as int
                } else {
                    old(self).unread().len() as int
                };
                &&& r matches ReadAction::Data(b) && b@ == old(self).unread().take(n)
                &&& final(self).unread() == old(self).unread().skip(n)
                &&& final(self).delivered() == old(self).delivered() + old(self).unread().take(n)
                &&& final(self).phase() == old(self).phase()
            },
            old(self).unread().len() == 0 ==> final(self).unread().len() == 0
                && final(self).delivered() == old(self).delivered(),
            old(self).unread().len() == 0 && old(self).stream_done() ==> (r is Eof)
                && final(self).phase() == Phase::Complete,
            old(self).unread().len() == 0 && !old(self).stream_done() && dst_len == 0 ==> (r matches ReadAction::Data(b)
                && b@.len() == 0) && final(self).phase() == old(self).phase(),
            old(self).unread().len() == 0 && !old(self).stream_done() && dst_len > 0 && old(self).phase()
                == Phase::Busy ==> (r is AwaitPull) && final(self).phase() == Phase::Busy,
            old(self).unread().len() == 0 && !old(self).stream_done() && dst_len > 0 && old(self).phase()
                == Phase::Idle ==> (r is StartPull) && final(self).phase() == Phase::Busy,
            r is StartPull ==> final(self).pulls() == old(self).pulls() + 1,
            !(r is StartPull) ==> final(self).pulls() == old(self).pulls(),
    {
        proof {
            self.lemma_cursor();
        }
        let avail = self.buffer.len() - self.cursor;
        if avail > 0 {
            let n = if dst_len < avail {
                dst_len
            } else {
                avail
            };
            let out = copy_range(&self.buffer, self.cursor, n);
            let ghost before = self.unread();
            self.cursor = self.cursor + n;
            self.delivered = Ghost(self.delivered@ + out@);
            proof {
                assert(out@ =~= before.take(n as int));
                assert(self.unread() =~= before.skip(n as int));
                assert(before =~= before.take(n as int) + before.skip(n as int));
                assert(self.delivered() + self.unread() =~= old(self).delivered() + before);
            }
            ReadAction::Data(out)
        } else if self.stream_done {
            self.phase = Phase::Complete;
            ReadAction::Eof
        } else if dst_len == 0 {
            ReadAction::Data(Vec::new())
        } else {
            match self.phase {
                Phase::Busy => ReadAction::AwaitPull,
                _ => {
                    self.phase = Phase::Busy;
                    ReadAction::StartPull
                },
            }
        }
    }

    /// Takes in what the pull in flight resolved with.
    ///
    /// A chunk replaces the (empty) cache, with the cursor at its start. The
    /// exhaustion signal makes the adapter complete, or, when it carries data,
    /// caches that data first and completes once it has been read. A failed
    /// pull or a malformed reply is reported as an error and leaves the adapter
    /// idle with nothing cached.
    pub fn on_pull(&mut self, outcome: PullOutcome) -> (r: Result<(), ReadError>)
        requires
            old(self).wf(),
            old(self).phase() == Phase::Busy,
        ensures
            final(self).wf(),
            final(self).log() == old(self).log().push(record_of(outcome)),
            final(self).delivered() == old(self).delivered(),
            final(self).received() == old(self).received() + record_of(outcome).payload(),
            final(self).unread() == record_of(outcome).payload(),
            final(self).stream_done() == record_of(outcome).is_terminal(),
            record_of(outcome) matches PullRecord::End ==> final(self).phase() == Phase::Complete,
            !(record_of(outcome) matches PullRecord::End) ==> final(self).phase() == Phase::Idle,
            final(self).pulls() == old(self).pulls(),
            match error_of(outcome) {
                Some(e) => r == Err::<(), ReadError>(e),
                None => r is Ok,
            },
    {
        let ghost rec = record_of(outcome);
        let ghost old_log = self.log@;
        proof {
            lemma_log_push(old_log, rec);
            assert(self.delivered() =~= bytes_of(old_log));
        }
        let mut next = Phase::Idle;
        let r = match outcome {
            PullOutcome::Rejected(m) => Err(ReadError::Source(m)),
            PullOutcome::Replied(done, value) => match classify_reply(done, value) {
                Err(e) => Err(ReadError::Protocol(e)),
                Ok(PullReply::Chunk(c)) => {
                    self.buffer = c;
                    Ok(())
                },
                Ok(PullReply::LastChunk(c)) => {
                    self.buffer = c;
                    self.stream_done = true;
                    Ok(())
                },
                Ok(PullReply::End) => {
                    self.buffer = Vec::new();
                    self.stream_done = true;
                    next = Phase::Complete;
                    Ok(())
                },
            },
        };
        if r.is_err() {
            self.buffer = Vec::new();
        }
        self.cursor = 0;
        self.phase = next;
        self.log = Ghost(old_log.push(rec));
        proof {
            assert(self.unread() =~= self.buffer@);
            assert forall|i: int| 0 <= i < self.log().len() - 1 implies !(
            #[trigger] self.log()[i]).is_terminal() by {
                assert(self.log()[i] == old_log[i]);
            }
        }
        r
    }
}

proof fn lemma_count_open_log(log: Seq<PullRecord>)
    requires
        forall|i: int| 0 <= i < log.len() ==> !(#[trigger] log[i]).is_terminal(),
    ensures
        log.len() == data_pulls(log) + faults(log),
    decreases log.len(),
{
    if log.len() > 0 {
        let prefix = log.drop_last();
        assert forall|i: int| 0 <= i < prefix.len() implies !(#[trigger] prefix[i]).is_terminal() by {
            assert(prefix[i] == log[i]);
        }
        lemma_count_open_log(prefix);
    }
}

/// Bytes come out complete and in order: what has been handed out, followed by
/// what is still cached, is exactly the concatenation of the chunks the source
/// yielded, in the order it yielded them. Once the adapter is complete, the
/// bytes handed out are exactly that concatenation.
pub proof fn lemma_delivery_in_order(a: StreamAdapter)
    requires
        a.wf(),
    ensures
        a.delivered() + a.unread() == a.received(),
        a.delivered().len() <= a.received().len(),
        a.delivered() == a.received().take(a.delivered().len() as int),
        a.phase() == Phase::Complete ==> a.delivered() == a.received(),
{
    assert(a.delivered() =~= a.received().take(a.delivered().len() as int));
    if a.phase() == Phase::Complete {
        assert(a.delivered() =~= a.delivered() + a.unread());
    }
}

/// Pulls are never duplicated: every pull started is one that resolved with
/// a chunk, one that failed, the single terminal pull, or the one still in
/// flight. Once complete, the count is the number of chunk-bearing pulls plus
/// failures plus one terminal pull.
pub proof fn lemma_pull_count(a: StreamAdapter)
    requires
        a.wf(),
    ensures
        a.pulls() == data_pulls(a.log()) + faults(a.log()) + (if a.stream_done() {
            1int
        } else {
            0int
        }) + (if a.phase() == Phase::Busy {
            1int
        } else {
            0int
        }),
        a.phase() == Phase::Complete ==> a.pulls() == data_pulls(a.log()) + faults(a.log()) + 1,
{
    let log = a.log();
    if a.stream_done() {
        let prefix = log.drop_last();
        assert forall|i: int| 0 <= i < prefix.len() implies !(#[trigger] prefix[i]).is_terminal() by {
            assert(prefix[i] == log[i]);
        }
        lemma_count_open_log(prefix);
        assert(log == prefix.push(log.last()));
        lemma_log_push(prefix, log.last());
    } else {
        assert forall|i: int| 0 <= i < log.len() implies !(#[trigger] log[i]).is_terminal() by {
            if i < log.len() - 1 {
            } else {
                assert(log[i] == log.last());
            }
        }
        lemma_count_open_log(log);
    }
}

} // verus!
