//! The decoupled adapter: a pump moves chunks from the source into a bounded
//! FIFO of bytes, and the reader drains the other end.
//!
//! Both sides are decision functions; their drivers do the waiting. The pump
//! asks `pump_step` what to do next: start a pull, wait on the pull in flight,
//! wait for room in the buffer (the backpressure), or stop. It passes what a
//! pull resolved with to `on_pull`. The reader asks `read` for bytes and waits
//! when it is told to. A failed pull closes the write side. The failure is
//! reported once, by the first read that finds the buffer empty; after that,
//! reads report end-of-stream.
use vstd::prelude::*;

use std::collections::VecDeque;

use crate::adapter::{error_of, record_of, PullOutcome, ReadError};
use crate::reply::{classify_reply, PullReply};

verus! {

/// The buffer size a pipe is made with unless another is chosen: 1 MiB.
pub const DEFAULT_PIPE_CAPACITY: usize = 1048576;

/// What the pump should do after `pump_step`.
#[derive(Debug, PartialEq, Eq, Structural)]
pub enum PumpAction {
    /// Start one pull on the source, then wait for it and call `on_pull`.
    Pull,
    /// A pull is in flight: keep waiting on it.
    AwaitPull,
    /// The buffer is full: wait until the reader has drained some of it.
    AwaitSpace,
    /// The write side is closed: the pump is done.
    Finished,
}

/// What a read from the pipe gives.
#[derive(Debug)]
pub enum PipeRead {
    /// These bytes, taken from the front of the buffer.
    Data(Vec<u8>),
    /// End of stream.
    Eof,
    /// Nothing buffered yet: wait for the pump.
    AwaitData,
}

/// Moves `k` bytes of `pending`, starting at `offset`, to the back of `queue`.
fn move_bytes(queue: &mut VecDeque<u8>, pending: &Vec<u8>, offset: usize, k: usize)
    requires
        offset + k <= pending@.len(),
    ensures
        final(queue)@ == old(queue)@ + pending@.subrange(offset as int, offset + k),
{
    let len = pending.len();
    let mut i: usize = 0;
    while i < k
        invariant
            len == pending@.len(),
            offset + k <= pending@.len(),
            i <= k,
            queue@ == old(queue)@ + pending@.subrange(offset as int, offset + i),
        decreases k - i,
    {
        queue.push_back(pending[offset + i]);
        i = i + 1;
        assert(queue@ =~= old(queue)@ + pending@.subrange(offset as int, offset + i));
    }
}

/// Takes the first `n` bytes off the front of `queue`.
fn take_front(queue: &mut VecDeque<u8>, n: usize) -> (r: Vec<u8>)
    requires
        n <= old(queue)@.len(),
    ensures
        r@ == old(queue)@.take(n as int),
        final(queue)@ == old(queue)@.skip(n as int),
{
    let mut out: Vec<u8> = Vec::with_capacity(n);
    let mut i: usize = 0;
    while i < n
        invariant
            n <= old(queue)@.len(),
            i <= n,
            out@ == old(queue)@.take(i as int),
            queue@ == old(queue)@.skip(i as int),
        decreases n - i,
    {
        let b = queue.pop_front();
        match b {
            Some(x) => {
                out.push(x);
            },
            None => {},
        }
        i = i + 1;
        assert(out@ =~= old(queue)@.take(i as int));
        assert(queue@ =~= old(queue)@.skip(i as int));
    }
    out
}

/// A pipe between a pull-style source and a byte reader, with a buffer of
/// fixed capacity in between.
pub struct ReaderPipe {
    queue: VecDeque<u8>,
    capacity: usize,
    pending: Vec<u8>,
    offset: usize,
    pulling: bool,
    stream_done: bool,
    write_closed: bool,
    read_closed: bool,
    failure: Option<ReadError>,
    received: Ghost<Seq<u8>>,
    delivered: Ghost<Seq<u8>>,
}

impl ReaderPipe {
    /// The bytes in the buffer, oldest first.
    pub closed spec fn contents(self) -> Seq<u8> {
        self.queue@
    }

    /// The most bytes the buffer holds at once.
    pub closed spec fn capacity(self) -> nat {
        self.capacity as nat
    }

    /// The bytes of the last chunk that the pump has not yet put in the buffer.
    pub closed spec fn unwritten(self) -> Seq<u8> {
        self.pending@.subrange(self.offset as int, self.pending@.len() as int)
    }

    /// Whether a pull is in flight.
    pub closed spec fn pulling(self) -> bool {
        self.pulling
    }

    /// Whether the source has signalled exhaustion.
    pub closed spec fn stream_done(self) -> bool {
        self.stream_done
    }

    /// Whether the pump has stopped writing.
    pub closed spec fn write_closed(self) -> bool {
        self.write_closed
    }

    /// Whether the reader has gone away.
    pub closed spec fn read_closed(self) -> bool {
        self.read_closed
    }

    /// A failure of the source not yet reported to the reader.
    pub closed spec fn failure(self) -> Option<ReadError> {
        self.failure
    }

    /// The concatenation of all chunks the source yielded so far.
    pub closed spec fn received(self) -> Seq<u8> {
        self.received@
    }

    /// All bytes handed to the reader so far, in order.
    pub closed spec fn delivered(self) -> Seq<u8> {
        self.delivered@
    }

    /// The chunk offset stays within the chunk.
    pub closed spec fn offset_ok(self) -> bool {
        self.offset <= self.pending@.len()
    }

    /// The pipe's invariant.
    pub open spec fn wf(self) -> bool {
        &&& self.offset_ok()
        &&& self.capacity() > 0
        &&& self.contents().len() <= self.capacity()
        &&& self.delivered() + self.contents() + self.unwritten() == self.received()
        &&& self.pulling() ==> self.unwritten().len() == 0 && !self.stream_done() && !self.write_closed()
        &&& self.failure() is Some ==> self.write_closed()
    }

    proof fn lemma_offset(self)
        requires
            self.wf(),
        ensures
            self.offset <= self.pending@.len(),
            self.unwritten().len() == self.pending@.len() - self.offset,
            self.queue@.len() <= self.capacity,
    {
    }

    /// An empty pipe whose buffer holds at most `capacity` bytes.
    pub fn new(capacity: usize) -> (r: Self)
        requires
            capacity > 0,
        ensures
            r.wf(),
            r.capacity() == capacity,
            r.contents().len() == 0,
            r.unwritten().len() == 0,
            r.received().len() == 0,
            r.delivered().len() == 0,
            !r.pulling(),
            !r.stream_done(),
            !r.write_closed(),
            !r.read_closed(),
            r.failure() is None,
    {
        let r = ReaderPipe {
            queue: VecDeque::new(),
            capacity,
            pending: Vec::new(),
            offset: 0,
            pulling: false,
            stream_done: false,
            write_closed: false,
            read_closed: false,
            failure: None,
            received: Ghost(Seq::empty()),
            delivered: Ghost(Seq::empty()),
        };
        assert(r.unwritten() =~= Seq::<u8>::empty());
        assert(r.delivered() + r.contents() + r.unwritten() =~= r.received());
        r
    }

    /// The number of bytes in the buffer.
    pub fn buffered(&self) -> (r: usize)
        ensures
            r == self.contents().len(),
    {
        self.queue.len()
    }

    /// Decides the pump's next move.
    ///
    /// Once the reader has gone away the pump closes the write side and
    /// stops. Otherwise, with no pull in flight, the pump first moves as much
    /// of the last chunk into the buffer as there is room for. It waits for
    /// room while bytes of that chunk are left; with the chunk written it
    /// stops if the source is exhausted and starts the next pull if not.
    pub fn pump_step(&mut self) -> (r: PumpAction)
        requires
            old(self).wf(),
        ensures
            final(self).wf(),
            final(self).capacity() == old(self).capacity(),
            final(self).received() == old(self).received(),
            final(self).delivered() == old(self).delivered(),
            final(self).failure() == old(self).failure(),
            final(self).stream_done() == old(self).stream_done(),
            final(self).read_closed() == old(self).read_closed(),
            final(self).contents() + final(self).unwritten() == old(self).contents() + old(self).unwritten(),
            old(self).read_closed() || old(self).write_closed() ==> r == PumpAction::Finished
                && final(self).write_closed() && final(self).contents() == old(self).contents()
                && !final(self).pulling(),
            !old(self).read_closed() && !old(self).write_closed() && old(self).pulling() ==> r
                == PumpAction::AwaitPull && final(self).contents() == old(self).contents()
                && final(self).pulling() && !final(self).write_closed(),
            !old(self).read_closed() && !old(self).write_closed() && !old(self).pulling() ==> {
                let room = old(self).capacity() - old(self).contents().len();
                let k = if room < old(self).unwritten().len() {
                    room
                } else {
                    old(self).unwritten().len() as int
                };
                &&& final(self).contents() == old(self).contents() + old(self).unwritten().take(k)
                &&& final(self).unwritten() == old(self).unwritten().skip(k)
                &&& final(self).unwritten().len() > 0 ==> r == PumpAction::AwaitSpace
                    && !final(self).pulling() && !final(self).write_closed()
                &&& final(self).unwritten().len() == 0 && old(self).stream_done() ==> r
                    == PumpAction::Finished && final(self).write_closed() && !final(self).pulling()
                &&& final(self).unwritten().len() == 0 && !old(self).stream_done() ==> r
                    == PumpAction::Pull && final(self).pulling() && !final(self).write_closed()
            },
    {
        proof {
            self.lemma_offset();
        }
        if self.read_closed || self.write_closed {
            self.write_closed = true;
            self.pulling = false;
            return PumpAction::Finished;
        }
        if self.pulling {
            return PumpAction::AwaitPull;
        }
        let room = self.capacity - self.queue.len();
        let left = self.pending.len() - self.offset;
        let k = if room < left {
            room
        } else {
            left
        };
        let ghost before = self.unwritten();
        move_bytes(&mut self.queue, &self.pending, self.offset, k);
        self.offset = self.offset + k;
        proof {
            assert(self.unwritten() =~= before.skip(k as int));
            assert(before.take(k as int) =~= old(self).pending@.subrange(
                old(self).offset as int,
                old(self).offset + k,
            ));
            assert(before =~= before.take(k as int) + before.skip(k as int));
            assert(self.contents() + self.unwritten() =~= old(self).contents() + before);
            assert(self.delivered() + self.contents() + self.unwritten() =~= self.delivered() + (
            old(self).contents() + before));
            assert(self.delivered() + (old(self).contents() + before) =~= old(self).delivered()
                + old(self).contents() + old(self).unwritten());
            assert(self.contents().len() == old(self).contents().len() + k);
            assert(self.unwritten().len() == left - k);
        }
        if k < left {
            PumpAction::AwaitSpace
        } else if self.stream_done {
            self.write_closed = true;
            PumpAction::Finished
        } else {
            self.pulling = true;
            PumpAction::Pull
        }
    }

    /// Takes in what the pump's pull resolved with.
    ///
    /// A chunk becomes the pump's next chunk to write. The exhaustion signal
    /// is recorded, after the data it carries, if any. A failed pull or a
    /// malformed reply closes the write side and is kept for the reader.
    pub fn on_pull(&mut self, outcome: PullOutcome)
        requires
            old(self).wf(),
            old(self).pulling(),
        ensures
            final(self).wf(),
            !final(self).pulling(),
            final(self).capacity() == old(self).capacity(),
            final(self).contents() == old(self).contents(),
            final(self).delivered() == old(self).delivered(),
            final(self).read_closed() == old(self).read_closed(),
            final(self).received() == old(self).received() + record_of(outcome).payload(),
            final(self).unwritten() == record_of(outcome).payload(),
            final(self).stream_done() == record_of(outcome).is_terminal(),
            final(self).failure() == error_of(outcome),
            final(self).write_closed() == (record_of(outcome) is Fault),
    {
        proof {
            self.lemma_offset();
            assert(self.unwritten().len() == 0);
            assert(self.delivered() + self.contents() =~= self.received());
        }
        match outcome {
            PullOutcome::Rejected(m) => {
                self.pending = Vec::new();
                self.failure = Some(ReadError::Source(m));
                self.write_closed = true;
            },
            PullOutcome::Replied(done, value) => match classify_reply(done, value) {
                Err(e) => {
                    self.pending = Vec::new();
                    self.failure = Some(ReadError::Protocol(e));
                    self.write_closed = true;
                },
                Ok(PullReply::Chunk(c)) => {
                    self.received = Ghost(self.received@ + c@);
                    self.pending = c;
                },
                Ok(PullReply::LastChunk(c)) => {
                    self.received = Ghost(self.received@ + c@);
                    self.pending = c;
                    self.stream_done = true;
                },
                Ok(PullReply::End) => {
                    self.pending = Vec::new();
                    self.stream_done = true;
                },
            },
        }
        self.offset = 0;
        self.pulling = false;
        proof {
            assert(self.unwritten() =~= self.pending@);
            if record_of(outcome) is Fault || record_of(outcome) is End {
                assert(self.pending@ =~= Seq::<u8>::empty());
                assert(self.received() =~= old(self).received() + record_of(outcome).payload());
            }
        }
    }

    /// Reads into a destination of `dst_len` bytes.
    ///
    /// Buffered bytes come first, as many as fit. With the buffer empty, a
    /// kept failure is reported (once); a closed write side gives
    /// end-of-stream; a zero-length destination gets zero bytes; otherwise the
    /// reader waits for the pump.
    pub fn read(&mut self, dst_len: usize) -> (r: Result<PipeRead, ReadError>)
        requires
            old(self).wf(),
        ensures
            final(self).wf(),
            final(self).capacity() == old(self).capacity(),
            final(self).received() == old(self).received(),
            final(self).unwritten() == old(self).unwritten(),
            final(self).pulling() == old(self).pulling(),
            final(self).stream_done() == old(self).stream_done(),
            final(self).write_closed() == old(self).write_closed(),
            final(self).read_closed() == old(self).read_closed(),
            old(self).contents().len() > 0 ==> {
                let n = if dst_len < old(self).contents().len() {
                    dst_len as int
                } else {
                    old(self).contents().len() as int
                };
                &&& r matches Ok(PipeRead::Data(b)) && b@ == old(self).contents().take(n)
                &&& final(self).contents() == old(self).contents().skip(n)
                &&& final(self).delivered() == old(self).delivered() + old(self).contents().take(n)
                &&& final(self).failure() == old(self).failure()
            },
            old(self).contents().len() == 0 ==> final(self).contents().len() == 0
                && final(self).delivered() == old(self).delivered() && final(self).failure() is None,
            old(self).contents().len() == 0 && old(self).failure() is Some ==> r
                == Err::<PipeRead, ReadError>(old(self).failure().unwrap()),
            old(self).contents().len() == 0 && old(self).failure() is None && old(self).write_closed()
                ==> (r matches Ok(PipeRead::Eof)),
            old(self).contents().len() == 0 && !old(self).write_closed() && dst_len == 0 ==> (r matches Ok(
                PipeRead::Data(b),
            ) && b@.len() == 0),
            old(self).contents().len() == 0 && !old(self).write_closed() && dst_len > 0 ==> (r matches Ok(
                PipeRead::AwaitData,
            )),
    {
        let avail = self.queue.len();
        if avail > 0 {
            let n = if dst_len < avail {
                dst_len
            } else {
                avail
            };
            let ghost before = self.contents();
            let out = take_front(&mut self.queue, n);
            self.delivered = Ghost(self.delivered@ + out@);
            proof {
                assert(before =~= before.take(n as int) + before.skip(n as int));
                assert(self.delivered() + self.contents() =~= old(self).delivered() + before);
            }
            Ok(PipeRead::Data(out))
        } else {
            let kept = self.failure.take();
            match kept {
                Some(e) => Err(e),
                None => {
                    if self.write_closed {
                        Ok(PipeRead::Eof)
                    } else if dst_len == 0 {
                        Ok(PipeRead::Data(Vec::new()))
                    } else {
                        Ok(PipeRead::AwaitData)
                    }
                },
            }
        }
    }

    /// Records that the reader has gone away, so the pump stops pulling.
    pub fn close_read(&mut self)
        requires
            old(self).wf(),
        ensures
            final(self).wf(),
            final(self).read_closed(),
            final(self).capacity() == old(self).capacity(),
            final(self).contents() == old(self).contents(),
            final(self).unwritten() == old(self).unwritten(),
            final(self).received() == old(self).received(),
            final(self).delivered() == old(self).delivered(),
            final(self).pulling() == old(self).pulling(),
            final(self).stream_done() == old(self).stream_done(),
            final(self).write_closed() == old(self).write_closed(),
            final(self).failure() == old(self).failure(),
    {
        self.read_closed = true;
    }
}

/// The pipe keeps bytes in order and within its bound: what the reader has
/// been handed, then what is buffered, then what the pump still holds, is
/// exactly the concatenation of the chunks the source yielded; the buffer
/// never holds more than its capacity. Once the write side is closed after
/// exhaustion and the buffer is drained, the reader has had every byte.
pub proof fn lemma_pipe_in_order(p: ReaderPipe)
    requires
        p.wf(),
    ensures
        p.delivered() + p.contents() + p.unwritten() == p.received(),
        p.contents().len() <= p.capacity(),
        p.contents().len() == 0 && p.unwritten().len() == 0 ==> p.delivered() == p.received(),
{
    if p.contents().len() == 0 && p.unwritten().len() == 0 {
        assert(p.delivered() =~= p.delivered() + p.contents() + p.unwritten());
    }
}

} // verus!
