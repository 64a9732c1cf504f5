//! One direction of a connection: an unbounded queue of bytes between a
//! writer and a reader.
//!
//! Bytes leave in the order in which they entered; none is lost, repeated or
//! changed. When the writer closes, the reader still gets what is queued and
//! then the end of the stream. When the reader closes, writing fails.

use std::collections::VecDeque;
use vstd::prelude::*;
use crate::error::IoError;
use crate::poll::Poll;

verus! {

/// A pipe as a mathematical value.
#[verifier::ext_equal]
pub struct PipeState {
    /// The bytes written and not yet read, oldest first.
    pub buffered: Seq<u8>,
    /// Whether the writing end is open.
    pub writer_open: bool,
    /// Whether the reading end is open.
    pub reader_open: bool,
    /// The task that waits for bytes, if one does.
    pub waiting: Option<usize>,
    /// Every byte ever written, in order.
    pub sent: Seq<u8>,
    /// Every byte ever read, in order.
    pub delivered: Seq<u8>,
}

/// The smaller of two numbers.
pub open spec fn min_nat(a: nat, b: nat) -> nat {
    if a <= b {
        a
    } else {
        b
    }
}

impl PipeState {
    /// An empty pipe with both ends open.
    pub open spec fn initial() -> PipeState {
        PipeState {
            buffered: Seq::empty(),
            writer_open: true,
            reader_open: true,
            waiting: None,
            sent: Seq::empty(),
            delivered: Seq::empty(),
        }
    }

    /// What was written is what was read followed by what is still queued.
    pub open spec fn inv(self) -> bool {
        self.sent == self.delivered + self.buffered
    }

    /// Whether a write is accepted: both ends are open.
    pub open spec fn can_write(self) -> bool {
        self.writer_open && self.reader_open
    }

    /// The pipe after `data` was offered for writing.
    pub open spec fn write(self, data: Seq<u8>) -> PipeState {
        if self.can_write() {
            PipeState {
                buffered: self.buffered + data,
                sent: self.sent + data,
                waiting: None,
                ..self
            }
        } else {
            self
        }
    }

    /// What a write returns: the task to wake, or the failure.
    pub open spec fn write_result(self) -> Result<Option<usize>, IoError> {
        if self.can_write() {
            Ok(self.waiting)
        } else {
            Err(IoError::BrokenPipe)
        }
    }

    /// How many bytes a read of at most `max` takes.
    pub open spec fn read_len(self, max: nat) -> nat {
        min_nat(max, self.buffered.len())
    }

    /// The pipe after `task` asked for at most `max` bytes.
    pub open spec fn read(self, max: nat, task: usize) -> PipeState {
        if !self.reader_open {
            self
        } else if self.buffered.len() > 0 {
            let n = self.read_len(max) as int;
            PipeState {
                buffered: self.buffered.skip(n),
                delivered: self.delivered + self.buffered.take(n),
                ..self
            }
        } else if !self.writer_open {
            self
        } else {
            PipeState { waiting: Some(task), ..self }
        }
    }

    /// What a read of at most `max` bytes returns: the oldest bytes that are
    /// queued; nothing at all once the writer has closed and the queue is
    /// empty; the news to wait while the queue is empty and the writer is
    /// open; a failure where the reading end itself is closed.
    pub open spec fn read_result(self, max: nat) -> Poll<Result<Seq<u8>, IoError>> {
        if !self.reader_open {
            Poll::Ready(Err(IoError::BrokenPipe))
        } else if self.buffered.len() > 0 {
            Poll::Ready(Ok(self.buffered.take(self.read_len(max) as int)))
        } else if !self.writer_open {
            Poll::Ready(Ok(Seq::empty()))
        } else {
            Poll::Pending
        }
    }

    /// The pipe after the writing end was closed.
    pub open spec fn close_writer(self) -> PipeState {
        PipeState { writer_open: false, waiting: None, ..self }
    }

    /// The pipe after the reading end was closed.
    pub open spec fn close_reader(self) -> PipeState {
        PipeState { reader_open: false, waiting: None, ..self }
    }
}

/// What a read returned, with the bytes as a sequence.
pub open spec fn read_view(r: Poll<Result<Vec<u8>, IoError>>) -> Poll<Result<Seq<u8>, IoError>> {
    match r {
        Poll::Ready(Ok(v)) => Poll::Ready(Ok(v@)),
        Poll::Ready(Err(e)) => Poll::Ready(Err(e)),
        Poll::Pending => Poll::Pending,
    }
}

/// One direction of a connection.
pub struct Pipe {
    buf: VecDeque<u8>,
    writer_open: bool,
    reader_open: bool,
    waiting: Option<usize>,
    sent: Ghost<Seq<u8>>,
    delivered: Ghost<Seq<u8>>,
}

impl View for Pipe {
    type V = PipeState;

    closed spec fn view(&self) -> PipeState {
        PipeState {
            buffered: self.buf@,
            writer_open: self.writer_open,
            reader_open: self.reader_open,
            waiting: self.waiting,
            sent: self.sent@,
            delivered: self.delivered@,
        }
    }
}

impl Pipe {
    /// An empty pipe with both ends open.
    pub fn new() -> (p: Pipe)
        ensures
            p@ == PipeState::initial(),
            p@.inv(),
    {
        let p = Pipe {
            buf: VecDeque::new(),
            writer_open: true,
            reader_open: true,
            waiting: None,
            sent: Ghost(Seq::empty()),
            delivered: Ghost(Seq::empty()),
        };
        assert(p@ =~= PipeState::initial());
        assert(p@.sent =~= p@.delivered + p@.buffered);
        p
    }

    /// How many bytes are queued.
    pub fn buffered_len(&self) -> (n: usize)
        ensures
            n == self@.buffered.len(),
    {
        self.buf.len()
    }

    pub fn is_writer_open(&self) -> (b: bool)
        ensures
            b == self@.writer_open,
    {
        self.writer_open
    }

    pub fn is_reader_open(&self) -> (b: bool)
        ensures
            b == self@.reader_open,
    {
        self.reader_open
    }

    /// Appends `data` to the queue. Returns the task that waited for bytes,
    /// which the caller has to wake. Fails, and changes nothing, where either
    /// end is closed.
    pub fn write(&mut self, data: &[u8]) -> (r: Result<Option<usize>, IoError>)
        requires
            old(self)@.inv(),
        ensures
            final(self)@.inv(),
            final(self)@ == old(self)@.write(data@),
            r == old(self)@.write_result(),
    {
        if !(self.writer_open && self.reader_open) {
            return Err(IoError::BrokenPipe);
        }
        let woken = self.waiting;
        self.waiting = None;
        let mut i: usize = 0;
        while i < data.len()
            invariant
                i <= data.len(),
                self.buf@ == old(self).buf@ + data@.take(i as int),
                self.writer_open == old(self).writer_open,
                self.reader_open == old(self).reader_open,
                self.waiting.is_none(),
                self.sent == old(self).sent,
                self.delivered == old(self).delivered,
            decreases data.len() - i,
        {
            self.buf.push_back(data[i]);
            proof {
                assert(data@.take(i + 1) =~= data@.take(i as int).push(data@[i as int]));
                assert(self.buf@ =~= old(self).buf@ + data@.take(i + 1));
            }
            i = i + 1;
        }
        proof {
            assert(data@.take(i as int) =~= data@);
            self.sent@ = self.sent@ + data@;
            assert(self@.sent =~= self@.delivered + self@.buffered);
            assert(self@ =~= old(self)@.write(data@));
        }
        Ok(woken)
    }

    /// Takes at most `max` bytes from the head of the queue. Where the queue
    /// is empty and the writer is still there, `task` is noted as waiting and
    /// the answer is `Pending`.
    pub fn read(&mut self, max: usize, task: usize) -> (r: Poll<Result<Vec<u8>, IoError>>)
        requires
            old(self)@.inv(),
        ensures
            final(self)@.inv(),
            final(self)@ == old(self)@.read(max as nat, task),
            read_view(r) == old(self)@.read_result(max as nat),
    {
        if !self.reader_open {
            return Poll::Ready(Err(IoError::BrokenPipe));
        }
        let available: usize = self.buf.len();
        if available == 0 {
            if !self.writer_open {
                let out: Vec<u8> = Vec::new();
                assert(out@ =~= Seq::<u8>::empty());
                return Poll::Ready(Ok(out));
            }
            self.waiting = Some(task);
            assert(self@ =~= old(self)@.read(max as nat, task));
            return Poll::Pending;
        }
        let n: usize = if max < available {
            max
        } else {
            available
        };
        let mut out: Vec<u8> = Vec::new();
        let mut i: usize = 0;
        while i < n
            invariant
                i <= n,
                n <= old(self).buf@.len(),
                out@ == old(self).buf@.take(i as int),
                self.buf@ == old(self).buf@.skip(i as int),
                self.writer_open == old(self).writer_open,
                self.reader_open == old(self).reader_open,
                self.waiting == old(self).waiting,
                self.sent == old(self).sent,
                self.delivered == old(self).delivered,
            decreases n - i,
        {
            let byte = self.buf.pop_front().unwrap();
            out.push(byte);
            proof {
                assert(out@ =~= old(self).buf@.take(i + 1));
                assert(self.buf@ =~= old(self).buf@.skip(i + 1));
            }
            i = i + 1;
        }
        proof {
            self.delivered@ = self.delivered@ + out@;
            let s0 = old(self)@;
            assert(s0.buffered =~= s0.buffered.take(n as int) + s0.buffered.skip(n as int));
            assert(self@.sent =~= self@.delivered + self@.buffered);
            assert(self@ =~= s0.read(max as nat, task));
        }
        Poll::Ready(Ok(out))
    }

    /// Closes the writing end. The reader still gets what is queued, and then
    /// the end of the stream. Returns the task that waited for bytes, which
    /// the caller has to wake.
    pub fn close_writer(&mut self) -> (woken: Option<usize>)
        requires
            old(self)@.inv(),
        ensures
            final(self)@.inv(),
            final(self)@ == old(self)@.close_writer(),
            woken == old(self)@.waiting,
    {
        let woken = self.waiting;
        self.writer_open = false;
        self.waiting = None;
        assert(self@ =~= old(self)@.close_writer());
        woken
    }

    /// Closes the reading end. Writing fails from now on.
    pub fn close_reader(&mut self)
        requires
            old(self)@.inv(),
        ensures
            final(self)@.inv(),
            final(self)@ == old(self)@.close_reader(),
    {
        self.reader_open = false;
        self.waiting = None;
        assert(self@ =~= old(self)@.close_reader());
    }
}

/// Bytes arrive in the order in which they were written, none lost and none
/// repeated: after any write and any read, what was read so far followed by
/// what is still queued is what was written so far; a read hands out the
/// oldest queued bytes and a write puts the new ones behind all others.
pub proof fn lemma_pipe_preserves_order(s: PipeState, data: Seq<u8>, max: nat, task: usize)
    requires
        s.inv(),
    ensures
        s.write(data).inv(),
        s.read(max, task).inv(),
        s.close_writer().inv(),
        s.close_reader().inv(),
        s.can_write() ==> s.write(data).sent == s.sent + data,
        s.read_result(max) matches Poll::Ready(Ok(bytes)) ==> s.read(max, task).delivered
            == s.delivered + bytes,
{
    let n = s.read_len(max) as int;
    assert(s.buffered =~= s.buffered.take(n) + s.buffered.skip(n));
    assert(s.write(data).sent =~= s.write(data).delivered + s.write(data).buffered);
    assert(s.read(max, task).sent =~= s.read(max, task).delivered + s.read(max, task).buffered);
    match s.read_result(max) {
        Poll::Ready(Ok(bytes)) => {
            assert(s.read(max, task).delivered =~= s.delivered + bytes);
        },
        _ => {},
    }
}

/// A message written to an empty pipe and read back with room for all of it
/// comes back byte for byte, whatever its length.
pub proof fn lemma_pipe_round_trip(s: PipeState, message: Seq<u8>, task: usize)
    requires
        s.inv(),
        s.can_write(),
        s.buffered.len() == 0,
        message.len() > 0,
    ensures
        s.write(message).read_result(message.len()) == Poll::Ready(
            Ok::<Seq<u8>, IoError>(message),
        ),
        s.write(message).read(message.len(), task).buffered == Seq::<u8>::empty(),
{
    let w = s.write(message);
    assert(w.buffered =~= message);
    assert(w.buffered.take(message.len() as int) =~= message);
    assert(w.buffered.skip(message.len() as int) =~= Seq::<u8>::empty());
}

} // verus!
