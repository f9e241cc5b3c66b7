use core::marker::PhantomData;
use mio::net::UnixStream;
use vstd::prelude::*;
use vstd::utf8::{encode_utf8, valid_utf8};

use crate::buffer::{fill_layout, Buffer};
use crate::framing::{
    all_no_zero, decode_frames, encode_frame, encode_frames, find_zero, next_frame, no_zero,
    utf8_string,
};
use crate::ready::{Ready, HUP, READABLE, WRITABLE};

verus! {

/// mio's unix stream. The channel carries it; every read, write and
/// registration on it happens in the code that drives the channel.
#[verifier::external_type_specification]
#[verifier::external_body]
pub struct ExUnixStream(UnixStream);

/// Why a transfer between the stream and a buffer stopped.
#[derive(Debug, Clone, Copy, PartialEq, Eq, Structural)]
pub enum ConnError {
    /// The channel was not ready for the transfer.
    Continue,
    /// A message could not be parsed.
    ParseError,
    /// The stream was closed or failed.
    SocketError,
}

/// What looking for a message in the front buffer found.
#[derive(Debug)]
pub enum FrameRead {
    /// A complete message, valid UTF-8.
    Text(String),
    /// A complete message that is not valid UTF-8; it was dropped.
    NotUtf8,
    /// No complete message yet.
    Incomplete,
}

/// What a read from the stream gave.
#[derive(Debug)]
pub enum ReadOutcome {
    /// These bytes were read; none means the peer closed the stream.
    Bytes(Vec<u8>),
    /// The read would have blocked.
    WouldBlock,
    /// The read failed otherwise.
    Failed,
}

/// What a write to the stream gave.
#[derive(Debug, Clone, Copy, PartialEq, Eq, Structural)]
pub enum WriteOutcome {
    /// This many bytes of the back buffer's data were written.
    Wrote(usize),
    /// The write would have blocked.
    WouldBlock,
    /// The write failed otherwise.
    Failed,
}

/// The next step of moving bytes between the stream and a buffer.
#[derive(Debug, Clone, Copy, PartialEq, Eq)]
pub enum Transfer {
    /// Transfer once more; this many bytes were moved so far.
    Again(usize),
    /// The transfer is over, with this result.
    Finished(Result<usize, ConnError>),
}

/// The next step of reading a message in blocking mode.
#[derive(Debug)]
pub enum BlockingRead {
    /// A complete message was found and taken from the front buffer.
    Frame(FrameRead),
    /// The front buffer is full and cannot grow: give up.
    Stop,
    /// Read at most this many bytes from the stream and report them.
    Read(usize),
}

/// The next step of writing a message in blocking mode.
#[derive(Debug, Clone, Copy, PartialEq, Eq, Structural)]
pub enum BlockingWrite {
    /// Write the back buffer's data to the stream and report the outcome.
    Write,
    /// The write is over; whether it is counted as sent.
    Done(bool),
}

/// Size of the front and back buffers of a command channel.
pub const DEFAULT_BUFFER_SIZE: usize = 16384;

/// Size that the buffers of a command channel may grow to.
pub const DEFAULT_MAX_BUFFER_SIZE: usize = 163840;

/// How much the front buffer grows at once when a message does not fit.
pub const FRONT_GROWTH: usize = 5000;

/// The smaller of two numbers.
pub open spec fn min_nat(a: nat, b: nat) -> nat {
    if a < b {
        a
    } else {
        b
    }
}

/// `r` is what a complete message `msg` is read as.
pub open spec fn frame_read_of(msg: Seq<u8>, r: FrameRead) -> bool {
    if valid_utf8(msg) {
        r matches FrameRead::Text(s) && encode_utf8(s@) == msg
    } else {
        r is NotUtf8
    }
}

/// `after` is the front buffer `before` once room was sought for more bytes:
/// a full buffer whose size is not `max` grows by `FRONT_GROWTH` bytes but
/// not past `max`, which leaves a buffer already larger than `max` as it is.
pub open spec fn grow_when_full(before: Buffer, max: nat, after: Buffer) -> bool {
    if before.space_spec() == 0 && before.cap() != max {
        let target = min_nat((before.cap() + FRONT_GROWTH) as nat, max);
        before.grow_spec(target, before.cap() < target, after)
    } else {
        after == before
    }
}

/// `after` is the back buffer `before` once `msg` was queued with a zero
/// byte after it, `ok` telling whether it fit: the data is first moved to
/// the start of memory when the framed message does not fit after it, and
/// the buffer then grows to exactly what the data and the framed message
/// need, unless that exceeds both its size and `max`.
pub open spec fn queue_spec(before: Buffer, msg: Seq<u8>, max: nat, ok: bool, after: Buffer) -> bool {
    let len = msg.len() + 1;
    let need = before@.len() + len;
    let moved = len > before.space_spec() && before.start_index() > 0;
    let p1: nat = if moved { 0 } else { before.start_index() };
    let e1: nat = if moved { before@.len() } else { before.end_index() };
    let cap1: nat = if need <= before.cap() { before.cap() } else { need };
    let l2 = fill_layout(p1, e1, cap1, msg.len());
    let l3 = fill_layout(l2.0, l2.1, cap1, 1);
    &&& after.wf()
    &&& ok == (need <= before.cap() || need <= max)
    &&& ok ==> {
        &&& after@ == before@ + encode_frame(msg)
        &&& after.cap() == cap1
        &&& (after.start_index(), after.end_index()) == l3
    }
    &&& !ok ==> {
        &&& after@ == before@
        &&& after.cap() == before.cap()
        &&& after.start_index() == p1
        &&& after.end_index() == e1
    }
}

/// Queuing a message on a back buffer that holds whole messages only keeps
/// it so: it then holds the same messages followed by the new one. A
/// message that cannot be queued leaves the data as it was.
pub proof fn lemma_queue_appends_message(
    before: Buffer,
    msg: Seq<u8>,
    max: nat,
    ok: bool,
    after: Buffer,
)
    requires
        queue_spec(before, msg, max, ok, after),
        decode_frames(before@).1.len() == 0,
        no_zero(msg),
    ensures
        ok ==> decode_frames(after@) == (decode_frames(before@).0.push(msg), Seq::<u8>::empty()),
        !ok ==> after@ == before@,
{
    if ok {
        crate::framing::lemma_decode_append_frame(before@, msg);
    }
}

/// Reading a message from a front buffer that holds messages written one
/// after another, then part of another, gives back the first message and
/// leaves the others as they were written.
pub proof fn lemma_read_gives_first_message(
    before: Buffer,
    msgs: Seq<Seq<u8>>,
    partial: Seq<u8>,
    r: FrameRead,
    after: Buffer,
)
    requires
        before@ == encode_frames(msgs) + partial,
        all_no_zero(msgs),
        msgs.len() > 0,
        next_frame(before@) matches Some((m, _rest)) ==> frame_read_of(m, r)
            && before.consume_spec(m.len() + 1, m.len() + 1, after),
    ensures
        frame_read_of(msgs[0], r),
        after@ == encode_frames(msgs.drop_first()) + partial,
{
    let rest = encode_frames(msgs.drop_first()) + partial;
    assert(before@ =~= encode_frame(msgs[0]) + rest);
    assert(no_zero(msgs[0]));
    crate::framing::lemma_frame_roundtrip(msgs[0], rest);
    assert(after@ =~= rest);
}

/// Neither buffer grows past the size limit: queuing a message and making
/// room for received bytes leave each buffer no larger than the larger of
/// its former size and the limit.
pub proof fn lemma_growth_bounded(
    back: Buffer,
    msg: Seq<u8>,
    ok: bool,
    back_after: Buffer,
    front: Buffer,
    front_after: Buffer,
    max: nat,
)
    requires
        queue_spec(back, msg, max, ok, back_after),
        grow_when_full(front, max, front_after),
    ensures
        back_after.cap() <= if back.cap() < max { max } else { back.cap() },
        front_after.cap() <= if front.cap() < max { max } else { front.cap() },
{
}

/// How a complete message is read: as text exactly when it is valid UTF-8,
/// the text then being the message's bytes decoded, and as "not UTF-8"
/// otherwise.
pub proof fn lemma_frame_read_is_text_iff_utf8(msg: Seq<u8>, r: FrameRead)
    requires
        frame_read_of(msg, r),
    ensures
        r is Text <==> valid_utf8(msg),
        r is NotUtf8 <==> !valid_utf8(msg),
        r matches FrameRead::Text(s) ==> encode_utf8(s@) == msg,
        !(r is Incomplete),
{
}

/// Making room in a full front buffer whose size is below the limit makes
/// it strictly larger, by `FRONT_GROWTH` bytes or up to the limit, keeping
/// its data; any other front buffer is left as it is.
pub proof fn lemma_full_front_grows(before: Buffer, max: nat, after: Buffer)
    requires
        before.wf(),
        grow_when_full(before, max, after),
    ensures
        after@ == before@,
        before.space_spec() == 0 && before.cap() < max ==> {
            &&& after.cap() > before.cap()
            &&& after.cap() <= max
            &&& after.cap() == before.cap() + FRONT_GROWTH || after.cap() == max
            &&& after.cap() == if before.cap() + FRONT_GROWTH <= max {
                before.cap() + FRONT_GROWTH
            } else {
                max as int
            }
            &&& after.space_spec() == after.cap() - before.cap()
        },
        !(before.space_spec() == 0 && before.cap() < max) ==> {
            &&& after.cap() == before.cap()
            &&& after.start_index() == before.start_index()
            &&& after.end_index() == before.end_index()
        },
{
}

/// Queuing a message succeeds exactly when the data, the message and its
/// zero byte fit in the buffer's size or in the limit; the data then ends
/// with the message and a zero byte after it, and is otherwise unchanged.
pub proof fn lemma_queue_contents(before: Buffer, msg: Seq<u8>, max: nat, ok: bool, after: Buffer)
    requires
        queue_spec(before, msg, max, ok, after),
    ensures
        ok <==> (before@.len() + msg.len() + 1 <= before.cap() || before@.len() + msg.len() + 1
            <= max),
        ok ==> {
            &&& after@.len() == before@.len() + msg.len() + 1
            &&& after@.take(before@.len() as int) == before@
            &&& after@.subrange(before@.len() as int, (before@.len() + msg.len()) as int) == msg
            &&& after@[(before@.len() + msg.len()) as int] == 0u8
            &&& after.cap() >= before.cap()
            &&& after.cap() >= after@.len()
        },
        ok ==> after.cap() == if before@.len() + msg.len() + 1 <= before.cap() {
            before.cap()
        } else {
            before@.len() + msg.len() + 1
        },
        ok && before@.len() + msg.len() + 1 > before.cap() ==> after.start_index() == 0
            && after.space_spec() == 0,
        !ok ==> after@ == before@ && after.cap() == before.cap(),
{
    if ok {
        assert(after@.take(before@.len() as int) =~= before@);
        assert(after@.subrange(before@.len() as int, (before@.len() + msg.len()) as int) =~= msg);
    }
}

/// Queuing moves no data needlessly: when the free space after the data
/// is at least the data plus three times the framed message, the data keeps
/// its start and the framed message is written right after it.
pub proof fn lemma_queue_in_place(before: Buffer, msg: Seq<u8>, max: nat, ok: bool, after: Buffer)
    requires
        before.wf(),
        queue_spec(before, msg, max, ok, after),
        before.space_spec() >= before@.len() + 3 * (msg.len() + 1),
    ensures
        ok,
        after.start_index() == before.start_index(),
        after.end_index() == before.end_index() + msg.len() + 1,
        after.cap() == before.cap(),
{
}

/// A bidirectional channel over a unix stream: messages to send are queued
/// in the back buffer, bytes received are gathered in the front buffer, and
/// each message on the wire ends with a zero byte.
pub struct Channel<Tx, Rx> {
    pub sock: UnixStream,
    front_buf: Buffer,
    pub back_buf: Buffer,
    max_buffer_size: usize,
    pub readiness: Ready,
    pub interest: Ready,
    blocking: bool,
    phantom_tx: PhantomData<Tx>,
    phantom_rx: PhantomData<Rx>,
}

impl<Tx, Rx> Channel<Tx, Rx> {
    /// The buffer that gathers received bytes.
    pub closed spec fn front(&self) -> Buffer {
        self.front_buf
    }

    /// The events the channel is ready for.
    pub closed spec fn ready_set(&self) -> Ready {
        self.readiness
    }

    /// The events the channel is interested in.
    pub closed spec fn interest_set(&self) -> Ready {
        self.interest
    }

    /// The stream the channel carries.
    pub closed spec fn stream(&self) -> UnixStream {
        self.sock
    }

    /// The buffer that queues bytes to send.
    pub closed spec fn back(&self) -> Buffer {
        self.back_buf
    }

    /// Size that the buffers may grow to.
    pub closed spec fn max_size(&self) -> nat {
        self.max_buffer_size as nat
    }

    /// Whether the channel is in blocking mode.
    pub closed spec fn is_blocking(&self) -> bool {
        self.blocking
    }

    /// The channel's invariant.
    pub open spec fn wf(&self) -> bool {
        self.front().wf() && self.back().wf()
    }

    /// `after` has the stream, the size limit and the mode of `self`.
    pub open spec fn same_setup(&self, after: &Self) -> bool {
        &&& after.stream() == self.stream()
        &&& after.max_size() == self.max_size()
        &&& after.is_blocking() == self.is_blocking()
    }

    /// `after` differs from `self` in the flags at most.
    pub open spec fn same_but_flags(&self, after: &Self) -> bool {
        &&& self.same_setup(after)
        &&& after.front() == self.front()
        &&& after.back() == self.back()
    }

    /// A channel over `sock` with empty buffers of `buffer_size` bytes that
    /// may grow to `max_buffer_size`, interested in reading, in nonblocking
    /// mode.
    pub fn new(sock: UnixStream, buffer_size: usize, max_buffer_size: usize) -> (c: Self)
        ensures
            c.wf(),
            c.stream() == sock,
            c.front()@ == Seq::<u8>::empty(),
            c.front().cap() == buffer_size,
            c.front().start_index() == 0,
            c.front().end_index() == 0,
            c.back()@ == Seq::<u8>::empty(),
            c.back().cap() == buffer_size,
            c.back().start_index() == 0,
            c.back().end_index() == 0,
            c.max_size() == max_buffer_size,
            c.ready_set().0 == 0,
            c.interest_set().0 == READABLE,
            !c.is_blocking(),
    {
        Channel {
            sock,
            front_buf: Buffer::with_capacity(buffer_size),
            back_buf: Buffer::with_capacity(buffer_size),
            max_buffer_size,
            readiness: Ready::empty(),
            interest: Ready::readable(),
            blocking: false,
            phantom_tx: PhantomData,
            phantom_rx: PhantomData,
        }
    }

    /// The same channel, carrying other message types.
    pub fn into<Tx2, Rx2>(self) -> (c: Channel<Tx2, Rx2>)
        ensures
            c.stream() == self.stream(),
            c.front() == self.front(),
            c.back() == self.back(),
            c.max_size() == self.max_size(),
            c.ready_set() == self.ready_set(),
            c.interest_set() == self.interest_set(),
            c.is_blocking() == self.is_blocking(),
    {
        Channel {
            sock: self.sock,
            front_buf: self.front_buf,
            back_buf: self.back_buf,
            max_buffer_size: self.max_buffer_size,
            readiness: self.readiness,
            interest: self.interest,
            blocking: self.blocking,
            phantom_tx: PhantomData,
            phantom_rx: PhantomData,
        }
    }

    /// Records whether the channel is in blocking mode; the caller sets the
    /// stream's own mode.
    pub fn set_blocking_flag(&mut self, blocking: bool)
        ensures
            final(self).is_blocking() == blocking,
            final(self).stream() == old(self).stream(),
            final(self).max_size() == old(self).max_size(),
            final(self).front() == old(self).front(),
            final(self).back() == old(self).back(),
            final(self).ready_set() == old(self).ready_set(),
            final(self).interest_set() == old(self).interest_set(),
    {
        self.blocking = blocking;
    }

    /// Whether the channel is in blocking mode.
    pub fn blocking(&self) -> (b: bool)
        ensures
            b == self.is_blocking(),
    {
        self.blocking
    }

    /// Size that the buffers may grow to.
    pub fn max_buffer_size(&self) -> (n: usize)
        ensures
            n == self.max_size(),
    {
        self.max_buffer_size
    }

    /// The bytes received and not yet read as messages.
    pub fn front_data(&self) -> (d: &[u8])
        requires
            self.wf(),
        ensures
            d@ == self.front()@,
    {
        self.front_buf.data()
    }

    /// Number of free bytes after the received data, which is as much as
    /// the next read may bring.
    pub fn front_space(&self) -> (n: usize)
        requires
            self.wf(),
        ensures
            n == self.front().space_spec(),
    {
        self.front_buf.available_space()
    }

    /// Adds the events to the readiness.
    pub fn handle_events(&mut self, events: Ready)
        ensures
            final(self).ready_set().0 == old(self).ready_set().0 | events.0,
            final(self).interest_set() == old(self).interest_set(),
            old(self).same_but_flags(&*final(self)),
    {
        self.readiness.insert(events);
    }

    /// The events that the channel is both ready for and interested in.
    pub fn readiness(&self) -> (r: Ready)
        ensures
            r.0 == self.ready_set().0 & self.interest_set().0,
    {
        self.readiness.intersection(self.interest)
    }

    /// Starts reading from the stream into the front buffer: fails with
    /// `Continue` when the channel is not both ready and interested to read;
    /// otherwise asks for a read, or finishes when the buffer is full and
    /// then drops the interest in reading.
    pub fn readable_begin(&mut self) -> (step: Transfer)
        requires
            old(self).wf(),
        ensures
            final(self).wf(),
            !Ready(old(self).interest_set().0 & old(self).ready_set().0).has(READABLE) ==> {
                &&& step == Transfer::Finished(Err(ConnError::Continue))
                &&& *final(self) == *old(self)
            },
            Ready(old(self).interest_set().0 & old(self).ready_set().0).has(READABLE) ==> {
                &&& old(self).same_but_flags(&*final(self))
                &&& final(self).ready_set() == old(self).ready_set()
                &&& if old(self).front().space_spec() == 0 {
                    &&& step == Transfer::Finished(Ok(0))
                    &&& final(self).interest_set().0 == old(self).interest_set().0 & !READABLE
                } else {
                    &&& step == Transfer::Again(0)
                    &&& final(self).interest_set() == old(self).interest_set()
                }
            },
    {
        if !self.interest.intersection(self.readiness).is_readable() {
            return Transfer::Finished(Err(ConnError::Continue));
        }
        self.read_head(0)
    }

    /// Decides what follows a read into the front buffer.
    fn read_head(&mut self, count: usize) -> (step: Transfer)
        requires
            old(self).wf(),
        ensures
            final(self).wf(),
            old(self).same_but_flags(&*final(self)),
            final(self).ready_set() == old(self).ready_set(),
            if old(self).front().space_spec() == 0 {
                &&& step == Transfer::Finished(Ok(count))
                &&& final(self).interest_set().0 == old(self).interest_set().0 & !READABLE
            } else {
                &&& step == Transfer::Again(count)
                &&& final(self).interest_set() == old(self).interest_set()
            },
    {
        if self.front_buf.available_space() == 0 {
            self.interest.remove(Ready::readable());
            return Transfer::Finished(Ok(count));
        }
        Transfer::Again(count)
    }

    /// Takes in the outcome of a read, `count` bytes having been read
    /// before it: bytes read are appended to the front buffer and reading
    /// goes on while there is room; a closed stream drops all interest and
    /// the readable flag and raises the hang-up flag; a read that would
    /// block drops the readable flag; any other failure clears all flags.
    pub fn readable_next(&mut self, count: usize, outcome: ReadOutcome) -> (step: Transfer)
        requires
            old(self).wf(),
            outcome matches ReadOutcome::Bytes(b) ==> b@.len() <= old(self).front().space_spec()
                && count + b@.len() <= usize::MAX,
        ensures
            final(self).wf(),
            old(self).same_setup(&*final(self)),
            final(self).back() == old(self).back(),
            (match outcome {
                ReadOutcome::Bytes(b) => if b@.len() == 0 {
                    &&& step == Transfer::Finished(Err(ConnError::SocketError))
                    &&& final(self).front() == old(self).front()
                    &&& final(self).interest_set().0 == 0
                    &&& final(self).ready_set().0 == (old(self).ready_set().0 & !READABLE) | HUP
                } else {
                    &&& old(self).front().write_spec(b@, b@.len(), final(self).front())
                    &&& final(self).front()@ == old(self).front()@ + b@
                    &&& final(self).front().cap() == old(self).front().cap()
                    &&& final(self).ready_set() == old(self).ready_set()
                    &&& if final(self).front().space_spec() == 0 {
                        &&& step == Transfer::Finished(Ok((count + b@.len()) as usize))
                        &&& final(self).interest_set().0 == old(self).interest_set().0 & !READABLE
                    } else {
                        &&& step == Transfer::Again((count + b@.len()) as usize)
                        &&& final(self).interest_set() == old(self).interest_set()
                    }
                },
                ReadOutcome::WouldBlock => {
                    &&& step == Transfer::Finished(Ok(count))
                    &&& final(self).front() == old(self).front()
                    &&& final(self).interest_set() == old(self).interest_set()
                    &&& final(self).ready_set().0 == old(self).ready_set().0 & !READABLE
                },
                ReadOutcome::Failed => {
                    &&& step == Transfer::Finished(Err(ConnError::SocketError))
                    &&& final(self).front() == old(self).front()
                    &&& final(self).interest_set().0 == 0
                    &&& final(self).ready_set().0 == 0
                },
            }),
    {
        match outcome {
            ReadOutcome::Bytes(b) => {
                if b.len() == 0 {
                    self.interest = Ready::empty();
                    self.readiness.remove(Ready::readable());
                    self.readiness.insert(Ready::hup());
                    Transfer::Finished(Err(ConnError::SocketError))
                } else {
                    let n = self.front_buf.write(b.as_slice());
                    self.read_head(count + n)
                }
            },
            ReadOutcome::WouldBlock => {
                self.readiness.remove(Ready::readable());
                Transfer::Finished(Ok(count))
            },
            ReadOutcome::Failed => {
                self.interest = Ready::empty();
                self.readiness = Ready::empty();
                Transfer::Finished(Err(ConnError::SocketError))
            },
        }
    }

    /// Starts writing the back buffer's data to the stream: fails with
    /// `Continue` when the channel is not both ready and interested to
    /// write; otherwise asks for a write, or finishes when there is nothing
    /// to write and then drops the interest in writing.
    pub fn writable_begin(&mut self) -> (step: Transfer)
        requires
            old(self).wf(),
        ensures
            final(self).wf(),
            !Ready(old(self).interest_set().0 & old(self).ready_set().0).has(WRITABLE) ==> {
                &&& step == Transfer::Finished(Err(ConnError::Continue))
                &&& *final(self) == *old(self)
            },
            Ready(old(self).interest_set().0 & old(self).ready_set().0).has(WRITABLE) ==> {
                &&& old(self).same_but_flags(&*final(self))
                &&& final(self).ready_set() == old(self).ready_set()
                &&& if old(self).back()@.len() == 0 {
                    &&& step == Transfer::Finished(Ok(0))
                    &&& final(self).interest_set().0 == old(self).interest_set().0 & !WRITABLE
                } else {
                    &&& step == Transfer::Again(0)
                    &&& final(self).interest_set() == old(self).interest_set()
                }
            },
    {
        if !self.interest.intersection(self.readiness).is_writable() {
            return Transfer::Finished(Err(ConnError::Continue));
        }
        self.write_head(0)
    }

    /// Decides what follows a write from the back buffer.
    fn write_head(&mut self, count: usize) -> (step: Transfer)
        requires
            old(self).wf(),
        ensures
            final(self).wf(),
            old(self).same_but_flags(&*final(self)),
            final(self).ready_set() == old(self).ready_set(),
            if old(self).back()@.len() == 0 {
                &&& step == Transfer::Finished(Ok(count))
                &&& final(self).interest_set().0 == old(self).interest_set().0 & !WRITABLE
            } else {
                &&& step == Transfer::Again(count)
                &&& final(self).interest_set() == old(self).interest_set()
            },
    {
        if self.back_buf.available_data() == 0 {
            self.interest.remove(Ready::writable());
            return Transfer::Finished(Ok(count));
        }
        Transfer::Again(count)
    }

    /// Takes in the outcome of a write of the back buffer's data, `count`
    /// bytes having been written before it: bytes written leave the back
    /// buffer and writing goes on while data is left; a write of no byte
    /// drops all interest and raises the hang-up flag; a write that would
    /// block drops the writable flag; any other failure clears all flags.
    pub fn writable_next(&mut self, count: usize, outcome: WriteOutcome) -> (step: Transfer)
        requires
            old(self).wf(),
            outcome matches WriteOutcome::Wrote(n) ==> n <= old(self).back()@.len() && count + n
                <= usize::MAX,
        ensures
            final(self).wf(),
            old(self).same_setup(&*final(self)),
            final(self).front() == old(self).front(),
            (match outcome {
                WriteOutcome::Wrote(n) => if n == 0 {
                    &&& step == Transfer::Finished(Err(ConnError::SocketError))
                    &&& final(self).back() == old(self).back()
                    &&& final(self).interest_set().0 == 0
                    &&& final(self).ready_set().0 == old(self).ready_set().0 | HUP
                } else {
                    &&& old(self).back().consume_spec(n as nat, n as nat, final(self).back())
                    &&& final(self).back()@ == old(self).back()@.skip(n as int)
                    &&& final(self).back().cap() == old(self).back().cap()
                    &&& final(self).ready_set() == old(self).ready_set()
                    &&& if final(self).back()@.len() == 0 {
                        &&& step == Transfer::Finished(Ok((count + n) as usize))
                        &&& final(self).interest_set().0 == old(self).interest_set().0 & !WRITABLE
                    } else {
                        &&& step == Transfer::Again((count + n) as usize)
                        &&& final(self).interest_set() == old(self).interest_set()
                    }
                },
                WriteOutcome::WouldBlock => {
                    &&& step == Transfer::Finished(Ok(count))
                    &&& final(self).back() == old(self).back()
                    &&& final(self).interest_set() == old(self).interest_set()
                    &&& final(self).ready_set().0 == old(self).ready_set().0 & !WRITABLE
                },
                WriteOutcome::Failed => {
                    &&& step == Transfer::Finished(Err(ConnError::SocketError))
                    &&& final(self).back() == old(self).back()
                    &&& final(self).interest_set().0 == 0
                    &&& final(self).ready_set().0 == 0
                },
            }),
    {
        match outcome {
            WriteOutcome::Wrote(n) => {
                if n == 0 {
                    self.interest = Ready::empty();
                    self.readiness.insert(Ready::hup());
                    Transfer::Finished(Err(ConnError::SocketError))
                } else {
                    let c = self.back_buf.consume(n);
                    self.write_head(count + c)
                }
            },
            WriteOutcome::WouldBlock => {
                self.readiness.remove(Ready::writable());
                Transfer::Finished(Ok(count))
            },
            WriteOutcome::Failed => {
                self.interest = Ready::empty();
                self.readiness = Ready::empty();
                Transfer::Finished(Err(ConnError::SocketError))
            },
        }
    }

    /// Takes the first complete message out of the front buffer, with its
    /// zero byte, and reads it as text.
    fn take_frame(&mut self, pos: usize) -> (r: FrameRead)
        requires
            old(self).wf(),
            crate::framing::first_zero_at(old(self).front()@, pos as int),
        ensures
            final(self).wf(),
            old(self).same_setup(&*final(self)),
            final(self).back() == old(self).back(),
            final(self).ready_set() == old(self).ready_set(),
            final(self).interest_set() == old(self).interest_set(),
            old(self).front().consume_spec((pos + 1) as nat, (pos + 1) as nat, final(self).front()),
            frame_read_of(old(self).front()@.take(pos as int), r),
            final(self).front()@ == old(self).front()@.skip(pos + 1),
            valid_utf8(old(self).front()@.take(pos as int)) ==> (r matches FrameRead::Text(s)
                && encode_utf8(s@) == old(self).front()@.take(pos as int)),
            !valid_utf8(old(self).front()@.take(pos as int)) ==> r is NotUtf8,
    {
        let (text, next) = {
            let data = self.front_buf.data();
            assert(pos < data.len());
            let msg = &data[0..pos];
            assert(msg@ == old(self).front()@.take(pos as int));
            (utf8_string(msg), pos + 1)
        };
        self.front_buf.consume(next);
        match text {
            Some(s) => FrameRead::Text(s),
            None => FrameRead::NotUtf8,
        }
    }

    /// Makes room in a full front buffer by growing it by `FRONT_GROWTH`
    /// bytes, up to the size limit.
    fn grow_front(&mut self)
        requires
            old(self).wf(),
        ensures
            final(self).wf(),
            old(self).same_setup(&*final(self)),
            final(self).back() == old(self).back(),
            final(self).ready_set() == old(self).ready_set(),
            final(self).interest_set() == old(self).interest_set(),
            grow_when_full(old(self).front(), old(self).max_size(), final(self).front()),
            final(self).front()@ == old(self).front()@,
            old(self).front().space_spec() == 0 && old(self).front().cap() < old(self).max_size()
                ==> final(self).front().cap() == if old(self).front().cap() + FRONT_GROWTH
                <= old(self).max_size() {
                old(self).front().cap() + FRONT_GROWTH
            } else {
                old(self).max_size() as int
            },
            !(old(self).front().space_spec() == 0 && old(self).front().cap() < old(self).max_size())
                ==> final(self).front().cap() == old(self).front().cap()
                && final(self).front().end_index() == old(self).front().end_index(),
    {
        if self.front_buf.available_space() == 0 {
            let cap = self.front_buf.capacity();
            let max = self.max_buffer_size;
            if cap != max {
                let target = if cap < max && max - cap >= FRONT_GROWTH {
                    cap + FRONT_GROWTH
                } else {
                    max
                };
                self.front_buf.grow(target);
            }
        }
    }

    /// Reads a message in nonblocking mode: takes the first complete
    /// message from the front buffer; when there is none, grows a full front
    /// buffer and asks to read.
    pub fn read_message_nonblocking(&mut self) -> (r: FrameRead)
        requires
            old(self).wf(),
        ensures
            final(self).wf(),
            old(self).same_setup(&*final(self)),
            final(self).back() == old(self).back(),
            final(self).ready_set() == old(self).ready_set(),
            (match next_frame(old(self).front()@) {
                Some((msg, rest)) => {
                    &&& frame_read_of(msg, r)
                    &&& (valid_utf8(msg) ==> (r matches FrameRead::Text(s) && encode_utf8(s@)
                        == msg))
                    &&& (!valid_utf8(msg) ==> r is NotUtf8)
                    &&& final(self).front()@ == rest
                    &&& old(self).front().consume_spec(
                        msg.len() + 1,
                        msg.len() + 1,
                        final(self).front(),
                    )
                    &&& final(self).interest_set() == old(self).interest_set()
                },
                None => {
                    &&& r is Incomplete
                    &&& grow_when_full(old(self).front(), old(self).max_size(), final(self).front())
                    &&& final(self).front()@ == old(self).front()@
                    &&& old(self).front().space_spec() == 0 && old(self).front().cap()
                        < old(self).max_size() ==> final(self).front().cap() == if old(
                        self,
                    ).front().cap() + FRONT_GROWTH <= old(self).max_size() {
                        old(self).front().cap() + FRONT_GROWTH
                    } else {
                        old(self).max_size() as int
                    }
                    &&& !(old(self).front().space_spec() == 0 && old(self).front().cap()
                        < old(self).max_size()) ==> final(self).front().cap() == old(
                        self,
                    ).front().cap() && final(self).front().end_index() == old(self).front().end_index()
                    &&& final(self).interest_set().0 == old(self).interest_set().0 | READABLE
                },
            }),
    {
        let found = find_zero(self.front_buf.data());
        match found {
            Some(pos) => {
                proof {
                    crate::framing::lemma_next_frame_at(self.front()@, pos as int);
                }
                self.take_frame(pos)
            },
            None => {
                proof {
                    crate::framing::lemma_no_frame_without_zero(self.front()@);
                }
                self.grow_front();
                self.interest.insert(Ready::readable());
                FrameRead::Incomplete
            },
        }
    }

    /// One step of reading a message in blocking mode: takes the first
    /// complete message from the front buffer; when there is none, gives up
    /// if the front buffer is full at the size limit, and otherwise grows a
    /// full front buffer and asks to read as many bytes as it has room for.
    pub fn read_message_blocking_step(&mut self) -> (r: BlockingRead)
        requires
            old(self).wf(),
        ensures
            final(self).wf(),
            old(self).same_setup(&*final(self)),
            final(self).back() == old(self).back(),
            final(self).ready_set() == old(self).ready_set(),
            final(self).interest_set() == old(self).interest_set(),
            (match next_frame(old(self).front()@) {
                Some((msg, rest)) => {
                    &&& r matches BlockingRead::Frame(f) && frame_read_of(msg, f)
                    &&& (valid_utf8(msg) ==> (r matches BlockingRead::Frame(FrameRead::Text(s))
                        && encode_utf8(s@) == msg))
                    &&& (!valid_utf8(msg) ==> (r matches BlockingRead::Frame(FrameRead::NotUtf8)))
                    &&& final(self).front()@ == rest
                    &&& old(self).front().consume_spec(
                        msg.len() + 1,
                        msg.len() + 1,
                        final(self).front(),
                    )
                },
                None => if old(self).front().space_spec() == 0 && old(self).front().cap()
                    == old(self).max_size() {
                    &&& r is Stop
                    &&& final(self).front() == old(self).front()
                } else {
                    &&& grow_when_full(old(self).front(), old(self).max_size(), final(self).front())
                    &&& r == BlockingRead::Read(final(self).front().space_spec() as usize)
                    &&& final(self).front()@ == old(self).front()@
                    &&& old(self).front().space_spec() == 0 && old(self).front().cap()
                        < old(self).max_size() ==> {
                        &&& final(self).front().cap() == if old(self).front().cap() + FRONT_GROWTH
                            <= old(self).max_size() {
                            old(self).front().cap() + FRONT_GROWTH
                        } else {
                            old(self).max_size() as int
                        }
                        &&& final(self).front().space_spec() > 0
                    }
                    &&& old(self).front().space_spec() > 0 ==> final(self).front() == old(
                        self,
                    ).front()
                },
            }),
    {
        let found = find_zero(self.front_buf.data());
        match found {
            Some(pos) => {
                proof {
                    crate::framing::lemma_next_frame_at(self.front()@, pos as int);
                }
                BlockingRead::Frame(self.take_frame(pos))
            },
            None => {
                proof {
                    crate::framing::lemma_no_frame_without_zero(self.front()@);
                }
                if self.front_buf.available_space() == 0 && self.front_buf.capacity()
                    == self.max_buffer_size {
                    return BlockingRead::Stop;
                }
                self.grow_front();
                BlockingRead::Read(self.front_buf.available_space())
            },
        }
    }

    /// Takes in the outcome of a blocking read and tells whether to go on
    /// reading: bytes read are appended to the front buffer; a closed
    /// stream or a failed read ends the reading.
    pub fn read_message_blocking_received(&mut self, outcome: ReadOutcome) -> (go_on: bool)
        requires
            old(self).wf(),
            outcome matches ReadOutcome::Bytes(b) ==> b@.len() <= old(self).front().space_spec(),
        ensures
            final(self).wf(),
            old(self).same_setup(&*final(self)),
            final(self).back() == old(self).back(),
            final(self).ready_set() == old(self).ready_set(),
            final(self).interest_set() == old(self).interest_set(),
            (match outcome {
                ReadOutcome::Bytes(b) => if b@.len() == 0 {
                    !go_on && final(self).front() == old(self).front()
                } else {
                    &&& go_on
                    &&& old(self).front().write_spec(b@, b@.len(), final(self).front())
                    &&& final(self).front()@ == old(self).front()@ + b@
                    &&& final(self).front().cap() == old(self).front().cap()
                },
                _ => !go_on && final(self).front() == old(self).front(),
            }),
    {
        match outcome {
            ReadOutcome::Bytes(b) => {
                if b.len() == 0 {
                    false
                } else {
                    self.front_buf.write(b.as_slice());
                    true
                }
            },
            _ => false,
        }
    }

    /// Queues `message` and a zero byte after it in the back buffer, moving
    /// the data to the start of memory when the framed message does not fit
    /// after it, and growing the buffer as needed up to the size limit;
    /// tells whether the message was queued.
    fn queue_message(&mut self, message: &[u8]) -> (ok: bool)
        requires
            old(self).wf(),
            message@.len() < usize::MAX,
        ensures
            final(self).wf(),
            old(self).same_setup(&*final(self)),
            final(self).front() == old(self).front(),
            final(self).ready_set() == old(self).ready_set(),
            final(self).interest_set() == old(self).interest_set(),
            queue_spec(old(self).back(), message@, old(self).max_size(), ok, final(self).back()),
            ok == (old(self).back()@.len() + message@.len() + 1 <= old(self).back().cap()
                || old(self).back()@.len() + message@.len() + 1 <= old(self).max_size()),
            ok ==> final(self).back()@ == old(self).back()@ + message@.push(0u8),
            ok ==> final(self).back().cap() == if old(self).back()@.len() + message@.len() + 1
                <= old(self).back().cap() {
                old(self).back().cap()
            } else {
                old(self).back()@.len() + message@.len() + 1
            },
            !ok ==> final(self).back()@ == old(self).back()@,
            !ok ==> final(self).back().cap() == old(self).back().cap(),
    {
        let msg_len = message.len() + 1;
        if msg_len > self.back_buf.available_space() {
            self.back_buf.shift();
        }
        let ghost b1 = self.back_buf;
        if msg_len > self.back_buf.available_space() {
            let space = self.back_buf.available_space();
            let cap = self.back_buf.capacity();
            let max = self.max_buffer_size;
            if cap > max || msg_len - space > max - cap {
                return false;
            }
            let new_len = msg_len - space + cap;
            self.back_buf.grow(new_len);
        }
        let ghost b2 = self.back_buf;
        let written = self.back_buf.write(message);
        assert(written == message@.len());
        let ghost b3 = self.back_buf;
        let zero: Vec<u8> = vec![0u8];
        let z = self.back_buf.write(zero.as_slice());
        assert(z == 1);
        proof {
            assert(message@.subrange(0, written as int) =~= message@);
            assert(zero@.subrange(0, 1) =~= seq![0u8]);
            assert(self.back_buf@ =~= old(self).back()@ + encode_frame(message@));
        }
        true
    }

    /// Queues a message to send in nonblocking mode: its bytes and a zero
    /// byte go to the back buffer, and the channel becomes interested in
    /// writing; tells whether the message was queued.
    pub fn write_message_nonblocking(&mut self, message: &[u8]) -> (ok: bool)
        requires
            old(self).wf(),
            message@.len() < usize::MAX,
        ensures
            final(self).wf(),
            old(self).same_setup(&*final(self)),
            final(self).front() == old(self).front(),
            final(self).ready_set() == old(self).ready_set(),
            queue_spec(old(self).back(), message@, old(self).max_size(), ok, final(self).back()),
            ok == (old(self).back()@.len() + message@.len() + 1 <= old(self).back().cap()
                || old(self).back()@.len() + message@.len() + 1 <= old(self).max_size()),
            ok ==> final(self).back()@ == old(self).back()@ + message@.push(0u8),
            ok ==> final(self).back().cap() == if old(self).back()@.len() + message@.len() + 1
                <= old(self).back().cap() {
                old(self).back().cap()
            } else {
                old(self).back()@.len() + message@.len() + 1
            },
            !ok ==> final(self).back()@ == old(self).back()@,
            !ok ==> final(self).back().cap() == old(self).back().cap(),
            ok ==> final(self).interest_set().0 == old(self).interest_set().0 | WRITABLE,
            !ok ==> final(self).interest_set() == old(self).interest_set(),
    {
        if !self.queue_message(message) {
            return false;
        }
        self.interest.insert(Ready::writable());
        true
    }

    /// Starts sending a message in blocking mode: its bytes and a zero byte
    /// go to the back buffer, then the back buffer's data is to be written;
    /// done and failed when the message cannot be queued.
    pub fn write_message_blocking(&mut self, message: &[u8]) -> (step: BlockingWrite)
        requires
            old(self).wf(),
            message@.len() < usize::MAX,
        ensures
            final(self).wf(),
            old(self).same_setup(&*final(self)),
            final(self).front() == old(self).front(),
            final(self).ready_set() == old(self).ready_set(),
            final(self).interest_set() == old(self).interest_set(),
            ({
                let ok = old(self).back()@.len() + message@.len() + 1 <= old(self).back().cap()
                    || old(self).back()@.len() + message@.len() + 1 <= old(self).max_size();
                &&& queue_spec(old(self).back(), message@, old(self).max_size(), ok, final(self).back())
                &&& ok ==> final(self).back()@ == old(self).back()@ + message@.push(0u8)
                &&& !ok ==> final(self).back()@ == old(self).back()@
                &&& step == if ok { BlockingWrite::Write } else { BlockingWrite::Done(false) }
            }),
    {
        if !self.queue_message(message) {
            return BlockingWrite::Done(false);
        }
        self.blocking_write_head()
    }

    /// Decides what follows a blocking write.
    fn blocking_write_head(&self) -> (step: BlockingWrite)
        requires
            self.wf(),
        ensures
            step == if self.back()@.len() == 0 { BlockingWrite::Done(true) } else { BlockingWrite::Write },
    {
        if self.back_buf.available_data() == 0 {
            BlockingWrite::Done(true)
        } else {
            BlockingWrite::Write
        }
    }

    /// Takes in the outcome of a blocking write of the back buffer's data:
    /// bytes written leave the back buffer and writing goes on while data
    /// is left, after which the message counts as sent; a write of no byte
    /// fails; any other outcome ends the sending, counted as sent.
    pub fn write_message_blocking_next(&mut self, outcome: WriteOutcome) -> (step: BlockingWrite)
        requires
            old(self).wf(),
            outcome matches WriteOutcome::Wrote(n) ==> n <= old(self).back()@.len(),
        ensures
            final(self).wf(),
            old(self).same_setup(&*final(self)),
            final(self).front() == old(self).front(),
            final(self).ready_set() == old(self).ready_set(),
            final(self).interest_set() == old(self).interest_set(),
            (match outcome {
                WriteOutcome::Wrote(n) => if n == 0 {
                    step == BlockingWrite::Done(false) && final(self).back() == old(self).back()
                } else {
                    &&& old(self).back().consume_spec(n as nat, n as nat, final(self).back())
                    &&& final(self).back()@ == old(self).back()@.skip(n as int)
                    &&& final(self).back().cap() == old(self).back().cap()
                    &&& step == if final(self).back()@.len() == 0 {
                        BlockingWrite::Done(true)
                    } else {
                        BlockingWrite::Write
                    }
                },
                _ => step == BlockingWrite::Done(true) && final(self).back() == old(self).back(),
            }),
    {
        match outcome {
            WriteOutcome::Wrote(n) => {
                if n == 0 {
                    BlockingWrite::Done(false)
                } else {
                    self.back_buf.consume(n);
                    self.blocking_write_head()
                }
            },
            _ => BlockingWrite::Done(true),
        }
    }
}

} // verus!
