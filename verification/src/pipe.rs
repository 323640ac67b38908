//! A byte pipe between two endpoints.
//!
//! An endpoint sends whole chunks down a channel and receives the chunks of
//! the other side. What it has received and not yet handed out waits in its
//! buffer, and is handed out first and in order.
use crate::errors::Errno;
use bytes::Buf;
use bytes::Bytes;
use std::sync::mpsc::Receiver;
use std::sync::mpsc::Sender;
use std::sync::mpsc::TryRecvError;
use vstd::prelude::*;

verus! {

/// The sending half of a channel of `std::sync::mpsc`, of which nothing is
/// known but that it is one.
#[verifier::external_type_specification]
#[verifier::external_body]
#[verifier::reject_recursive_types(T)]
pub struct ExSender<T>(Sender<T>);

/// The receiving half of a channel of `std::sync::mpsc`, of which nothing
/// is known but that it is one.
#[verifier::external_type_specification]
#[verifier::external_body]
#[verifier::reject_recursive_types(T)]
pub struct ExReceiver<T>(Receiver<T>);

/// `bytes::Bytes`, known by the bytes it holds.
#[verifier::external_type_specification]
#[verifier::external_body]
pub struct ExBytes(Bytes);

/// The bytes that a `Bytes` holds, from its start to its end.
pub uninterp spec fn bytes_content(b: Bytes) -> Seq<u8>;

/// What a look into the channel found.
#[derive(Debug)]
pub enum Received {
    /// A chunk.
    Data(Vec<u8>),
    /// Nothing yet.
    Empty,
    /// Nothing, and the sending side is gone.
    Disconnected,
}

/// `Bytes::from` on a vector: the result holds the vector's bytes.
#[verifier::external_body]
fn bytes_from_vec(v: Vec<u8>) -> (b: Bytes)
    ensures
        bytes_content(b) == v@,
{
    Bytes::from(v)
}

/// `Bytes::len`: the number of bytes held.
#[verifier::external_body]
fn bytes_len(b: &Bytes) -> (n: usize)
    ensures
        n == bytes_content(*b).len(),
{
    b.len()
}

/// `Bytes::as_ref`: the bytes held, as a slice.
#[verifier::external_body]
fn bytes_as_slice(b: &Bytes) -> (s: &[u8])
    ensures
        s@ == bytes_content(*b),
{
    b.as_ref()
}

/// `Buf::advance` on a `Bytes`: drops the first `cnt` bytes. It panics when
/// fewer are held, which the precondition rules out.
#[verifier::external_body]
fn bytes_advance(b: &mut Bytes, cnt: usize)
    requires
        cnt <= bytes_content(*old(b)).len(),
    ensures
        bytes_content(*final(b)) == bytes_content(*old(b)).subrange(
            cnt as int,
            bytes_content(*old(b)).len() as int,
        ),
{
    b.advance(cnt)
}

/// `std::sync::mpsc::channel`: a new channel. Nothing is claimed of it.
#[verifier::external_body]
fn chan_new() -> (r: (Sender<Vec<u8>>, Receiver<Vec<u8>>)) {
    std::sync::mpsc::channel()
}

/// `Sender::send`: whether the chunk was taken. Nothing is claimed of the
/// answer.
#[verifier::external_body]
fn chan_send(tx: &Sender<Vec<u8>>, data: Vec<u8>) -> (sent: bool) {
    tx.send(data).is_ok()
}

/// `Receiver::try_recv`: what the channel holds right now. Nothing is
/// claimed of the answer.
#[verifier::external_body]
fn chan_try_recv(rx: &Receiver<Vec<u8>>) -> (r: Received) {
    match rx.try_recv() {
        Ok(data) => Received::Data(data),
        Err(TryRecvError::Empty) => Received::Empty,
        Err(TryRecvError::Disconnected) => Received::Disconnected,
    }
}

/// `Receiver::recv`: waits for a chunk; none when the sending side is gone.
/// Nothing is claimed of the answer.
#[verifier::external_body]
fn chan_recv(rx: &Receiver<Vec<u8>>) -> (r: Option<Vec<u8>>) {
    rx.recv().ok()
}

/// One endpoint of a pipe.
#[derive(Debug)]
pub struct WasiPipe {
    /// Sends chunks down the pipe.
    tx: Sender<Vec<u8>>,
    /// Receives chunks from the pipe.
    rx: Receiver<Vec<u8>>,
    /// What was received and is not handed out yet.
    read_buffer: Option<Bytes>,
    /// Whether a read waits for a chunk when none is there.
    block: bool,
    /// Whether the endpoint was cut off.
    closed: bool,
}

/// An endpoint as a plain value: the bytes that wait in its buffer,
/// whether reads block, and whether the endpoint was cut off.
pub struct PipeView {
    pub buffer: Seq<u8>,
    pub block: bool,
    pub closed: bool,
}

/// How many bytes a buffer of `room` bytes takes of `content`.
pub open spec fn drain_len(content: Seq<u8>, room: nat) -> nat {
    if content.len() < room {
        content.len()
    } else {
        room
    }
}

/// A caller's buffer after `n` bytes of `content` were put at its start.
pub open spec fn filled(content: Seq<u8>, n: int, buf: Seq<u8>) -> Seq<u8> {
    content.subrange(0, n) + buf.subrange(n, buf.len() as int)
}

/// The time that a timed receive has spent waiting, in milliseconds, and
/// the number of waits so far.
#[derive(Clone, Copy, Debug, PartialEq, Eq, Structural)]
pub struct RecvTimer {
    pub elapsed_ms: u64,
    pub tick_wait: u64,
}

/// What a timed receive does next.
#[derive(Clone, Copy, Debug, PartialEq, Eq)]
pub enum RecvStep {
    /// It is over, with this result.
    Done(Result<usize, Errno>),
    /// Wait this many milliseconds, then go on.
    Park(u64),
    /// Go on at once.
    Retry,
}

/// The wait before the next look, in milliseconds: a tenth of the number of
/// waits so far, and 20 at most.
pub open spec fn park_millis(tick_wait: u64) -> u64 {
    if tick_wait / 10 < 20 {
        tick_wait / 10
    } else {
        20
    }
}

/// The sum of two times, which stays at the largest value once it is
/// reached.
pub open spec fn add_millis(a: u64, b: u64) -> u64 {
    if a + b > u64::MAX {
        u64::MAX
    } else {
        (a + b) as u64
    }
}

/// The chunks of a list, one after the other.
pub open spec fn concat_chunks(chunks: Seq<Seq<u8>>) -> Seq<u8>
    decreases chunks.len(),
{
    if chunks.len() == 0 {
        Seq::empty()
    } else {
        concat_chunks(chunks.drop_last()) + chunks.last()
    }
}

/// What a look into the channel found, as a plain value.
pub enum ReceivedView {
    Data(Seq<u8>),
    Empty,
    Disconnected,
}

impl Received {
    pub open spec fn view(&self) -> ReceivedView {
        match *self {
            Received::Data(d) => ReceivedView::Data(d@),
            Received::Empty => ReceivedView::Empty,
            Received::Disconnected => ReceivedView::Disconnected,
        }
    }
}

/// How a read ended: the number of bytes handed out, the caller's buffer,
/// and the endpoint.
pub struct ReadOutcome {
    pub n: usize,
    pub buf: Seq<u8>,
    pub pipe: PipeView,
}

/// How a read from the buffer ends: as many bytes as the buffer holds and
/// the caller's buffer takes go to the start of the caller's buffer, and
/// leave the endpoint's.
pub open spec fn drain_outcome(pipe: PipeView, buf: Seq<u8>) -> ReadOutcome {
    let n = drain_len(pipe.buffer, buf.len());
    ReadOutcome {
        n: n as usize,
        buf: filled(pipe.buffer, n as int, buf),
        pipe: PipeView { buffer: pipe.buffer.subrange(n as int, pipe.buffer.len() as int), ..pipe },
    }
}

/// How a read ends whose buffer was empty, given what was received: the
/// chunk goes into the buffer and is read from there; no chunk, nothing.
pub open spec fn received_outcome(pipe: PipeView, received: Option<Seq<u8>>, buf: Seq<u8>) -> ReadOutcome {
    match received {
        Some(data) => drain_outcome(PipeView { buffer: data, ..pipe }, buf),
        None => ReadOutcome { n: 0, buf, pipe },
    }
}

/// How one step of a timed receive ended: what to do next, the caller's
/// buffer, the endpoint, and the timer.
pub struct RecvOutcome {
    pub step: RecvStep,
    pub buf: Seq<u8>,
    pub pipe: PipeView,
    pub timer: RecvTimer,
}

/// How one step of a timed receive ends whose buffer was empty, given what
/// a look into the channel found.
///
/// A chunk that holds bytes is read; an empty chunk asks to go on at once;
/// with the sending side gone the receive is over with 0. With nothing
/// there, the receive is over with `Timedout` once it has waited longer
/// than `timeout_ms`; else the number of waits goes up by one and the wait
/// that belongs to it is asked for and added to the time waited.
pub open spec fn recv_outcome(
    pipe: PipeView,
    received: ReceivedView,
    buf: Seq<u8>,
    timer: RecvTimer,
    timeout_ms: u64,
) -> RecvOutcome {
    match received {
        ReceivedView::Data(data) => if data.len() == 0 {
            RecvOutcome { step: RecvStep::Retry, buf, pipe, timer }
        } else {
            let read = drain_outcome(PipeView { buffer: data, ..pipe }, buf);
            RecvOutcome { step: RecvStep::Done(Ok(read.n)), buf: read.buf, pipe: read.pipe, timer }
        },
        ReceivedView::Disconnected => RecvOutcome {
            step: RecvStep::Done(Ok(0usize)),
            buf,
            pipe,
            timer,
        },
        ReceivedView::Empty => if timer.elapsed_ms > timeout_ms {
            RecvOutcome { step: RecvStep::Done(Err(Errno::Timedout)), buf, pipe, timer }
        } else {
            let ticks = add_millis(timer.tick_wait, 1);
            RecvOutcome {
                step: RecvStep::Park(park_millis(ticks)),
                buf,
                pipe,
                timer: RecvTimer {
                    elapsed_ms: add_millis(timer.elapsed_ms, park_millis(ticks)),
                    tick_wait: ticks,
                },
            }
        },
    }
}

/// The views of a list of chunks.
pub open spec fn chunks_of(v: Seq<Vec<u8>>) -> Seq<Seq<u8>> {
    Seq::new(v.len(), |i: int| v[i]@)
}

/// The views of the chunks that were taken, if any were.
pub open spec fn taken_chunks(r: Option<Vec<Vec<u8>>>) -> Option<Seq<Seq<u8>>> {
    match r {
        Some(chunks) => Some(chunks_of(chunks@)),
        None => None,
    }
}

/// The chunks that an endpoint takes from its channel, given what the
/// channel handed over: what the first look found, the chunks that the
/// further looks found behind a first chunk, and what waiting gave.
///
/// A first chunk is taken with the further chunks behind it, in their
/// order. Where the first look finds none, an endpoint whose reads do not
/// block takes one empty chunk; one whose reads block takes the chunk it
/// waited for, or nothing at all when the sending side is gone.
pub open spec fn chunks_outcome(
    block: bool,
    first: ReceivedView,
    more: Seq<Seq<u8>>,
    waited: Option<Seq<u8>>,
) -> Option<Seq<Seq<u8>>> {
    match first {
        ReceivedView::Data(chunk) => Some(seq![chunk] + more),
        _ => if !block {
            Some(seq![Seq::empty()])
        } else {
            match waited {
                Some(chunk) => Some(seq![chunk]),
                None => None,
            }
        },
    }
}

/// Joins chunks into one, in their order.
pub fn join_chunks(chunks: Vec<Vec<u8>>) -> (r: Vec<u8>)
    ensures
        r@ == concat_chunks(chunks_of(chunks@)),
{
    let mut out: Vec<u8> = Vec::new();
    let mut i: usize = 0;
    let ghost all = chunks_of(chunks@);
    assert(all.subrange(0, 0) =~= Seq::<Seq<u8>>::empty());
    while i < chunks.len()
        invariant
            0 <= i <= chunks.len(),
            all == chunks_of(chunks@),
            out@ == concat_chunks(all.subrange(0, i as int)),
        decreases chunks.len() - i,
    {
        let chunk = &chunks[i];
        let ghost before = out@;
        let mut k: usize = 0;
        while k < chunk.len()
            invariant
                0 <= k <= chunk.len(),
                out@ == before + chunk@.subrange(0, k as int),
            decreases chunk.len() - k,
        {
            out.push(chunk[k]);
            assert(out@ =~= before + chunk@.subrange(0, k + 1));
            k += 1;
        }
        proof {
            assert(chunk@.subrange(0, chunk.len() as int) =~= chunk@);
            assert(all.subrange(0, i + 1).drop_last() =~= all.subrange(0, i as int));
            assert(all.subrange(0, i + 1).last() == chunk@);
        }
        i += 1;
    }
    assert(all.subrange(0, chunks.len() as int) =~= all);
    out
}

impl WasiPipe {
    pub closed spec fn view(&self) -> PipeView {
        PipeView {
            buffer: match self.read_buffer {
                Some(b) => bytes_content(b),
                None => Seq::empty(),
            },
            block: self.block,
            closed: self.closed,
        }
    }

    /// An endpoint over the two halves of two channels, with an empty
    /// buffer.
    fn over(tx: Sender<Vec<u8>>, rx: Receiver<Vec<u8>>, block: bool) -> (r: Self)
        ensures
            r@ == (PipeView { buffer: Seq::empty(), block, closed: false }),
    {
        WasiPipe { tx, rx, read_buffer: None, block, closed: false }
    }

    /// The same endpoint with `block` set.
    pub fn with_blocking(self, block: bool) -> (r: Self)
        ensures
            r@ == (PipeView { block, ..self@ }),
    {
        let mut r = self;
        r.set_blocking(block);
        r
    }

    /// Whether a read waits for a chunk when none is there. It does at first.
    pub fn set_blocking(&mut self, block: bool)
        ensures
            final(self)@ == (PipeView { block, ..old(self)@ }),
    {
        self.block = block;
    }

    /// How many bytes wait in the buffer.
    fn buffered(&self) -> (n: usize)
        ensures
            n == self@.buffer.len(),
    {
        match &self.read_buffer {
            Some(b) => bytes_len(b),
            None => 0,
        }
    }

    /// Hands out bytes from the buffer: as many as it holds and `buf` takes.
    pub fn drain(&mut self, buf: &mut Vec<u8>) -> (n: usize)
        ensures
            (ReadOutcome { n, buf: final(buf)@, pipe: final(self)@ }) == drain_outcome(
                old(self)@,
                old(buf)@,
            ),
    {
        let ghost content = self@.buffer;
        match self.read_buffer.take() {
            None => {
                assert(buf@ =~= filled(content, 0, old(buf)@));
                assert(content.subrange(0, 0) =~= content);
                0
            },
            Some(mut b) => {
                let have = bytes_len(&b);
                let n = if have < buf.len() {
                    have
                } else {
                    buf.len()
                };
                let src = bytes_as_slice(&b);
                let mut k: usize = 0;
                while k < n
                    invariant
                        0 <= k <= n,
                        n <= src@.len(),
                        n <= buf@.len(),
                        src@ == content,
                        buf@.len() == old(buf)@.len(),
                        buf@ == filled(content, k as int, old(buf)@),
                    decreases n - k,
                {
                    buf.set(k, src[k]);
                    assert(buf@ =~= filled(content, k + 1, old(buf)@));
                    k += 1;
                }
                bytes_advance(&mut b, n);
                self.read_buffer = Some(b);
                n
            },
        }
    }

    /// Takes what the channel has right now: the first chunk and every
    /// further chunk that is there behind it, in the order in which they
    /// come; one empty chunk when the channel is empty and reads do not
    /// block; else the chunk it waits for. None when the sending side is
    /// gone.
    fn take_chunks(&mut self) -> (r: Option<Vec<Vec<u8>>>)
        ensures
            final(self)@ == old(self)@,
            exists|first: ReceivedView, more: Seq<Seq<u8>>, waited: Option<Seq<u8>>|
                taken_chunks(r) == #[trigger] chunks_outcome(old(self)@.block, first, more, waited),
    {
        let mut chunks: Vec<Vec<u8>> = Vec::new();
        let looked = chan_try_recv(&self.rx);
        let ghost first_view = looked@;
        match looked {
            Received::Data(first) => {
                let ghost head = first@;
                let ghost mut more: Seq<Seq<u8>> = Seq::empty();
                chunks.push(first);
                assert(chunks_of(chunks@) =~= seq![head] + more);
                let mut k: usize = 0;
                while k < usize::MAX
                    invariant
                        self@ == old(self)@,
                        chunks_of(chunks@) == seq![head] + more,
                    decreases usize::MAX - k,
                {
                    match chan_try_recv(&self.rx) {
                        Received::Data(next) => {
                            let ghost held = chunks_of(chunks@);
                            let ghost came = next@;
                            chunks.push(next);
                            proof {
                                assert(chunks_of(chunks@) =~= held.push(came));
                                assert((seq![head] + more).push(came) =~= seq![head] + more.push(came));
                                more = more.push(came);
                            }
                        },
                        _ => {
                            break ;
                        },
                    }
                    k += 1;
                }
                proof {
                    assert(taken_chunks(Some(chunks)) == chunks_outcome(
                        old(self)@.block,
                        first_view,
                        more,
                        None,
                    ));
                }
                Some(chunks)
            },
            _ => {
                if !self.block {
                    chunks.push(Vec::new());
                    proof {
                        assert(chunks_of(chunks@) =~= seq![Seq::<u8>::empty()]);
                        assert(taken_chunks(Some(chunks)) == chunks_outcome(
                            old(self)@.block,
                            first_view,
                            Seq::empty(),
                            None,
                        ));
                    }
                    Some(chunks)
                } else {
                    match chan_recv(&self.rx) {
                        Some(chunk) => {
                            let ghost cv = chunk@;
                            chunks.push(chunk);
                            proof {
                                assert(chunks_of(chunks@) =~= seq![cv]);
                                assert(taken_chunks(Some(chunks)) == chunks_outcome(
                                    old(self)@.block,
                                    first_view,
                                    Seq::empty(),
                                    Some(cv),
                                ));
                            }
                            Some(chunks)
                        },
                        None => {
                            proof {
                                assert(taken_chunks(None) == chunks_outcome(
                                    old(self)@.block,
                                    first_view,
                                    Seq::empty(),
                                    None,
                                ));
                            }
                            None
                        },
                    }
                }
            },
        }
    }

    /// Puts a received chunk into the empty buffer and hands out bytes from
    /// it. Nothing is handed out for no chunk and for an empty one.
    pub fn read_received(&mut self, received: Option<Vec<u8>>, buf: &mut Vec<u8>) -> (n: usize)
        requires
            old(self)@.buffer.len() == 0,
        ensures
            (ReadOutcome { n, buf: final(buf)@, pipe: final(self)@ }) == received_outcome(
                old(self)@,
                match received {
                    Some(data) => Some(data@),
                    None => None,
                },
                old(buf)@,
            ),
    {
        match received {
            None => 0,
            Some(data) => {
                if data.len() == 0 {
                    assert(buf@ =~= filled(data@, 0, old(buf)@));
                    assert(self@.buffer =~= data@.subrange(0, 0));
                    return 0;
                }
                self.read_buffer = Some(bytes_from_vec(data));
                self.drain(buf)
            },
        }
    }

    /// Reads into `buf`: from the buffer if bytes wait there, else from what
    /// the channel hands over. Returns how many bytes were put into `buf`;
    /// 0 when nothing came and when the sending side is gone. An endpoint
    /// that was cut off reads nothing.
    pub fn read(&mut self, buf: &mut Vec<u8>) -> (n: usize)
        ensures
            old(self)@.closed ==> n == 0 && final(buf)@ == old(buf)@ && final(self)@ == old(self)@,
            !old(self)@.closed && old(self)@.buffer.len() > 0 ==> (ReadOutcome {
                n,
                buf: final(buf)@,
                pipe: final(self)@,
            }) == drain_outcome(old(self)@, old(buf)@),
            !old(self)@.closed && old(self)@.buffer.len() == 0 ==> exists|received: Option<Seq<u8>>|
                (ReadOutcome { n, buf: final(buf)@, pipe: final(self)@ }) == #[trigger] received_outcome(
                    old(self)@,
                    received,
                    old(buf)@,
                ),
    {
        if self.closed {
            return 0;
        }
        if self.buffered() > 0 {
            return self.drain(buf);
        }
        let received = match self.take_chunks() {
            Some(chunks) => Some(join_chunks(chunks)),
            None => None,
        };
        let ghost rv = match received {
            Some(ref d) => Some(d@),
            None => None,
        };
        let n = self.read_received(received, buf);
        proof {
            assert((ReadOutcome { n, buf: buf@, pipe: self@ }) == received_outcome(
                old(self)@,
                rv,
                old(buf)@,
            ));
        }
        n
    }

    /// What a timed receive does with what a look into the channel found,
    /// the buffer being empty.
    pub fn recv_on(
        &mut self,
        received: Received,
        buf: &mut Vec<u8>,
        timer: &mut RecvTimer,
        timeout_ms: u64,
    ) -> (r: RecvStep)
        requires
            old(self)@.buffer.len() == 0,
        ensures
            (RecvOutcome { step: r, buf: final(buf)@, pipe: final(self)@, timer: *final(timer) })
                == recv_outcome(old(self)@, received@, old(buf)@, *old(timer), timeout_ms),
    {
        match received {
            Received::Data(data) => {
                if data.len() == 0 {
                    return RecvStep::Retry;
                }
                self.read_buffer = Some(bytes_from_vec(data));
                let n = self.drain(buf);
                RecvStep::Done(Ok(n))
            },
            Received::Disconnected => RecvStep::Done(Ok(0)),
            Received::Empty => {
                if timer.elapsed_ms > timeout_ms {
                    return RecvStep::Done(Err(Errno::Timedout));
                }
                timer.tick_wait = timer.tick_wait.saturating_add(1);
                let tenth = timer.tick_wait / 10;
                let wait_time: u64 = if tenth < 20 {
                    tenth
                } else {
                    20
                };
                timer.elapsed_ms = timer.elapsed_ms.saturating_add(wait_time);
                RecvStep::Park(wait_time)
            },
        }
    }

    /// One step of a timed receive: bytes that wait in the buffer are handed
    /// out; else the channel is looked into and `recv_on` decides. On an
    /// endpoint that was cut off the receive is over with 0.
    pub fn recv_step(&mut self, buf: &mut Vec<u8>, timer: &mut RecvTimer, timeout_ms: u64) -> (r:
        RecvStep)
        ensures
            old(self)@.closed ==> (RecvOutcome {
                step: r,
                buf: final(buf)@,
                pipe: final(self)@,
                timer: *final(timer),
            }) == (RecvOutcome {
                step: RecvStep::Done(Ok(0usize)),
                buf: old(buf)@,
                pipe: old(self)@,
                timer: *old(timer),
            }),
            !old(self)@.closed && old(self)@.buffer.len() > 0 ==> (RecvOutcome {
                step: r,
                buf: final(buf)@,
                pipe: final(self)@,
                timer: *final(timer),
            }) == (RecvOutcome {
                step: RecvStep::Done(Ok(drain_outcome(old(self)@, old(buf)@).n)),
                buf: drain_outcome(old(self)@, old(buf)@).buf,
                pipe: drain_outcome(old(self)@, old(buf)@).pipe,
                timer: *old(timer),
            }),
            !old(self)@.closed && old(self)@.buffer.len() == 0 ==> exists|received: ReceivedView|
                (RecvOutcome { step: r, buf: final(buf)@, pipe: final(self)@, timer: *final(timer) })
                    == #[trigger] recv_outcome(
                    old(self)@,
                    received,
                    old(buf)@,
                    *old(timer),
                    timeout_ms,
                ),
    {
        if self.closed {
            return RecvStep::Done(Ok(0));
        }
        if self.buffered() > 0 {
            let n = self.drain(buf);
            return RecvStep::Done(Ok(n));
        }
        let received = chan_try_recv(&self.rx);
        let ghost rv = received@;
        let r = self.recv_on(received, buf, timer, timeout_ms);
        proof {
            assert((RecvOutcome { step: r, buf: buf@, pipe: self@, timer: *timer }) == recv_outcome(
                old(self)@,
                rv,
                old(buf)@,
                *old(timer),
                timeout_ms,
            ));
        }
        r
    }

    /// Sends a copy of `bytes` down the pipe as one chunk. Fails with `Io`
    /// when the other side is gone, and always on an endpoint that was cut
    /// off.
    pub fn send(&mut self, bytes: &[u8]) -> (r: Result<usize, Errno>)
        ensures
            final(self)@ == old(self)@,
            old(self)@.closed ==> r == Err::<usize, Errno>(Errno::Io),
            r.is_ok() ==> r.unwrap() == bytes@.len(),
            r.is_err() ==> r.unwrap_err() == Errno::Io,
    {
        if self.closed {
            return Err(Errno::Io);
        }
        let chunk = vstd::slice::slice_to_vec(bytes);
        if chan_send(&self.tx, chunk) {
            Ok(bytes.len())
        } else {
            Err(Errno::Io)
        }
    }

    /// Sends a copy of `bytes` down the pipe. A write never waits.
    pub fn write(&mut self, bytes: &[u8]) -> (r: Result<usize, Errno>)
        ensures
            final(self)@ == old(self)@,
            old(self)@.closed ==> r == Err::<usize, Errno>(Errno::Io),
            r.is_ok() ==> r.unwrap() == bytes@.len(),
            r.is_err() ==> r.unwrap_err() == Errno::Io,
    {
        self.send(bytes)
    }

    /// Nothing is held back, so there is nothing to flush.
    pub fn flush(&mut self) -> (r: Result<(), Errno>)
        ensures
            r.is_ok(),
            final(self)@ == old(self)@,
    {
        Ok(())
    }

    /// A pipe has no positions: the answer is 0.
    pub fn seek(&mut self, pos: u64) -> (r: u64)
        ensures
            r == 0,
            final(self)@ == old(self)@,
    {
        0
    }

    /// Cuts the endpoint off: both channel halves are replaced by halves of
    /// channels whose other side is gone, and the buffer is dropped. From
    /// then on the endpoint reads nothing and sends nothing.
    pub fn close(&mut self)
        ensures
            final(self)@ == (PipeView { buffer: Seq::empty(), closed: true, ..old(self)@ }),
    {
        let (null_tx, _gone_rx) = chan_new();
        let (_gone_tx, null_rx) = chan_new();
        self.rx = null_rx;
        self.tx = null_tx;
        self.read_buffer = None;
        self.closed = true;
    }

    pub fn last_accessed(&self) -> (r: u64)
        ensures
            r == 0,
    {
        0
    }

    pub fn last_modified(&self) -> (r: u64)
        ensures
            r == 0,
    {
        0
    }

    pub fn created_time(&self) -> (r: u64)
        ensures
            r == 0,
    {
        0
    }

    /// A pipe has no size: the answer is 0.
    pub fn size(&self) -> (r: u64)
        ensures
            r == 0,
    {
        0
    }

    pub fn set_len(&mut self, new_size: u64) -> (r: Result<(), Errno>)
        ensures
            r.is_ok(),
            final(self)@ == old(self)@,
    {
        Ok(())
    }

    pub fn unlink(&mut self) -> (r: Result<(), Errno>)
        ensures
            r.is_ok(),
            final(self)@ == old(self)@,
    {
        Ok(())
    }

    pub fn sync_to_disk(&self) -> (r: Result<(), Errno>)
        ensures
            r.is_ok(),
    {
        Ok(())
    }

    /// How many bytes can be read without waiting: those in the buffer, or,
    /// when it is empty, those of the next chunk that holds any, which is
    /// taken into the buffer. An endpoint that was cut off takes nothing
    /// in.
    pub fn bytes_available_read(&mut self) -> (r: Option<usize>)
        ensures
            r.is_some(),
            r.unwrap() == final(self)@.buffer.len(),
            final(self)@.block == old(self)@.block,
            final(self)@.closed == old(self)@.closed,
            old(self)@.closed || old(self)@.buffer.len() > 0 ==> final(self)@ == old(self)@,
    {
        if self.closed {
            return Some(self.buffered());
        }
        let mut k: usize = 0;
        while k < usize::MAX
            invariant
                self@.block == old(self)@.block,
                !old(self)@.closed,
                self@.closed == old(self)@.closed,
                old(self)@.buffer.len() > 0 ==> self@ == old(self)@,
            decreases usize::MAX - k,
        {
            let have = self.buffered();
            if have > 0 {
                return Some(have);
            }
            match chan_try_recv(&self.rx) {
                Received::Data(data) => {
                    self.read_buffer = Some(bytes_from_vec(data));
                },
                _ => {
                    return Some(self.buffered());
                },
            }
            k += 1;
        }
        Some(self.buffered())
    }

    /// How many bytes can be written without waiting: not known.
    pub fn bytes_available_write(&self) -> (r: Option<usize>)
        ensures
            r.is_none(),
    {
        None
    }

    /// How many bytes can be read or written without waiting.
    pub fn bytes_available(&mut self) -> (r: usize)
        ensures
            r == final(self)@.buffer.len(),
            final(self)@.block == old(self)@.block,
            final(self)@.closed == old(self)@.closed,
            old(self)@.closed || old(self)@.buffer.len() > 0 ==> final(self)@ == old(self)@,
    {
        match self.bytes_available_read() {
            Some(n) => n,
            None => 0,
        }
    }

    /// An endpoint counts as open always.
    pub fn is_open(&self) -> (r: bool)
        ensures
            r,
    {
        true
    }

    /// An endpoint has no descriptor number of its own.
    pub fn get_special_fd(&self) -> (r: Option<u32>)
        ensures
            r.is_none(),
    {
        None
    }

    /// An endpoint has no host descriptor.
    pub fn get_fd(&self) -> (r: Option<u32>)
        ensures
            r.is_none(),
    {
        None
    }
}

/// Two endpoints that are connected to each other.
#[derive(Debug)]
pub struct WasiBidirectionalPipePair {
    pub send: WasiPipe,
    pub recv: WasiPipe,
}

impl WasiBidirectionalPipePair {
    /// Two connected endpoints with empty buffers, whose reads block.
    pub fn new() -> (r: Self)
        ensures
            r.send@ == (PipeView { buffer: Seq::empty(), block: true, closed: false }),
            r.recv@ == (PipeView { buffer: Seq::empty(), block: true, closed: false }),
    {
        let (tx1, rx1) = chan_new();
        let (tx2, rx2) = chan_new();
        let pipe1 = WasiPipe::over(tx1, rx2, true);
        let pipe2 = WasiPipe::over(tx2, rx1, true);
        WasiBidirectionalPipePair { send: pipe1, recv: pipe2 }
    }

    /// The same pair with `block` set on both endpoints.
    pub fn with_blocking(self, block: bool) -> (r: Self)
        ensures
            r.send@ == (PipeView { block, ..self.send@ }),
            r.recv@ == (PipeView { block, ..self.recv@ }),
    {
        let mut r = self;
        r.set_blocking(block);
        r
    }

    /// Whether reads wait for a chunk when none is there.
    pub fn set_blocking(&mut self, block: bool)
        ensures
            final(self).send@ == (PipeView { block, ..old(self).send@ }),
            final(self).recv@ == (PipeView { block, ..old(self).recv@ }),
    {
        self.send.set_blocking(block);
        self.recv.set_blocking(block);
    }

    /// Sends through the sending endpoint.
    pub fn write(&mut self, bytes: &[u8]) -> (r: Result<usize, Errno>)
        ensures
            final(self).send@ == old(self).send@,
            final(self).recv@ == old(self).recv@,
            old(self).send@.closed ==> r == Err::<usize, Errno>(Errno::Io),
            r.is_ok() ==> r.unwrap() == bytes@.len(),
            r.is_err() ==> r.unwrap_err() == Errno::Io,
    {
        self.send.write(bytes)
    }

    pub fn flush(&mut self) -> (r: Result<(), Errno>)
        ensures
            r.is_ok(),
            final(self).send@ == old(self).send@,
            final(self).recv@ == old(self).recv@,
    {
        self.send.flush()
    }

    pub fn seek(&mut self, pos: u64) -> (r: u64)
        ensures
            r == 0,
            final(self).send@ == old(self).send@,
            final(self).recv@ == old(self).recv@,
    {
        0
    }

    /// Reads through the receiving endpoint.
    pub fn read(&mut self, buf: &mut Vec<u8>) -> (n: usize)
        ensures
            final(self).send@ == old(self).send@,
            old(self).recv@.closed ==> {
                &&& n == 0
                &&& final(buf)@ == old(buf)@
                &&& final(self).recv@ == old(self).recv@
            },
            !old(self).recv@.closed && old(self).recv@.buffer.len() > 0 ==> (ReadOutcome {
                n,
                buf: final(buf)@,
                pipe: final(self).recv@,
            }) == drain_outcome(old(self).recv@, old(buf)@),
            !old(self).recv@.closed && old(self).recv@.buffer.len() == 0 ==> exists|
                received: Option<Seq<u8>>,
            |
                (ReadOutcome { n, buf: final(buf)@, pipe: final(self).recv@ })
                    == #[trigger] received_outcome(old(self).recv@, received, old(buf)@),
    {
        self.recv.read(buf)
    }

    pub fn last_accessed(&self) -> (r: u64)
        ensures
            r == 0,
    {
        self.recv.last_accessed()
    }

    pub fn last_modified(&self) -> (r: u64)
        ensures
            r == 0,
    {
        self.recv.last_modified()
    }

    pub fn created_time(&self) -> (r: u64)
        ensures
            r == 0,
    {
        self.recv.created_time()
    }

    pub fn size(&self) -> (r: u64)
        ensures
            r == 0,
    {
        self.recv.size()
    }

    pub fn set_len(&mut self, new_size: u64) -> (r: Result<(), Errno>)
        ensures
            r.is_ok(),
            final(self).send@ == old(self).send@,
            final(self).recv@ == old(self).recv@,
    {
        self.recv.set_len(new_size)
    }

    pub fn unlink(&mut self) -> (r: Result<(), Errno>)
        ensures
            r.is_ok(),
            final(self).send@ == old(self).send@,
            final(self).recv@ == old(self).recv@,
    {
        self.recv.unlink()
    }

    pub fn bytes_available_read(&mut self) -> (r: Option<usize>)
        ensures
            r.is_some(),
            r.unwrap() == final(self).recv@.buffer.len(),
            final(self).send@ == old(self).send@,
    {
        self.recv.bytes_available_read()
    }
}

/// Bytes leave a buffer in the order in which they are in it: two reads
/// one after the other hand out what one read of their joint size hands
/// out.
pub proof fn law_drain_in_order(content: Seq<u8>, room1: nat, room2: nat)
    ensures
        ({
            let n1 = drain_len(content, room1);
            let rest = content.subrange(n1 as int, content.len() as int);
            let n2 = drain_len(rest, room2);
            &&& n1 + n2 == drain_len(content, room1 + room2)
            &&& content.subrange(0, n1 as int) + rest.subrange(0, n2 as int) == content.subrange(
                0,
                (n1 + n2) as int,
            )
            &&& rest.subrange(n2 as int, rest.len() as int) == content.subrange(
                (n1 + n2) as int,
                content.len() as int,
            )
        }),
{
    let n1 = drain_len(content, room1);
    let rest = content.subrange(n1 as int, content.len() as int);
    let n2 = drain_len(rest, room2);
    assert(content.subrange(0, n1 as int) + rest.subrange(0, n2 as int) =~= content.subrange(
        0,
        (n1 + n2) as int,
    ));
    assert(rest.subrange(n2 as int, rest.len() as int) =~= content.subrange(
        (n1 + n2) as int,
        content.len() as int,
    ));
}

/// A read with room for all of a chunk hands out the chunk and leaves
/// nothing behind.
pub proof fn law_drain_whole(content: Seq<u8>, buf: Seq<u8>)
    requires
        buf.len() == content.len(),
    ensures
        drain_len(content, buf.len()) == content.len(),
        filled(content, content.len() as int, buf) == content,
        content.subrange(content.len() as int, content.len() as int) == Seq::<u8>::empty(),
{
    assert(filled(content, content.len() as int, buf) =~= content);
    assert(content.subrange(content.len() as int, content.len() as int) =~= Seq::<u8>::empty());
}


/// The chunks of two lists, one list after the other, are joined to what
/// the lists are joined to, one after the other.
pub proof fn law_concat_in_order(a: Seq<Seq<u8>>, b: Seq<Seq<u8>>)
    ensures
        concat_chunks(a + b) == concat_chunks(a) + concat_chunks(b),
    decreases b.len(),
{
    if b.len() == 0 {
        assert(a + b =~= a);
        assert(concat_chunks(a) + concat_chunks(b) =~= concat_chunks(a));
    } else {
        law_concat_in_order(a, b.drop_last());
        assert((a + b).drop_last() =~= a + b.drop_last());
        assert((a + b).last() == b.last());
        assert(concat_chunks(a) + (concat_chunks(b.drop_last()) + b.last()) =~= (concat_chunks(a)
            + concat_chunks(b.drop_last())) + b.last());
    }
}

/// Where the chunks of three writes arrive as they were sent, two reads
/// that take it all read what was written: the bytes of the reads, one
/// after the other, are the bytes of the writes, one after the other.
pub proof fn law_reads_follow_writes(
    w1: Seq<u8>,
    w2: Seq<u8>,
    w3: Seq<u8>,
    block: bool,
    buf1: Seq<u8>,
    buf2: Seq<u8>,
)
    requires
        buf1.len() + buf2.len() == w1.len() + w2.len() + w3.len(),
        w1.len() + w2.len() + w3.len() <= usize::MAX,
    ensures
        ({
            let arrived = concat_chunks(seq![w1, w2, w3]);
            let empty = PipeView { buffer: Seq::empty(), block, closed: false };
            let first = received_outcome(empty, Some(arrived), buf1);
            let second = drain_outcome(first.pipe, buf2);
            &&& arrived == w1 + w2 + w3
            &&& first.n == buf1.len()
            &&& second.n == buf2.len()
            &&& first.buf + second.buf == w1 + w2 + w3
            &&& second.pipe.buffer.len() == 0
        }),
{
    reveal_with_fuel(concat_chunks, 4);
    let chunks = seq![w1, w2, w3];
    assert(chunks.drop_last() =~= seq![w1, w2]);
    assert(seq![w1, w2].drop_last() =~= seq![w1]);
    assert(seq![w1].drop_last() =~= Seq::<Seq<u8>>::empty());
    assert(concat_chunks(seq![w1]) =~= w1);
    assert(concat_chunks(seq![w1, w2]) =~= w1 + w2);
    let arrived = concat_chunks(chunks);
    assert(arrived =~= w1 + w2 + w3);
    let empty = PipeView { buffer: Seq::empty(), block, closed: false };
    let first = received_outcome(empty, Some(arrived), buf1);
    let second = drain_outcome(first.pipe, buf2);
    assert(first.buf + second.buf =~= w1 + w2 + w3);
}

/// Where the chunk of a write arrives as it was sent, a read with room for
/// it reads what was written, and nothing is left behind.
pub proof fn law_write_then_read(bytes: Seq<u8>, block: bool, buf: Seq<u8>)
    requires
        buf.len() == bytes.len(),
        bytes.len() <= usize::MAX,
    ensures
        ({
            let empty = PipeView { buffer: Seq::empty(), block, closed: false };
            let read = received_outcome(empty, Some(concat_chunks(seq![bytes])), buf);
            &&& read.n == bytes.len()
            &&& read.buf == bytes
            &&& read.pipe.buffer.len() == 0
        }),
{
    reveal_with_fuel(concat_chunks, 2);
    assert(seq![bytes].drop_last() =~= Seq::<Seq<u8>>::empty());
    assert(concat_chunks(seq![bytes]) =~= bytes);
    let empty = PipeView { buffer: Seq::empty(), block, closed: false };
    let read = received_outcome(empty, Some(bytes), buf);
    assert(read.buf =~= bytes);
}

} // verus!
