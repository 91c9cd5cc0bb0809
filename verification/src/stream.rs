//! The writer of one subscriber's stream: what to send, and when to stop,
//! for each thing that can happen while the stream is open.

use crate::event::{ping, ping_frame};
use crate::text::{joined, push_bytes};
use std::sync::Arc;
use vstd::prelude::*;

verus! {

/// How long a subscriber may wait for a message before it is sent a ping,
/// in seconds.
pub const IDLE_TIMEOUT_SECS: u64 = 10;

/// The two states of a stream.
#[derive(Clone, Copy, Debug, PartialEq, Eq, Structural)]
pub enum StreamState {
    /// Frames are sent as they come.
    Streaming,
    /// The stream is over.
    Closed,
}

/// What can happen on a stream.
pub enum Signal {
    /// A message came; with it, whatever was queued behind it.
    Messages(Seq<Seq<u8>>),
    /// No message came within the idle timeout.
    Idle,
    /// The channel is closed: the hub is gone.
    Disconnected,
    /// A write failed: the peer is gone.
    WriteFailed,
}

/// What the writer does, as plain values.
pub enum Emit {
    /// Write the bytes and flush once.
    Write(Seq<u8>),
    /// Leave the loop and drop the channel.
    Stop,
}

/// What the writer does.
#[derive(Debug, PartialEq, Eq)]
pub enum StreamStep {
    /// Write the bytes and flush once.
    Write(Vec<u8>),
    /// Leave the loop and drop the channel.
    Stop,
}

impl View for StreamStep {
    type V = Emit;

    open spec fn view(&self) -> Emit {
        match *self {
            StreamStep::Write(bytes) => Emit::Write(bytes@),
            StreamStep::Stop => Emit::Stop,
        }
    }
}

/// The next state and what to do. An open stream sends a batch of messages
/// as one piece, in their order, and a ping when it was idle, and stays
/// open; it closes, without an error, when the channel is closed or a write
/// failed. A closed stream stays closed.
pub open spec fn stream_step(state: StreamState, signal: Signal) -> (StreamState, Emit) {
    match state {
        StreamState::Closed => (StreamState::Closed, Emit::Stop),
        StreamState::Streaming => match signal {
            Signal::Messages(frames) => (StreamState::Streaming, Emit::Write(joined(frames))),
            Signal::Idle => (StreamState::Streaming, Emit::Write(ping())),
            Signal::Disconnected => (StreamState::Closed, Emit::Stop),
            Signal::WriteFailed => (StreamState::Closed, Emit::Stop),
        },
    }
}

/// The bytes that a step sends.
pub open spec fn written(emit: Emit) -> Seq<u8> {
    match emit {
        Emit::Write(bytes) => bytes,
        Emit::Stop => Seq::empty(),
    }
}

/// The state after a run of signals, and all that was sent during it.
pub open spec fn run(state: StreamState, signals: Seq<Signal>) -> (StreamState, Seq<u8>)
    decreases signals.len(),
{
    if signals.len() == 0 {
        (state, Seq::empty())
    } else {
        let (mid, sent) = run(state, signals.drop_last());
        let (end, emit) = stream_step(mid, signals.last());
        (end, sent + written(emit))
    }
}

/// The frames of a batch, as plain values.
pub open spec fn frames_of(batch: Seq<Arc<Vec<u8>>>) -> Seq<Seq<u8>> {
    Seq::new(batch.len(), |i: int| batch[i]@)
}

/// However long an open stream is idle, it stays open, and what it sends is
/// one ping for each idle timeout and nothing else.
pub proof fn lemma_idle_stream_pings_and_stays_open(signals: Seq<Signal>)
    requires
        forall|i: int| 0 <= i < signals.len() ==> signals[i] is Idle,
    ensures
        run(StreamState::Streaming, signals).0 == StreamState::Streaming,
        run(StreamState::Streaming, signals).1 == joined(Seq::new(signals.len(), |i: int| ping())),
    decreases signals.len(),
{
    let pings = Seq::new(signals.len(), |i: int| ping());
    if signals.len() > 0 {
        lemma_idle_stream_pings_and_stays_open(signals.drop_last());
        assert(signals.last() is Idle);
        assert(pings.drop_last() == Seq::new(signals.drop_last().len(), |i: int| ping()));
        assert(pings.last() == ping());
    }
}

/// A stream that gets nothing but messages sends every batch whole, batch
/// after batch in the order in which they came, and stays open.
pub proof fn lemma_messages_go_out_in_order(batches: Seq<Seq<Seq<u8>>>)
    ensures
        run(
            StreamState::Streaming,
            Seq::new(batches.len(), |i: int| Signal::Messages(batches[i])),
        ).0 == StreamState::Streaming,
        run(
            StreamState::Streaming,
            Seq::new(batches.len(), |i: int| Signal::Messages(batches[i])),
        ).1 == joined(Seq::new(batches.len(), |i: int| joined(batches[i]))),
    decreases batches.len(),
{
    let signals = Seq::new(batches.len(), |i: int| Signal::Messages(batches[i]));
    let pieces = Seq::new(batches.len(), |i: int| joined(batches[i]));
    if batches.len() > 0 {
        let fewer = batches.drop_last();
        lemma_messages_go_out_in_order(fewer);
        assert(signals.drop_last() == Seq::new(fewer.len(), |i: int| Signal::Messages(fewer[i])));
        assert(pieces.drop_last() == Seq::new(fewer.len(), |i: int| joined(fewer[i])));
        assert(signals.last() == Signal::Messages(batches.last()));
        assert(pieces.last() == joined(batches.last()));
    }
}

/// A closed stream sends nothing more, whatever happens.
pub proof fn lemma_closed_stream_stays_silent(signals: Seq<Signal>)
    ensures
        run(StreamState::Closed, signals) == (StreamState::Closed, Seq::<u8>::empty()),
    decreases signals.len(),
{
    if signals.len() > 0 {
        lemma_closed_stream_stays_silent(signals.drop_last());
    }
}

/// The writer of one subscriber's stream.
#[derive(Debug)]
pub struct StreamWriter {
    state: StreamState,
}

impl View for StreamWriter {
    type V = StreamState;

    closed spec fn view(&self) -> StreamState {
        self.state
    }
}

impl StreamWriter {
    /// The writer of a stream that has just been opened.
    pub fn new() -> (writer: StreamWriter)
        ensures
            writer@ == StreamState::Streaming,
    {
        StreamWriter { state: StreamState::Streaming }
    }

    /// The state of the stream.
    pub fn state(&self) -> (state: StreamState)
        ensures
            state == self@,
    {
        self.state
    }

    /// A message came, and `batch` holds it and what was queued behind it.
    pub fn on_messages(&mut self, batch: &[Arc<Vec<u8>>]) -> (step: StreamStep)
        ensures
            (final(self)@, step@) == stream_step(old(self)@, Signal::Messages(frames_of(batch@))),
    {
        match self.state {
            StreamState::Closed => StreamStep::Stop,
            StreamState::Streaming => {
                let mut bytes: Vec<u8> = Vec::new();
                let mut i: usize = 0;
                while i < batch.len()
                    invariant
                        i <= batch@.len(),
                        bytes@ == joined(frames_of(batch@).take(i as int)),
                    decreases batch@.len() - i,
                {
                    assert(frames_of(batch@).take(i + 1).drop_last() == frames_of(batch@).take(
                        i as int,
                    ));
                    push_bytes(&mut bytes, batch[i].as_slice());
                    i += 1;
                }
                assert(frames_of(batch@).take(i as int) == frames_of(batch@));
                StreamStep::Write(bytes)
            },
        }
    }

    /// No message came within the idle timeout.
    pub fn on_idle(&mut self) -> (step: StreamStep)
        ensures
            (final(self)@, step@) == stream_step(old(self)@, Signal::Idle),
    {
        match self.state {
            StreamState::Closed => StreamStep::Stop,
            StreamState::Streaming => StreamStep::Write(ping_frame()),
        }
    }

    /// The channel is closed.
    pub fn on_disconnect(&mut self) -> (step: StreamStep)
        ensures
            (final(self)@, step@) == stream_step(old(self)@, Signal::Disconnected),
    {
        self.state = StreamState::Closed;
        StreamStep::Stop
    }

    /// A write failed.
    pub fn on_write_failure(&mut self) -> (step: StreamStep)
        ensures
            (final(self)@, step@) == stream_step(old(self)@, Signal::WriteFailed),
    {
        self.state = StreamState::Closed;
        StreamStep::Stop
    }
}

} // verus!
