//! The mathematical model of the stream: its states, the answers a source can
//! give, and the transition that one answer causes.

use crate::buffer::IO_BUFFER_SIZE;
use vstd::prelude::*;

verus! {

/// What the stream asks of its source.
#[derive(Clone, Copy, Debug, PartialEq, Eq, Structural)]
pub enum Request {
    /// Start a seek to this absolute offset.
    StartSeek { position: u64 },
    /// Check whether the seek that was started has completed.
    PollComplete,
    /// Read at most `max_len` bytes into the stream's buffer.
    PollRead { max_len: usize },
}

/// What the source answered to a request.
#[derive(Debug)]
pub enum Event<E> {
    /// Not ready yet: ask again later.
    Pending,
    /// The request succeeded. For a read, the bytes are in the buffer.
    Ready,
    /// The request failed.
    Failed(E),
}

/// The state of a stream as the contracts see it.
pub enum StreamModel {
    /// The seek has not been started.
    Seek { start: u64, remaining: u64 },
    /// The seek was started and has not completed.
    Seeking { remaining: u64 },
    /// The seek is done; `filled` is what the buffer holds.
    Reading { filled: Seq<u8>, remaining: u64 },
}

/// What one answer leads to, with a chunk seen as its bytes.
pub enum StepModel<E> {
    /// The stream moved on to its next phase and has a new request.
    Continue,
    /// Nothing to yield yet.
    Pending,
    /// The next chunk of the range.
    Chunk(Seq<u8>),
    /// The source's failure, passed on as it came.
    Failed(E),
    /// The sequence is over.
    End,
}

/// The most bytes one read may ask for: what is left of the range, but never
/// more than one buffer.
pub open spec fn read_limit(remaining: u64) -> nat {
    if remaining >= IO_BUFFER_SIZE {
        IO_BUFFER_SIZE as nat
    } else {
        remaining as nat
    }
}

impl StreamModel {
    /// The state of a new stream over `length` bytes from `start`.
    pub open spec fn initial(start: u64, length: u64) -> StreamModel {
        StreamModel::Seek { start, remaining: length }
    }

    /// Bytes of the range still owed to the consumer.
    pub open spec fn remaining(self) -> u64 {
        match self {
            StreamModel::Seek { remaining, .. } => remaining,
            StreamModel::Seeking { remaining } => remaining,
            StreamModel::Reading { remaining, .. } => remaining,
        }
    }

    /// What the buffer holds; nothing before the read phase.
    pub open spec fn filled(self) -> Seq<u8> {
        match self {
            StreamModel::Reading { filled, .. } => filled,
            _ => Seq::empty(),
        }
    }

    /// The buffer is empty, as it is between two answers.
    pub open spec fn idle(self) -> bool {
        self.filled().len() == 0
    }

    /// How far the stream has come: 0 before the seek is started, 1 while it
    /// is under way, 2 in the read phase.
    pub open spec fn phase(self) -> nat {
        match self {
            StreamModel::Seek { .. } => 0,
            StreamModel::Seeking { .. } => 1,
            StreamModel::Reading { .. } => 2,
        }
    }

    /// The request that this state puts to the source.
    pub open spec fn request(self) -> Request {
        match self {
            StreamModel::Seek { start, .. } => Request::StartSeek { position: start },
            StreamModel::Seeking { .. } => Request::PollComplete,
            StreamModel::Reading { remaining, .. } => Request::PollRead {
                max_len: read_limit(remaining) as usize,
            },
        }
    }

    /// The state after a read has put `bytes` behind what the buffer held.
    /// Outside the read phase there is no buffer and nothing changes.
    pub open spec fn after_fill(self, bytes: Seq<u8>) -> StreamModel {
        match self {
            StreamModel::Reading { filled, remaining } => StreamModel::Reading {
                filled: filled + bytes,
                remaining,
            },
            _ => self,
        }
    }

    /// Whether `event` may be reported in this state. A successful read has
    /// filled no more than it was asked to; an answer that is no success has
    /// left the buffer empty.
    pub open spec fn accepts<E>(self, event: Event<E>) -> bool {
        match event {
            Event::Ready => self.filled().len() <= read_limit(self.remaining()),
            _ => self.idle(),
        }
    }

    /// The state that follows `event`, and what the stream yields for it.
    ///
    /// `Pending` and `Failed` change nothing. `Ready` moves a seek on by one
    /// phase; in the read phase an empty buffer ends the sequence, and a
    /// filled one is yielded whole and counted off `remaining`.
    pub open spec fn transition<E>(self, event: Event<E>) -> (StreamModel, StepModel<E>) {
        match event {
            Event::Pending => (self, StepModel::Pending),
            Event::Failed(error) => (self, StepModel::Failed(error)),
            Event::Ready => match self {
                StreamModel::Seek { remaining, .. } => (
                    StreamModel::Seeking { remaining },
                    StepModel::Continue,
                ),
                StreamModel::Seeking { remaining } => (
                    StreamModel::Reading { filled: Seq::empty(), remaining },
                    StepModel::Continue,
                ),
                StreamModel::Reading { filled, remaining } => if filled.len() == 0 {
                    (self, StepModel::End)
                } else {
                    (
                        StreamModel::Reading {
                            filled: Seq::empty(),
                            remaining: (remaining - filled.len()) as u64,
                        },
                        StepModel::Chunk(filled),
                    )
                },
            },
        }
    }
}

} // verus!
