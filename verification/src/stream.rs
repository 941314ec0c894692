//! The executable stream.

use crate::buffer::{allocate_buffer, buffer_bytes, buffer_room, chunk_bytes, IO_BUFFER_SIZE};
use crate::model::{read_limit, Event, Request, StepModel, StreamModel};
use vstd::prelude::*;

verus! {

/// What the stream yields for one answer of the source.
#[derive(Debug)]
pub enum Step<E> {
    /// The stream moved on to its next phase: put its new request to the source.
    Continue,
    /// Nothing to yield yet: the source was not ready.
    Pending,
    /// The next chunk of the range.
    Chunk(bytes::Bytes),
    /// The source's failure, passed on as it came.
    Failed(E),
    /// The sequence is over.
    End,
}

impl<E> View for Step<E> {
    type V = StepModel<E>;

    open spec fn view(&self) -> StepModel<E> {
        match *self {
            Step::Continue => StepModel::Continue,
            Step::Pending => StepModel::Pending,
            Step::Chunk(chunk) => StepModel::Chunk(chunk_bytes(chunk)),
            Step::Failed(error) => StepModel::Failed(error),
            Step::End => StepModel::End,
        }
    }
}

enum StreamState {
    Seek { start: u64, remaining: u64 },
    Seeking { remaining: u64 },
    Reading { buffer: bytes::BytesMut, remaining: u64 },
}

/// One pass over a byte range of a seekable source, chunk by chunk.
pub struct RangedStream {
    state: StreamState,
}

impl View for RangedStream {
    type V = StreamModel;

    closed spec fn view(&self) -> StreamModel {
        match self.state {
            StreamState::Seek { start, remaining } => StreamModel::Seek { start, remaining },
            StreamState::Seeking { remaining } => StreamModel::Seeking { remaining },
            StreamState::Reading { buffer, remaining } => StreamModel::Reading {
                filled: buffer_bytes(buffer),
                remaining,
            },
        }
    }
}

/// The most bytes one read may ask for, given what is left of the range.
pub fn read_len(remaining: u64) -> (len: usize)
    ensures
        len == read_limit(remaining),
{
    let wanted: usize = match usize::try_from(remaining) {
        Ok(n) => n,
        Err(_) => usize::MAX,
    };
    if IO_BUFFER_SIZE <= wanted {
        IO_BUFFER_SIZE
    } else {
        wanted
    }
}

impl RangedStream {
    /// Whether the buffer has room for a whole read, which is one buffer's
    /// worth of bytes. It holds of every stream outside the read phase, where
    /// there is no buffer yet.
    pub closed spec fn roomy(&self) -> bool {
        match self.state {
            StreamState::Reading { buffer, .. } => buffer_room(buffer) >= IO_BUFFER_SIZE,
            _ => true,
        }
    }

    /// A stream over the `length` bytes that start at offset `start`.
    pub fn new(start: u64, length: u64) -> (stream: Self)
        ensures
            stream@ == StreamModel::initial(start, length),
            stream.roomy(),
    {
        RangedStream { state: StreamState::Seek { start, remaining: length } }
    }

    /// Bytes of the range still owed to the consumer.
    pub fn remaining(&self) -> (remaining: u64)
        ensures
            remaining == self@.remaining(),
    {
        match &self.state {
            StreamState::Seek { remaining, .. } => *remaining,
            StreamState::Seeking { remaining } => *remaining,
            StreamState::Reading { remaining, .. } => *remaining,
        }
    }

    /// What to ask of the source now.
    pub fn request(&self) -> (request: Request)
        ensures
            request == self@.request(),
    {
        match &self.state {
            StreamState::Seek { start, .. } => Request::StartSeek { position: *start },
            StreamState::Seeking { .. } => Request::PollComplete,
            StreamState::Reading { remaining, .. } => Request::PollRead {
                max_len: read_len(*remaining),
            },
        }
    }

    /// The buffer that the read asked for by [`RangedStream::request`] fills,
    /// or `None` before the read phase.
    ///
    /// Between two answers the buffer is empty and has room for a whole read,
    /// so the read that was asked for fits behind what it holds. The stream
    /// sees whatever the borrower leaves in it: the bytes appended are the
    /// ones the next `Ready` yields, and the room it is left with is the room
    /// the stream has.
    pub fn read_buffer(&mut self) -> (buffer: Option<&mut bytes::BytesMut>)
        ensures
            match buffer {
                Some(buffer) => {
                    &&& old(self)@ is Reading
                    &&& buffer_bytes(*buffer) == old(self)@.filled()
                    &&& old(self).roomy() == (buffer_room(*buffer) >= IO_BUFFER_SIZE)
                    &&& old(self).roomy() && old(self)@.idle() ==> buffer_room(*buffer)
                        >= buffer_bytes(*buffer).len() + read_limit(old(self)@.remaining())
                    &&& final(self)@ == (StreamModel::Reading {
                        filled: buffer_bytes(*final(buffer)),
                        remaining: old(self)@.remaining(),
                    })
                    &&& final(self).roomy() == (buffer_room(*final(buffer)) >= IO_BUFFER_SIZE)
                },
                None => {
                    &&& !(old(self)@ is Reading)
                    &&& final(self)@ == old(self)@
                    &&& final(self).roomy()
                },
            },
    {
        match &mut self.state {
            StreamState::Reading { buffer, .. } => Some(buffer),
            _ => None,
        }
    }

    /// Whether `event` may be handed to [`RangedStream::advance`] now: the
    /// buffer still has room for a whole read, a successful read has put no
    /// more into it than was asked for, and any other answer has left it
    /// empty.
    pub fn accepts<E>(&self, event: &Event<E>) -> (ok: bool)
        ensures
            ok == (self.roomy() && self@.accepts(*event)),
    {
        match &self.state {
            StreamState::Reading { buffer, remaining } => {
                let within = match event {
                    Event::Ready => buffer.len() <= read_len(*remaining),
                    _ => buffer.len() == 0,
                };
                buffer.capacity() >= IO_BUFFER_SIZE && within
            },
            _ => true,
        }
    }

    /// Takes the source's answer to the current request and says what to
    /// yield for it.
    ///
    /// `Pending` and `Failed` are passed on and leave the stream as it was,
    /// so that asking again repeats the same request. `Ready` completes the
    /// current phase: a seek moves on to the next phase; a read that filled
    /// nothing ends the sequence; a read that filled the buffer yields it as
    /// a chunk, counts its length off what remains and leaves a fresh buffer
    /// in its place. Whatever the answer, the stream is left with an empty
    /// buffer that has room for a whole read.
    pub fn advance<E>(&mut self, event: Event<E>) -> (step: Step<E>)
        requires
            old(self).roomy(),
            old(self)@.accepts(event),
        ensures
            (final(self)@, step@) == old(self)@.transition(event),
            final(self)@.idle(),
            final(self).roomy(),
    {
        match event {
            Event::Pending => Step::Pending,
            Event::Failed(error) => Step::Failed(error),
            Event::Ready => self.complete(),
        }
    }

    /// The `Ready` case of [`RangedStream::advance`].
    fn complete<E>(&mut self) -> (step: Step<E>)
        requires
            old(self).roomy(),
            old(self)@.filled().len() <= read_limit(old(self)@.remaining()),
        ensures
            (final(self)@, step@) == old(self)@.transition(Event::<E>::Ready),
            final(self)@.idle(),
            final(self).roomy(),
    {
        match &mut self.state {
            StreamState::Seek { remaining, .. } => {
                let remaining = *remaining;
                self.state = StreamState::Seeking { remaining };
                Step::Continue
            },
            StreamState::Seeking { remaining } => {
                let remaining = *remaining;
                self.state = StreamState::Reading { buffer: allocate_buffer(), remaining };
                Step::Continue
            },
            StreamState::Reading { buffer, remaining } => {
                let filled = buffer.len();
                if filled == 0 {
                    Step::End
                } else {
                    let mut chunk = allocate_buffer();
                    std::mem::swap(buffer, &mut chunk);
                    *remaining = *remaining - filled as u64;
                    Step::Chunk(chunk.freeze())
                }
            },
        }
    }
}

} // verus!
