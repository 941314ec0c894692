//! A ranged-read state machine: it turns one requested byte range of a
//! seekable source into a finite sequence of chunks.
//!
//! The stream never touches the source itself. It says what to ask of the
//! source next ([`stream::RangedStream::request`]), lends out the buffer a read
//! fills ([`stream::RangedStream::read_buffer`]) and takes the source's answer
//! ([`stream::RangedStream::advance`]). Whoever drives it performs the seek and
//! the reads.

pub mod buffer;
pub mod laws;
pub mod model;
pub mod source;
pub mod stream;
