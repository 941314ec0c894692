//! The chunk buffers, which are those of the `bytes` crate.
//!
//! Nothing in this file is proved about `bytes` itself: the contracts below
//! say what its source shows, and the rest of the library is verified against
//! them.

use vstd::prelude::*;

verus! {

/// Capacity of the buffer that one read fills, and so the largest chunk.
pub const IO_BUFFER_SIZE: usize = 64 * 1024;

/// `bytes::BytesMut`, the growable buffer a read fills. Opaque here.
#[verifier::external_type_specification]
#[verifier::external_body]
pub struct ExBytesMut(bytes::BytesMut);

/// `bytes::Bytes`, the immutable chunk handed to the consumer. Opaque here.
#[verifier::external_type_specification]
#[verifier::external_body]
pub struct ExBytes(bytes::Bytes);

/// The bytes a `BytesMut` holds, in order: what it dereferences to.
pub uninterp spec fn buffer_bytes(buffer: bytes::BytesMut) -> Seq<u8>;

/// The bytes a `Bytes` holds, in order: what it dereferences to.
pub uninterp spec fn chunk_bytes(chunk: bytes::Bytes) -> Seq<u8>;

/// The number of bytes a `BytesMut` can hold without reallocating, those it
/// holds already among them: what `BytesMut::capacity` reads.
pub uninterp spec fn buffer_room(buffer: bytes::BytesMut) -> nat;

/// `BytesMut::with_capacity` wraps a `Vec::with_capacity(capacity)`, so the
/// buffer it returns holds no bytes and has room for at least `capacity` of
/// them: it may have more, never less. `Vec::with_capacity` panics when asked
/// for more than `isize::MAX` bytes, which the precondition leaves out.
pub assume_specification[ bytes::BytesMut::with_capacity ](capacity: usize) -> (buffer:
    bytes::BytesMut)
    requires
        capacity <= isize::MAX,
    ensures
        buffer_bytes(buffer) == Seq::<u8>::empty(),
        buffer_room(buffer) >= capacity,
;

/// `BytesMut::capacity` returns the number of bytes the buffer can hold
/// without reallocating.
pub assume_specification[ bytes::BytesMut::capacity ](buffer: &bytes::BytesMut) -> (room: usize)
    ensures
        room == buffer_room(*buffer),
;

/// `BytesMut::len` returns the number of bytes the buffer holds.
pub assume_specification[ bytes::BytesMut::len ](buffer: &bytes::BytesMut) -> (len: usize)
    ensures
        len == buffer_bytes(*buffer).len(),
;

/// `BytesMut::freeze` turns the buffer into a `Bytes` over the same bytes,
/// without copying them.
pub assume_specification[ bytes::BytesMut::freeze ](buffer: bytes::BytesMut) -> (chunk:
    bytes::Bytes)
    ensures
        chunk_bytes(chunk) == buffer_bytes(buffer),
;

/// A fresh, empty buffer with room for one read.
pub fn allocate_buffer() -> (buffer: bytes::BytesMut)
    ensures
        buffer_bytes(buffer) == Seq::<u8>::empty(),
        buffer_room(buffer) >= IO_BUFFER_SIZE,
{
    bytes::BytesMut::with_capacity(IO_BUFFER_SIZE)
}

} // verus!
