//! One message at a time on a stream that hands out and takes in bytes
//! piece by piece. The stream's owner moves the bytes: eight bytes that
//! tell the length of a message, then the message. What is here encodes a
//! message and tells those eight bytes, reads a length out of them, and
//! decodes a message once it is all there.
use crate::endian::{le_read_i64, le_signed, u64_to_le_bytes};
use crate::error::Error;
use crate::framing::size_header;
use crate::source::Source;
use crate::traits::{BinProtRead, BinProtWrite};
use vstd::prelude::*;

verus! {

/// The length that the eight bytes in front of a message announce.
pub fn frame_length(header: &[u8; 8]) -> (len: i64)
    ensures
        len == le_signed(header@),
{
    assert(header@.take(8) =~= header@);
    le_read_i64(header.as_slice())
}

/// A buffer that holds one message at a time.
pub struct AsyncBuffer(Vec<u8>);

impl AsyncBuffer {
    /// The bytes of the message in the buffer.
    pub closed spec fn bytes(&self) -> Seq<u8> {
        self.0@
    }

    /// An empty buffer with room for `buf_size` bytes.
    pub fn new(buf_size: usize) -> (b: Self)
        ensures
            b.bytes() == Seq::<u8>::empty(),
    {
        AsyncBuffer(Vec::with_capacity(buf_size))
    }

    /// Replaces the content of the buffer by the encoding of `v`, and
    /// returns the eight bytes to send before it.
    pub fn encode<T: BinProtWrite>(&mut self, v: &T) -> (header: [u8; 8])
        ensures
            final(self).bytes() == v.wire(),
            header@ == size_header(v.wire().len()),
    {
        self.0.clear();
        v.binprot_write(&mut self.0);
        assert(self.0@ =~= v.wire());
        u64_to_le_bytes(self.0.len() as u64)
    }

    /// The message in the buffer.
    pub fn as_slice(&self) -> (s: &[u8])
        ensures
            s@ == self.bytes(),
    {
        self.0.as_slice()
    }

    /// Makes the buffer `len` bytes long, ready to take in a message of
    /// that length: it is cut off there, or filled up with zeros.
    pub fn resize(&mut self, len: usize)
        ensures
            final(self).bytes().len() == len,
            forall|i: int|
                0 <= i < len ==> final(self).bytes()[i] == (if i < old(self).bytes().len() {
                    old(self).bytes()[i]
                } else {
                    0u8
                }),
    {
        let ghost before = self.0@;
        self.0.resize(len, 0u8);
        proof {
            if len > before.len() {
                assert forall|i: int| 0 <= i < before.len() implies self.0@[i] == before[i] by {
                    assert(self.0@.subrange(0, before.len() as int)[i] == before[i]);
                }
            }
        }
    }

    /// The buffer, to be filled with a message.
    pub fn as_mut_slice(&mut self) -> (s: &mut [u8])
        ensures
            s@ == old(self).bytes(),
            final(self).bytes() == final(s)@,
    {
        self.0.as_mut_slice()
    }

    /// Decodes the message in the buffer.
    pub fn decode<T: BinProtRead>(&self) -> (res: Result<T, Error>)
        ensures
            match T::parse(self.bytes()) {
                Ok((m, n)) => res is Ok && res->Ok_0.model() == m && n <= self.bytes().len(),
                Err(e) => res == Err::<T, Error>(e),
            },
    {
        let mut r = Source::new(self.0.as_slice());
        T::binprot_read(&mut r)
    }
}

} // verus!
