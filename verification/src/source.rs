//! A byte source: a slice and a position in it.
use crate::error::{Error, IoErrorKind};
use vstd::prelude::*;
use vstd::slice::slice_subrange;

verus! {

/// Bytes to decode from, read front to back.
pub struct Source<'a> {
    data: &'a [u8],
    pos: usize,
}

impl<'a> Source<'a> {
    /// The position never passes the end of the data.
    #[verifier::type_invariant]
    spec fn inv(&self) -> bool {
        self.pos <= self.data@.len()
    }

    /// The bytes that have not been read yet.
    pub closed spec fn rest(&self) -> Seq<u8> {
        self.data@.skip(self.pos as int)
    }

    /// All the bytes, read or not.
    pub closed spec fn all(&self) -> Seq<u8> {
        self.data@
    }

    /// A source that will yield `data` from its first byte.
    pub fn new(data: &'a [u8]) -> (r: Self)
        ensures
            r.rest() == data@,
            r.all() == data@,
    {
        Source { data, pos: 0 }
    }

    /// How many bytes are left.
    pub fn remaining(&self) -> (n: usize)
        ensures
            n == self.rest().len(),
    {
        proof {
            use_type_invariant(self);
        }
        self.data.len() - self.pos
    }

    /// How many bytes have been read.
    pub fn position(&self) -> (n: usize)
        ensures
            n + self.rest().len() == self.all().len(),
            self.rest() == self.all().skip(n as int),
    {
        proof {
            use_type_invariant(self);
        }
        self.pos
    }

    /// Takes one byte, or fails at the end of the data.
    pub fn read_u8(&mut self) -> (r: Result<u8, Error>)
        ensures
            final(self).all() == old(self).all(),
            match r {
                Ok(b) => {
                    &&& old(self).rest().len() > 0
                    &&& b == old(self).rest()[0]
                    &&& final(self).rest() == old(self).rest().skip(1)
                },
                Err(e) => {
                    &&& old(self).rest().len() == 0
                    &&& e == Error::eof()
                    &&& final(self).rest() == old(self).rest()
                },
            },
    {
        proof {
            use_type_invariant(&*self);
        }
        if self.pos < self.data.len() {
            let b: u8 = self.data[self.pos];
            self.pos = self.pos + 1;
            assert(self.data@.skip(self.pos as int) =~= self.data@.skip(self.pos - 1).skip(1));
            Ok(b)
        } else {
            Err(Error::IoError(IoErrorKind::UnexpectedEof))
        }
    }

    /// Takes the next `n` bytes, or fails (reading nothing) where fewer are left.
    pub fn read_exact(&mut self, n: usize) -> (r: Result<&'a [u8], Error>)
        ensures
            final(self).all() == old(self).all(),
            match r {
                Ok(bytes) => {
                    &&& n <= old(self).rest().len()
                    &&& bytes@ == old(self).rest().take(n as int)
                    &&& final(self).rest() == old(self).rest().skip(n as int)
                },
                Err(e) => {
                    &&& n > old(self).rest().len()
                    &&& e == Error::eof()
                    &&& final(self).rest() == old(self).rest()
                },
            },
    {
        proof {
            use_type_invariant(&*self);
        }
        if n <= self.data.len() - self.pos {
            let start: usize = self.pos;
            let bytes = slice_subrange(self.data, start, start + n);
            self.pos = start + n;
            assert(bytes@ =~= self.data@.skip(start as int).take(n as int));
            assert(self.data@.skip(self.pos as int) =~= self.data@.skip(start as int).skip(
                n as int,
            ));
            Ok(bytes)
        } else {
            Err(Error::IoError(IoErrorKind::UnexpectedEof))
        }
    }
}

} // verus!
