//! Values that travel with their length in front.
//!
//! Inside a message, `WithLen` puts the length in the form of a natural
//! number. Between messages on a stream, the length is eight bytes, low
//! byte first. A reader takes the length as advice: it decodes the value
//! and goes no further than the value does.
use crate::endian::{le_bytes, u64_to_le_bytes};
use crate::error::Error;
use crate::integer::{lemma_nat0_roundtrip, nat0_wire, parse_nat0, read_nat0, write_nat0, Parsed};
use crate::source::Source;
use crate::traits::{BinProtLaws, BinProtRead, BinProtSize, BinProtWrite, Val};
use vstd::prelude::*;

verus! {

/// A value written behind its own size, the size as a natural number.
#[derive(Debug, Clone, PartialEq, Eq)]
pub struct WithLen<T>(pub T);

/// What `parsed` becomes when `shift` bytes were taken before it.
pub open spec fn shifted(parsed: Parsed<Val>, shift: nat) -> Parsed<Val> {
    match parsed {
        Ok((m, n)) => Ok((m, shift + n)),
        Err(e) => Err(e),
    }
}

/// The eight bytes that announce a message of `len` bytes on a stream.
pub open spec fn size_header(len: nat) -> Seq<u8> {
    le_bytes(len as int, 8)
}

/// What a value of type `T` behind an eight-byte length decodes to.
pub open spec fn parse_with_size<T: BinProtRead>(s: Seq<u8>) -> Parsed<Val> {
    if s.len() < 8 {
        Err(Error::eof())
    } else {
        shifted(T::parse(s.skip(8)), 8)
    }
}

impl<T: BinProtWrite> BinProtWrite for WithLen<T> {
    open spec fn wire(&self) -> Seq<u8> {
        nat0_wire(self.0.wire().len() as u64) + self.0.wire()
    }

    fn binprot_write(&self, w: &mut Vec<u8>) {
        let len: usize = self.0.binprot_size();
        write_nat0(w, len as u64);
        self.0.binprot_write(w);
        assert(w@ =~= old(w)@ + self.wire());
    }
}

impl<T: BinProtRead> BinProtRead for WithLen<T> {
    open spec fn model(&self) -> Val {
        self.0.model()
    }

    open spec fn parse(s: Seq<u8>) -> Parsed<Val> {
        match parse_nat0(s) {
            Ok((_len, n)) => shifted(T::parse(s.skip(n as int)), n),
            Err(e) => Err(e),
        }
    }

    fn binprot_read(r: &mut Source) -> (res: Result<Self, Error>) {
        let ghost s = r.rest();
        match read_nat0(r) {
            Ok(_len) => match T::binprot_read(r) {
                Ok(v) => {
                    proof {
                        let n = parse_nat0(s)->Ok_0.1;
                        let k = T::parse(s.skip(n as int))->Ok_0.1;
                        assert(s.skip(n as int).skip(k as int) =~= s.skip((n + k) as int));
                    }
                    Ok(WithLen(v))
                },
                Err(e) => Err(e),
            },
            Err(e) => Err(e),
        }
    }
}

impl<T: BinProtLaws> BinProtLaws for WithLen<T> {
    open spec fn encodable(&self) -> bool {
        self.0.encodable()
    }

    proof fn lemma_roundtrip(&self, rest: Seq<u8>) {
        let len = self.0.wire().len() as u64;
        let s = self.wire() + rest;
        lemma_nat0_roundtrip(len, self.0.wire() + rest);
        assert(s =~= nat0_wire(len) + (self.0.wire() + rest));
        assert(s.skip(nat0_wire(len).len() as int) =~= self.0.wire() + rest);
        self.0.lemma_roundtrip(rest);
    }
}

/// Appends to `w` the size of the encoding of `b`, in eight bytes, and
/// then the encoding.
pub fn binprot_write_with_size<B: BinProtWrite>(b: &B, w: &mut Vec<u8>)
    ensures
        final(w)@ == old(w)@ + size_header(b.wire().len()) + b.wire(),
{
    let len: usize = b.binprot_size();
    let header = u64_to_le_bytes(len as u64);
    w.extend_from_slice(header.as_slice());
    b.binprot_write(w);
    assert(w@ =~= old(w)@ + size_header(b.wire().len()) + b.wire());
}

/// Reads an eight-byte length, which it does not use, and then a value.
pub fn binprot_read_with_size<B: BinProtRead>(r: &mut Source) -> (res: Result<B, Error>)
    ensures
        final(r).all() == old(r).all(),
        match parse_with_size::<B>(old(r).rest()) {
            Ok((m, n)) => {
                &&& res is Ok
                &&& res->Ok_0.model() == m
                &&& n <= old(r).rest().len()
                &&& final(r).rest() == old(r).rest().skip(n as int)
            },
            Err(e) => res == Err::<B, Error>(e),
        },
{
    let ghost s = r.rest();
    match r.read_exact(8) {
        Ok(_len) => match B::binprot_read(r) {
            Ok(v) => {
                proof {
                    let k = B::parse(s.skip(8))->Ok_0.1;
                    assert(s.skip(8).skip(k as int) =~= s.skip((8 + k) as int));
                }
                Ok(v)
            },
            Err(e) => Err(e),
        },
        Err(e) => Err(e),
    }
}

/// A message written with its size in front is read back whole.
pub proof fn lemma_with_size_roundtrip<B: BinProtLaws>(b: &B, rest: Seq<u8>)
    requires
        b.encodable(),
    ensures
        parse_with_size::<B>(size_header(b.wire().len()) + b.wire() + rest) == Ok::<
            (Val, nat),
            Error,
        >((b.model(), 8 + b.wire().len())),
{
    let s = size_header(b.wire().len()) + b.wire() + rest;
    assert(s.skip(8) =~= b.wire() + rest);
    b.lemma_roundtrip(rest);
}

} // verus!
