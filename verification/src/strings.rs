//! Strings and byte buffers: a length, then that many bytes.
use crate::error::Error;
use crate::integer::{
    lemma_nat0_roundtrip, nat0_wire, parse_nat0, read_nat0, write_nat0, Parsed,
};
use crate::source::Source;
use crate::traits::{BinProtLaws, BinProtRead, BinProtWrite, Val};
use vstd::prelude::*;
use vstd::string::StringSliceAdditionalSpecFns;
use vstd::utf8::{decode_utf8, encode_utf8, valid_utf8};

verus! {

/// A byte buffer. It is written as a string is, and read without the check
/// that a string's bytes undergo.
#[derive(Debug, Clone, PartialEq, Eq)]
pub struct Bytes(pub Vec<u8>);

/// A buffer written as its length, in the form of a natural number, and
/// then its bytes.
#[derive(Debug, Clone, PartialEq, Eq)]
pub struct BufferWithLen(pub Vec<u8>);

impl From<Vec<u8>> for Bytes {
    fn from(v: Vec<u8>) -> (bytes: Self) {
        Bytes(v)
    }
}

impl vstd::std_specs::convert::FromSpecImpl<Vec<u8>> for Bytes {
    open spec fn obeys_from_spec() -> bool {
        true
    }

    open spec fn from_spec(v: Vec<u8>) -> Self {
        Bytes(v)
    }
}

impl From<&str> for Bytes {
    fn from(text: &str) -> (bytes: Self)
        ensures
            bytes.0@ == encode_utf8(text@),
    {
        let mut buf: Vec<u8> = Vec::new();
        buf.extend_from_slice(text.as_bytes());
        assert(buf@ =~= encode_utf8(text@));
        Bytes(buf)
    }
}

impl vstd::std_specs::convert::FromSpecImpl<&str> for Bytes {
    open spec fn obeys_from_spec() -> bool {
        false
    }

    open spec fn from_spec(text: &str) -> Self {
        arbitrary()
    }
}

impl From<String> for Bytes {
    fn from(text: String) -> (bytes: Self)
        ensures
            bytes.0@ == encode_utf8(text@),
    {
        let mut buf: Vec<u8> = Vec::new();
        buf.extend_from_slice(text.as_str().as_bytes());
        assert(buf@ =~= encode_utf8(text@));
        Bytes(buf)
    }
}

impl vstd::std_specs::convert::FromSpecImpl<String> for Bytes {
    open spec fn obeys_from_spec() -> bool {
        false
    }

    open spec fn from_spec(text: String) -> Self {
        arbitrary()
    }
}

/// The encoding of a run of bytes: its length, then the bytes.
pub open spec fn blob_wire(bytes: Seq<u8>) -> Seq<u8> {
    nat0_wire(bytes.len() as u64) + bytes
}

/// What a run of bytes at the front of `s` decodes to. A length that the
/// rest of `s` cannot supply is the error of a source that ended early.
pub open spec fn parse_blob(s: Seq<u8>) -> Parsed<Seq<u8>> {
    match parse_nat0(s) {
        Ok((len, n)) => if s.len() - n < len {
            Err(Error::eof())
        } else {
            Ok((s.subrange(n as int, n + len), n + len as nat))
        },
        Err(e) => Err(e),
    }
}

/// What a string at the front of `s` decodes to.
pub open spec fn parse_string(s: Seq<u8>) -> Parsed<Val> {
    match parse_blob(s) {
        Ok((bytes, n)) => if valid_utf8(bytes) {
            Ok((Val::Str(decode_utf8(bytes)), n))
        } else {
            Err(Error::Utf8Error)
        },
        Err(e) => Err(e),
    }
}

/// What a byte buffer at the front of `s` decodes to.
pub open spec fn parse_bytes(s: Seq<u8>) -> Parsed<Val> {
    match parse_blob(s) {
        Ok((bytes, n)) => Ok((Val::Bytes(bytes), n)),
        Err(e) => Err(e),
    }
}

/// `std::str::from_utf8`: the string that `buf` holds, where `buf` is
/// valid UTF-8, and nothing where it is not.
#[verifier::external_body]
fn str_from_utf8(buf: &[u8]) -> (r: Option<&str>)
    ensures
        r is Some <==> valid_utf8(buf@),
        r is Some ==> r->Some_0.spec_bytes() == buf@,
{
    std::str::from_utf8(buf).ok()
}

/// Appends the length of `bytes` and then `bytes` to `w`.
pub fn write_blob(bytes: &[u8], w: &mut Vec<u8>)
    ensures
        final(w)@ == old(w)@ + blob_wire(bytes@),
{
    write_nat0(w, bytes.len() as u64);
    w.extend_from_slice(bytes);
    assert(w@ =~= old(w)@ + blob_wire(bytes@));
}

/// Reads a length and then that many bytes from the front of `r`.
pub fn read_blob<'a>(r: &mut Source<'a>) -> (res: Result<&'a [u8], Error>)
    ensures
        final(r).all() == old(r).all(),
        match parse_blob(old(r).rest()) {
            Ok((bytes, n)) => {
                &&& res is Ok
                &&& res->Ok_0@ == bytes
                &&& n <= old(r).rest().len()
                &&& final(r).rest() == old(r).rest().skip(n as int)
            },
            Err(e) => res == Err::<&[u8], Error>(e),
        },
{
    let ghost s = r.rest();
    let len: u64 = match read_nat0(r) {
        Ok(len) => len,
        Err(e) => {
            return Err(e);
        },
    };
    let ghost n = parse_nat0(s)->Ok_0.1;
    if len > r.remaining() as u64 {
        return Err(Error::IoError(crate::error::IoErrorKind::UnexpectedEof));
    }
    match r.read_exact(len as usize) {
        Ok(bytes) => {
            assert(bytes@ =~= s.subrange(n as int, n + len));
            assert(r.rest() =~= s.skip((n + len) as int));
            Ok(bytes)
        },
        Err(e) => Err(e),
    }
}

/// Decoding the encoding of a run of bytes gives the bytes back.
pub proof fn lemma_blob_roundtrip(bytes: Seq<u8>, rest: Seq<u8>)
    requires
        bytes.len() <= u64::MAX,
    ensures
        parse_blob(blob_wire(bytes) + rest) == Ok::<(Seq<u8>, nat), Error>(
            (bytes, blob_wire(bytes).len()),
        ),
{
    let len = bytes.len() as u64;
    let s = blob_wire(bytes) + rest;
    lemma_nat0_roundtrip(len, bytes + rest);
    assert(s =~= nat0_wire(len) + (bytes + rest));
    let n = nat0_wire(len).len();
    assert(s.subrange(n as int, n + len) =~= bytes);
}

impl BinProtWrite for String {
    open spec fn wire(&self) -> Seq<u8> {
        blob_wire(encode_utf8(self@))
    }

    fn binprot_write(&self, w: &mut Vec<u8>) {
        write_blob(self.as_str().as_bytes(), w)
    }
}

impl BinProtWrite for &str {
    open spec fn wire(&self) -> Seq<u8> {
        blob_wire(encode_utf8(self@))
    }

    fn binprot_write(&self, w: &mut Vec<u8>) {
        write_blob(self.as_bytes(), w)
    }
}

impl BinProtRead for String {
    open spec fn model(&self) -> Val {
        Val::Str(self@)
    }

    open spec fn parse(s: Seq<u8>) -> Parsed<Val> {
        parse_string(s)
    }

    fn binprot_read(r: &mut Source) -> (res: Result<Self, Error>) {
        let bytes = match read_blob(r) {
            Ok(bytes) => bytes,
            Err(e) => {
                return Err(e);
            },
        };
        match str_from_utf8(bytes) {
            Some(text) => {
                proof {
                    vstd::utf8::encode_utf8_decode_utf8(text@);
                }
                Ok(text.to_owned())
            },
            None => Err(Error::Utf8Error),
        }
    }
}

impl BinProtLaws for String {
    open spec fn encodable(&self) -> bool {
        encode_utf8(self@).len() <= u64::MAX
    }

    proof fn lemma_roundtrip(&self, rest: Seq<u8>) {
        lemma_blob_roundtrip(encode_utf8(self@), rest);
        vstd::utf8::encode_utf8_valid_utf8(self@);
        vstd::utf8::encode_utf8_decode_utf8(self@);
    }
}

impl BinProtWrite for Bytes {
    open spec fn wire(&self) -> Seq<u8> {
        blob_wire(self.0@)
    }

    fn binprot_write(&self, w: &mut Vec<u8>) {
        write_blob(self.0.as_slice(), w)
    }
}

impl BinProtRead for Bytes {
    open spec fn model(&self) -> Val {
        Val::Bytes(self.0@)
    }

    open spec fn parse(s: Seq<u8>) -> Parsed<Val> {
        parse_bytes(s)
    }

    fn binprot_read(r: &mut Source) -> (res: Result<Self, Error>) {
        match read_blob(r) {
            Ok(bytes) => {
                let mut buf: Vec<u8> = Vec::new();
                buf.extend_from_slice(bytes);
                assert(buf@ =~= bytes@);
                Ok(Bytes(buf))
            },
            Err(e) => Err(e),
        }
    }
}

impl BinProtLaws for Bytes {
    open spec fn encodable(&self) -> bool {
        true
    }

    proof fn lemma_roundtrip(&self, rest: Seq<u8>) {
        assert(self.0@.len() == self.0.len());
        lemma_blob_roundtrip(self.0@, rest);
    }
}

impl BinProtWrite for BufferWithLen {
    open spec fn wire(&self) -> Seq<u8> {
        blob_wire(self.0@)
    }

    fn binprot_write(&self, w: &mut Vec<u8>) {
        write_blob(self.0.as_slice(), w)
    }
}

impl BinProtRead for BufferWithLen {
    open spec fn model(&self) -> Val {
        Val::Bytes(self.0@)
    }

    open spec fn parse(s: Seq<u8>) -> Parsed<Val> {
        parse_bytes(s)
    }

    fn binprot_read(r: &mut Source) -> (res: Result<Self, Error>) {
        match read_blob(r) {
            Ok(bytes) => {
                let mut buf: Vec<u8> = Vec::new();
                buf.extend_from_slice(bytes);
                assert(buf@ =~= bytes@);
                Ok(BufferWithLen(buf))
            },
            Err(e) => Err(e),
        }
    }
}

impl BinProtLaws for BufferWithLen {
    open spec fn encodable(&self) -> bool {
        true
    }

    proof fn lemma_roundtrip(&self, rest: Seq<u8>) {
        assert(self.0@.len() == self.0.len());
        lemma_blob_roundtrip(self.0@, rest);
    }
}

} // verus!
