//! Encoders and decoders of the built-in types.
use crate::endian::{
    le_bytes, le_read_u64, le_value, lemma_le_value_of_bytes, lemma_pow256, u64_to_le_bytes,
};
use crate::error::Error;
use crate::integer::{
    i64_wire, lemma_i64_roundtrip, lemma_nat0_roundtrip, nat0_wire, parse_nat0, parse_signed,
    read_nat0, read_signed, write_i64, write_nat0, Parsed,
};
use crate::source::Source;
use crate::traits::{BinProtLaws, BinProtRead, BinProtWrite, Val};
use vstd::prelude::*;

verus! {

/// A natural number, written in the format's form for natural numbers.
#[derive(Debug, Clone, PartialEq, Eq, Copy, Structural)]
pub struct Nat0(pub u64);

impl BinProtWrite for Nat0 {
    open spec fn wire(&self) -> Seq<u8> {
        nat0_wire(self.0)
    }

    fn binprot_write(&self, w: &mut Vec<u8>) {
        write_nat0(w, self.0)
    }
}

impl BinProtRead for Nat0 {
    open spec fn model(&self) -> Val {
        Val::Int(self.0 as int)
    }

    open spec fn parse(s: Seq<u8>) -> Parsed<Val> {
        match parse_nat0(s) {
            Ok((v, n)) => Ok((Val::Int(v as int), n)),
            Err(e) => Err(e),
        }
    }

    fn binprot_read(r: &mut Source) -> (res: Result<Self, Error>) {
        match read_nat0(r) {
            Ok(v) => Ok(Nat0(v)),
            Err(e) => Err(e),
        }
    }
}

impl BinProtLaws for Nat0 {
    open spec fn encodable(&self) -> bool {
        true
    }

    proof fn lemma_roundtrip(&self, rest: Seq<u8>) {
        lemma_nat0_roundtrip(self.0, rest);
    }
}

impl BinProtWrite for i64 {
    open spec fn wire(&self) -> Seq<u8> {
        i64_wire(*self)
    }

    fn binprot_write(&self, w: &mut Vec<u8>) {
        write_i64(w, *self)
    }
}

impl BinProtRead for i64 {
    open spec fn model(&self) -> Val {
        Val::Int(*self as int)
    }

    open spec fn parse(s: Seq<u8>) -> Parsed<Val> {
        match parse_signed(s) {
            Ok((v, n)) => Ok((Val::Int(v as int), n)),
            Err(e) => Err(e),
        }
    }

    fn binprot_read(r: &mut Source) -> (res: Result<Self, Error>) {
        read_signed(r)
    }
}

impl BinProtLaws for i64 {
    open spec fn encodable(&self) -> bool {
        true
    }

    proof fn lemma_roundtrip(&self, rest: Seq<u8>) {
        lemma_i64_roundtrip(*self, rest);
    }
}

impl BinProtWrite for () {
    open spec fn wire(&self) -> Seq<u8> {
        seq![0u8]
    }

    fn binprot_write(&self, w: &mut Vec<u8>) {
        w.push(0u8);
    }
}

impl BinProtRead for () {
    open spec fn model(&self) -> Val {
        Val::Unit
    }

    open spec fn parse(s: Seq<u8>) -> Parsed<Val> {
        if s.len() == 0 {
            Err(Error::eof())
        } else if s[0] == 0 {
            Ok((Val::Unit, 1))
        } else {
            Err(Error::UnexpectedValueForUnit(s[0]))
        }
    }

    fn binprot_read(r: &mut Source) -> (res: Result<Self, Error>) {
        match r.read_u8() {
            Ok(c) => if c == 0 {
                Ok(())
            } else {
                Err(Error::UnexpectedValueForUnit(c))
            },
            Err(e) => Err(e),
        }
    }
}

impl BinProtLaws for () {
    open spec fn encodable(&self) -> bool {
        true
    }

    proof fn lemma_roundtrip(&self, rest: Seq<u8>) {
    }
}

impl BinProtWrite for bool {
    open spec fn wire(&self) -> Seq<u8> {
        if *self {
            seq![1u8]
        } else {
            seq![0u8]
        }
    }

    fn binprot_write(&self, w: &mut Vec<u8>) {
        let b: u8 = if *self {
            1
        } else {
            0
        };
        w.push(b);
    }
}

impl BinProtRead for bool {
    open spec fn model(&self) -> Val {
        Val::Bool(*self)
    }

    open spec fn parse(s: Seq<u8>) -> Parsed<Val> {
        if s.len() == 0 {
            Err(Error::eof())
        } else if s[0] == 0 {
            Ok((Val::Bool(false), 1))
        } else if s[0] == 1 {
            Ok((Val::Bool(true), 1))
        } else {
            Err(Error::UnexpectedValueForBool(s[0]))
        }
    }

    fn binprot_read(r: &mut Source) -> (res: Result<Self, Error>) {
        match r.read_u8() {
            Ok(c) => if c == 0 {
                Ok(false)
            } else if c == 1 {
                Ok(true)
            } else {
                Err(Error::UnexpectedValueForBool(c))
            },
            Err(e) => Err(e),
        }
    }
}

impl BinProtLaws for bool {
    open spec fn encodable(&self) -> bool {
        true
    }

    proof fn lemma_roundtrip(&self, rest: Seq<u8>) {
    }
}

/// The content of an optional value.
pub open spec fn opt_model<T: BinProtRead>(o: Option<T>) -> Val {
    match o {
        None => Val::Opt(None),
        Some(v) => Val::Opt(Some(Box::new(v.model()))),
    }
}

impl<T: BinProtWrite> BinProtWrite for Option<T> {
    open spec fn wire(&self) -> Seq<u8> {
        match self {
            None => seq![0u8],
            Some(v) => seq![1u8] + v.wire(),
        }
    }

    fn binprot_write(&self, w: &mut Vec<u8>) {
        match self {
            None => {
                w.push(0u8);
            },
            Some(v) => {
                w.push(1u8);
                v.binprot_write(w);
                assert(w@ =~= old(w)@ + (seq![1u8] + v.wire()));
            },
        }
    }
}

impl<T: BinProtRead> BinProtRead for Option<T> {
    open spec fn model(&self) -> Val {
        opt_model(*self)
    }

    open spec fn parse(s: Seq<u8>) -> Parsed<Val> {
        if s.len() == 0 {
            Err(Error::eof())
        } else if s[0] == 0 {
            Ok((Val::Opt(None), 1))
        } else if s[0] == 1 {
            match T::parse(s.skip(1)) {
                Ok((m, n)) => Ok((Val::Opt(Some(Box::new(m))), n + 1)),
                Err(e) => Err(e),
            }
        } else {
            Err(Error::UnexpectedValueForOption(s[0]))
        }
    }

    fn binprot_read(r: &mut Source) -> (res: Result<Self, Error>) {
        let ghost s = r.rest();
        match r.read_u8() {
            Ok(c) => if c == 0 {
                Ok(None)
            } else if c == 1 {
                match T::binprot_read(r) {
                    Ok(v) => {
                        proof {
                            let n = T::parse(s.skip(1))->Ok_0.1;
                            assert(s.skip(1).skip(n as int) =~= s.skip(n as int + 1));
                        }
                        Ok(Some(v))
                    },
                    Err(e) => Err(e),
                }
            } else {
                Err(Error::UnexpectedValueForOption(c))
            },
            Err(e) => Err(e),
        }
    }
}

impl<T: BinProtLaws> BinProtLaws for Option<T> {
    open spec fn encodable(&self) -> bool {
        match self {
            None => true,
            Some(v) => v.encodable(),
        }
    }

    proof fn lemma_roundtrip(&self, rest: Seq<u8>) {
        match self {
            None => {},
            Some(v) => {
                v.lemma_roundtrip(rest);
                assert((self.wire() + rest).skip(1) =~= v.wire() + rest);
            },
        }
    }
}

impl<T: BinProtWrite> BinProtWrite for Box<T> {
    open spec fn wire(&self) -> Seq<u8> {
        (**self).wire()
    }

    fn binprot_write(&self, w: &mut Vec<u8>) {
        (**self).binprot_write(w)
    }
}

impl<T: BinProtRead> BinProtRead for Box<T> {
    open spec fn model(&self) -> Val {
        (**self).model()
    }

    open spec fn parse(s: Seq<u8>) -> Parsed<Val> {
        T::parse(s)
    }

    fn binprot_read(r: &mut Source) -> (res: Result<Self, Error>) {
        match T::binprot_read(r) {
            Ok(v) => Ok(Box::new(v)),
            Err(e) => Err(e),
        }
    }
}

impl<T: BinProtLaws> BinProtLaws for Box<T> {
    open spec fn encodable(&self) -> bool {
        (**self).encodable()
    }

    proof fn lemma_roundtrip(&self, rest: Seq<u8>) {
        (**self).lemma_roundtrip(rest);
    }
}


/// A 64-bit float, held by the bits of its IEEE-754 form. It is written as
/// those eight bytes, low byte first.
#[derive(Debug, Clone, PartialEq, Eq, Copy, Structural)]
pub struct Float64(pub u64);

impl BinProtWrite for Float64 {
    open spec fn wire(&self) -> Seq<u8> {
        le_bytes(self.0 as int, 8)
    }

    fn binprot_write(&self, w: &mut Vec<u8>) {
        let bytes = u64_to_le_bytes(self.0);
        w.extend_from_slice(bytes.as_slice());
        assert(w@ =~= old(w)@ + self.wire());
    }
}

impl BinProtRead for Float64 {
    open spec fn model(&self) -> Val {
        Val::Int(self.0 as int)
    }

    open spec fn parse(s: Seq<u8>) -> Parsed<Val> {
        if s.len() < 8 {
            Err(Error::eof())
        } else {
            Ok((Val::Int(le_value(s.take(8))), 8))
        }
    }

    fn binprot_read(r: &mut Source) -> (res: Result<Self, Error>) {
        match r.read_exact(8) {
            Ok(bytes) => {
                assert(bytes@.take(8) =~= bytes@);
                Ok(Float64(le_read_u64(bytes)))
            },
            Err(e) => Err(e),
        }
    }
}

impl BinProtLaws for Float64 {
    open spec fn encodable(&self) -> bool {
        true
    }

    proof fn lemma_roundtrip(&self, rest: Seq<u8>) {
        lemma_pow256();
        lemma_le_value_of_bytes(self.0 as int, 8);
        assert((self.wire() + rest).take(8) =~= self.wire());
    }
}

/// What a signed number at the front of `s` decodes to, where only the
/// numbers from `lo` to `hi` are wanted: any other is a conversion error.
pub open spec fn parse_ranged(s: Seq<u8>, lo: int, hi: int) -> Parsed<Val> {
    match parse_signed(s) {
        Ok((v, n)) => if lo <= v <= hi {
            Ok((Val::Int(v as int), n))
        } else {
            Err(Error::TryFromIntError)
        },
        Err(e) => Err(e),
    }
}

/// Decodes a signed number and checks that it lies between `lo` and `hi`.
pub fn read_ranged(r: &mut Source, lo: i64, hi: i64) -> (res: Result<i64, Error>)
    ensures
        final(r).all() == old(r).all(),
        match parse_ranged(old(r).rest(), lo as int, hi as int) {
            Ok((m, n)) => {
                &&& res is Ok
                &&& Val::Int(res->Ok_0 as int) == m
                &&& lo <= res->Ok_0 <= hi
                &&& n <= old(r).rest().len()
                &&& final(r).rest() == old(r).rest().skip(n as int)
            },
            Err(e) => res == Err::<i64, Error>(e),
        },
{
    match read_signed(r) {
        Ok(v) => if lo <= v && v <= hi {
            Ok(v)
        } else {
            Err(Error::TryFromIntError)
        },
        Err(e) => Err(e),
    }
}

impl BinProtWrite for i32 {
    open spec fn wire(&self) -> Seq<u8> {
        i64_wire(*self as i64)
    }

    fn binprot_write(&self, w: &mut Vec<u8>) {
        write_i64(w, *self as i64)
    }
}

impl BinProtRead for i32 {
    open spec fn model(&self) -> Val {
        Val::Int(*self as int)
    }

    open spec fn parse(s: Seq<u8>) -> Parsed<Val> {
        parse_ranged(s, -0x8000_0000, 0x7fff_ffff)
    }

    fn binprot_read(r: &mut Source) -> (res: Result<Self, Error>) {
        match read_ranged(r, -0x8000_0000, 0x7fff_ffff) {
            Ok(v) => Ok(v as i32),
            Err(e) => Err(e),
        }
    }
}

impl BinProtLaws for i32 {
    open spec fn encodable(&self) -> bool {
        true
    }

    proof fn lemma_roundtrip(&self, rest: Seq<u8>) {
        lemma_i64_roundtrip(*self as i64, rest);
    }
}

impl BinProtWrite for u32 {
    open spec fn wire(&self) -> Seq<u8> {
        i64_wire(*self as i64)
    }

    fn binprot_write(&self, w: &mut Vec<u8>) {
        write_i64(w, *self as i64)
    }
}

impl BinProtRead for u32 {
    open spec fn model(&self) -> Val {
        Val::Int(*self as int)
    }

    open spec fn parse(s: Seq<u8>) -> Parsed<Val> {
        parse_ranged(s, 0, 0xffff_ffff)
    }

    fn binprot_read(r: &mut Source) -> (res: Result<Self, Error>) {
        match read_ranged(r, 0, 0xffff_ffff) {
            Ok(v) => Ok(v as u32),
            Err(e) => Err(e),
        }
    }
}

impl BinProtLaws for u32 {
    open spec fn encodable(&self) -> bool {
        true
    }

    proof fn lemma_roundtrip(&self, rest: Seq<u8>) {
        lemma_i64_roundtrip(*self as i64, rest);
    }
}

impl BinProtWrite for i16 {
    open spec fn wire(&self) -> Seq<u8> {
        i64_wire(*self as i64)
    }

    fn binprot_write(&self, w: &mut Vec<u8>) {
        write_i64(w, *self as i64)
    }
}

impl BinProtRead for i16 {
    open spec fn model(&self) -> Val {
        Val::Int(*self as int)
    }

    open spec fn parse(s: Seq<u8>) -> Parsed<Val> {
        parse_ranged(s, -0x8000, 0x7fff)
    }

    fn binprot_read(r: &mut Source) -> (res: Result<Self, Error>) {
        match read_ranged(r, -0x8000, 0x7fff) {
            Ok(v) => Ok(v as i16),
            Err(e) => Err(e),
        }
    }
}

impl BinProtLaws for i16 {
    open spec fn encodable(&self) -> bool {
        true
    }

    proof fn lemma_roundtrip(&self, rest: Seq<u8>) {
        lemma_i64_roundtrip(*self as i64, rest);
    }
}

impl BinProtWrite for u16 {
    open spec fn wire(&self) -> Seq<u8> {
        i64_wire(*self as i64)
    }

    fn binprot_write(&self, w: &mut Vec<u8>) {
        write_i64(w, *self as i64)
    }
}

impl BinProtRead for u16 {
    open spec fn model(&self) -> Val {
        Val::Int(*self as int)
    }

    open spec fn parse(s: Seq<u8>) -> Parsed<Val> {
        parse_ranged(s, 0, 0xffff)
    }

    fn binprot_read(r: &mut Source) -> (res: Result<Self, Error>) {
        match read_ranged(r, 0, 0xffff) {
            Ok(v) => Ok(v as u16),
            Err(e) => Err(e),
        }
    }
}

impl BinProtLaws for u16 {
    open spec fn encodable(&self) -> bool {
        true
    }

    proof fn lemma_roundtrip(&self, rest: Seq<u8>) {
        lemma_i64_roundtrip(*self as i64, rest);
    }
}

impl BinProtWrite for i8 {
    open spec fn wire(&self) -> Seq<u8> {
        i64_wire(*self as i64)
    }

    fn binprot_write(&self, w: &mut Vec<u8>) {
        write_i64(w, *self as i64)
    }
}

impl BinProtRead for i8 {
    open spec fn model(&self) -> Val {
        Val::Int(*self as int)
    }

    open spec fn parse(s: Seq<u8>) -> Parsed<Val> {
        parse_ranged(s, -0x80, 0x7f)
    }

    fn binprot_read(r: &mut Source) -> (res: Result<Self, Error>) {
        match read_ranged(r, -0x80, 0x7f) {
            Ok(v) => Ok(v as i8),
            Err(e) => Err(e),
        }
    }
}

impl BinProtLaws for i8 {
    open spec fn encodable(&self) -> bool {
        true
    }

    proof fn lemma_roundtrip(&self, rest: Seq<u8>) {
        lemma_i64_roundtrip(*self as i64, rest);
    }
}

impl BinProtWrite for u8 {
    open spec fn wire(&self) -> Seq<u8> {
        i64_wire(*self as i64)
    }

    fn binprot_write(&self, w: &mut Vec<u8>) {
        write_i64(w, *self as i64)
    }
}

impl BinProtRead for u8 {
    open spec fn model(&self) -> Val {
        Val::Int(*self as int)
    }

    open spec fn parse(s: Seq<u8>) -> Parsed<Val> {
        parse_ranged(s, 0, 0xff)
    }

    fn binprot_read(r: &mut Source) -> (res: Result<Self, Error>) {
        match read_ranged(r, 0, 0xff) {
            Ok(v) => Ok(v as u8),
            Err(e) => Err(e),
        }
    }
}

impl BinProtLaws for u8 {
    open spec fn encodable(&self) -> bool {
        true
    }

    proof fn lemma_roundtrip(&self, rest: Seq<u8>) {
        lemma_i64_roundtrip(*self as i64, rest);
    }
}

} // verus!
