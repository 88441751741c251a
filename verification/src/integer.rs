//! The variable-length integer codec.
//!
//! A small number is its own single byte. Anything else is a tag byte that
//! names a width, followed by the number in that width, low byte first.
use crate::endian::{
    i64_to_le_bytes, le_bytes, le_read_i16, le_read_i32, le_read_i64, le_read_u16, le_read_u32,
    le_read_u64, le_signed, le_value, lemma_le_value_bound, lemma_le_value_of_bytes,
    lemma_pow256, u16_to_le_bytes, u32_to_le_bytes, u64_to_le_bytes,
};
use crate::error::{Error, IoErrorKind};
use crate::source::Source;
use vstd::prelude::*;
use vstd::slice::slice_subrange;

verus! {

/// Tag of a negative number that fits one byte.
pub const CODE_NEG_INT8: u8 = 0xff;

/// Tag of a 16-bit number.
pub const CODE_INT16: u8 = 0xfe;

/// Tag of a 32-bit number.
pub const CODE_INT32: u8 = 0xfd;

/// Tag of a 64-bit number.
pub const CODE_INT64: u8 = 0xfc;

/// What decoding the front of a byte string gives: the value and the number
/// of bytes it took, or the error.
pub type Parsed<T> = Result<(T, nat), Error>;

/// The encoding of the natural number `v`.
pub open spec fn nat0_wire(v: u64) -> Seq<u8> {
    if v < 0x80 {
        seq![v as u8]
    } else if v < 0x1_0000 {
        seq![CODE_INT16] + le_bytes(v as int, 2)
    } else if v < 0x1_0000_0000 {
        seq![CODE_INT32] + le_bytes(v as int, 4)
    } else {
        seq![CODE_INT64] + le_bytes(v as int, 8)
    }
}

/// The encoding of the signed number `v`.
pub open spec fn i64_wire(v: i64) -> Seq<u8> {
    if 0 <= v < 0x80 {
        seq![v as u8]
    } else if -0x80 <= v < 0 {
        seq![CODE_NEG_INT8] + le_bytes(v as int, 1)
    } else if -0x8000 <= v < 0x8000 {
        seq![CODE_INT16] + le_bytes(v as int, 2)
    } else if -0x8000_0000 <= v < 0x8000_0000 {
        seq![CODE_INT32] + le_bytes(v as int, 4)
    } else {
        seq![CODE_INT64] + le_bytes(v as int, 8)
    }
}

/// The number in `width` bytes that follows a tag at the front of `s`, read
/// as a natural number.
pub open spec fn tagged_value(s: Seq<u8>, width: nat) -> Parsed<u64> {
    if s.len() < 1 + width {
        Err(Error::eof())
    } else {
        Ok((le_value(s.subrange(1, 1 + width as int)) as u64, 1 + width))
    }
}

/// The number in `width` bytes that follows a tag at the front of `s`, read
/// in two's complement.
pub open spec fn tagged_signed(s: Seq<u8>, width: nat) -> Parsed<i64> {
    if s.len() < 1 + width {
        Err(Error::eof())
    } else {
        Ok((le_signed(s.subrange(1, 1 + width as int)) as i64, 1 + width))
    }
}

/// What a natural number at the front of `s` decodes to. The tag of a
/// negative byte is no natural number.
pub open spec fn parse_nat0(s: Seq<u8>) -> Parsed<u64> {
    if s.len() == 0 {
        Err(Error::eof())
    } else if s[0] == CODE_NEG_INT8 {
        Err(Error::invalid())
    } else if s[0] == CODE_INT16 {
        tagged_value(s, 2)
    } else if s[0] == CODE_INT32 {
        tagged_value(s, 4)
    } else if s[0] == CODE_INT64 {
        tagged_value(s, 8)
    } else {
        Ok((s[0] as u64, 1))
    }
}

/// What a signed number at the front of `s` decodes to. After the tag of a
/// negative byte, a byte that is not negative is invalid.
pub open spec fn parse_signed(s: Seq<u8>) -> Parsed<i64> {
    if s.len() == 0 {
        Err(Error::eof())
    } else if s[0] == CODE_NEG_INT8 {
        if s.len() < 2 {
            Err(Error::eof())
        } else if s[1] < 0x80 {
            Err(Error::invalid())
        } else {
            Ok(((s[1] as int - 0x100) as i64, 2))
        }
    } else if s[0] == CODE_INT16 {
        tagged_signed(s, 2)
    } else if s[0] == CODE_INT32 {
        tagged_signed(s, 4)
    } else if s[0] == CODE_INT64 {
        tagged_signed(s, 8)
    } else {
        Ok((s[0] as i64, 1))
    }
}

/// Whether reading from `before` left `after` and gave `res`, as `parsed`
/// says it must: on success the value and the bytes used, on failure the
/// error.
pub open spec fn reads_as<T>(
    parsed: Parsed<T>,
    before: Seq<u8>,
    after: Seq<u8>,
    res: Result<T, Error>,
) -> bool {
    match parsed {
        Ok((v, n)) => res == Ok::<T, Error>(v) && n <= before.len() && after == before.skip(
            n as int,
        ),
        Err(e) => res == Err::<T, Error>(e),
    }
}

/// Appends the encoding of the natural number `v` to `w`.
pub fn write_nat0(w: &mut Vec<u8>, v: u64)
    ensures
        final(w)@ == old(w)@ + nat0_wire(v),
{
    if v < 0x80 {
        w.push(v as u8);
    } else if v < 0x1_0000 {
        w.push(CODE_INT16);
        let bytes = u16_to_le_bytes(v as u16);
        w.extend_from_slice(bytes.as_slice());
    } else if v < 0x1_0000_0000 {
        w.push(CODE_INT32);
        let bytes = u32_to_le_bytes(v as u32);
        w.extend_from_slice(bytes.as_slice());
    } else {
        w.push(CODE_INT64);
        let bytes = u64_to_le_bytes(v);
        w.extend_from_slice(bytes.as_slice());
    }
    assert(w@ =~= old(w)@ + nat0_wire(v));
}

/// Appends the encoding of the signed number `v` to `w`.
pub fn write_i64(w: &mut Vec<u8>, v: i64)
    ensures
        final(w)@ == old(w)@ + i64_wire(v),
{
    if 0 <= v {
        if v < 0x80 {
            w.push(v as u8);
        } else if v < 0x8000 {
            w.push(CODE_INT16);
            let bytes = u16_to_le_bytes(v as u16);
            w.extend_from_slice(bytes.as_slice());
        } else if v < 0x8000_0000 {
            w.push(CODE_INT32);
            let bytes = u32_to_le_bytes(v as u32);
            w.extend_from_slice(bytes.as_slice());
        } else {
            w.push(CODE_INT64);
            let bytes = i64_to_le_bytes(v);
            w.extend_from_slice(bytes.as_slice());
        }
    } else {
        let bytes = i64_to_le_bytes(v);
        if v >= -0x80 {
            w.push(CODE_NEG_INT8);
            w.extend_from_slice(slice_subrange(bytes.as_slice(), 0, 1));
            assert(bytes@.subrange(0, 1) =~= le_bytes(v as int, 1));
        } else if v >= -0x8000 {
            w.push(CODE_INT16);
            w.extend_from_slice(slice_subrange(bytes.as_slice(), 0, 2));
            assert(bytes@.subrange(0, 2) =~= le_bytes(v as int, 2));
        } else if v >= -0x8000_0000 {
            w.push(CODE_INT32);
            w.extend_from_slice(slice_subrange(bytes.as_slice(), 0, 4));
            assert(bytes@.subrange(0, 4) =~= le_bytes(v as int, 4));
        } else {
            w.push(CODE_INT64);
            w.extend_from_slice(bytes.as_slice());
        }
    }
    assert(w@ =~= old(w)@ + i64_wire(v));
}

/// Takes the `width` bytes after a tag that has been read already.
fn read_width<'a>(r: &mut Source<'a>, width: usize, Ghost(s): Ghost<Seq<u8>>) -> (res: Result<
    &'a [u8],
    Error,
>)
    requires
        s.len() > 0,
        old(r).rest() == s.skip(1),
    ensures
        final(r).all() == old(r).all(),
        match res {
            Ok(buf) => {
                &&& s.len() >= 1 + width
                &&& buf@ == s.subrange(1, 1 + width)
                &&& buf@.take(width as int) == buf@
                &&& final(r).rest() == s.skip(1 + width)
            },
            Err(e) => s.len() < 1 + width && e == Error::eof(),
        },
{
    match r.read_exact(width) {
        Ok(buf) => {
            assert(buf@ =~= s.subrange(1, 1 + width));
            assert(buf@.take(width as int) =~= buf@);
            assert(r.rest() =~= s.skip(1 + width));
            Ok(buf)
        },
        Err(e) => Err(e),
    }
}

/// Decodes a natural number from the front of `r`.
pub fn read_nat0(r: &mut Source) -> (res: Result<u64, Error>)
    ensures
        final(r).all() == old(r).all(),
        reads_as(parse_nat0(old(r).rest()), old(r).rest(), final(r).rest(), res),
{
    let ghost s = r.rest();
    let c: u8 = match r.read_u8() {
        Ok(c) => c,
        Err(e) => {
            return Err(e);
        },
    };
    if c == CODE_NEG_INT8 {
        Err(Error::IoError(IoErrorKind::InvalidData))
    } else if c == CODE_INT16 {
        match read_width(r, 2, Ghost(s)) {
            Ok(buf) => Ok(le_read_u16(buf) as u64),
            Err(e) => Err(e),
        }
    } else if c == CODE_INT32 {
        match read_width(r, 4, Ghost(s)) {
            Ok(buf) => Ok(le_read_u32(buf) as u64),
            Err(e) => Err(e),
        }
    } else if c == CODE_INT64 {
        match read_width(r, 8, Ghost(s)) {
            Ok(buf) => Ok(le_read_u64(buf)),
            Err(e) => Err(e),
        }
    } else {
        Ok(c as u64)
    }
}

/// Decodes a signed number from the front of `r`.
pub fn read_signed(r: &mut Source) -> (res: Result<i64, Error>)
    ensures
        final(r).all() == old(r).all(),
        reads_as(parse_signed(old(r).rest()), old(r).rest(), final(r).rest(), res),
{
    let ghost s = r.rest();
    let c: u8 = match r.read_u8() {
        Ok(c) => c,
        Err(e) => {
            return Err(e);
        },
    };
    if c == CODE_NEG_INT8 {
        match r.read_u8() {
            Ok(b) => {
                assert(r.rest() =~= s.skip(2));
                if b < 0x80 {
                    Err(Error::IoError(IoErrorKind::InvalidData))
                } else {
                    Ok(b as i64 - 0x100)
                }
            },
            Err(e) => Err(e),
        }
    } else if c == CODE_INT16 {
        match read_width(r, 2, Ghost(s)) {
            Ok(buf) => Ok(le_read_i16(buf) as i64),
            Err(e) => Err(e),
        }
    } else if c == CODE_INT32 {
        match read_width(r, 4, Ghost(s)) {
            Ok(buf) => Ok(le_read_i32(buf) as i64),
            Err(e) => Err(e),
        }
    } else if c == CODE_INT64 {
        match read_width(r, 8, Ghost(s)) {
            Ok(buf) => Ok(le_read_i64(buf)),
            Err(e) => Err(e),
        }
    } else {
        Ok(c as i64)
    }
}

/// How many bytes follow the first byte `first` of the encoding of a
/// natural number.
pub open spec fn nat0_tail(first: u8) -> nat {
    if first == CODE_INT16 {
        2
    } else if first == CODE_INT32 {
        4
    } else if first == CODE_INT64 {
        8
    } else {
        0
    }
}

/// How many bytes follow the first byte `first` of the encoding of a
/// signed number.
pub open spec fn signed_tail(first: u8) -> nat {
    if first == CODE_NEG_INT8 {
        1
    } else {
        nat0_tail(first)
    }
}

/// How long the encoding of a natural number is that begins with `first`.
/// A reader that gets its bytes piece by piece asks for the first byte,
/// and then knows how many more to ask for.
pub fn nat0_width(first: u8) -> (n: usize)
    ensures
        n == 1 + nat0_tail(first),
{
    if first == CODE_INT16 {
        3
    } else if first == CODE_INT32 {
        5
    } else if first == CODE_INT64 {
        9
    } else {
        1
    }
}

/// How long the encoding of a signed number is that begins with `first`.
pub fn signed_width(first: u8) -> (n: usize)
    ensures
        n == 1 + signed_tail(first),
{
    if first == CODE_NEG_INT8 {
        2
    } else {
        nat0_width(first)
    }
}

/// What a natural number decodes to depends on its first byte and the
/// bytes that the first byte asks for, and on nothing behind them. Where
/// they are all there, the source has not ended early.
pub proof fn lemma_nat0_width(s: Seq<u8>)
    requires
        s.len() > 0,
    ensures
        s.len() < 1 + nat0_tail(s[0]) ==> parse_nat0(s) == Err::<(u64, nat), Error>(
            Error::eof(),
        ),
        s.len() >= 1 + nat0_tail(s[0]) ==> parse_nat0(s) == parse_nat0(
            s.take(1 + nat0_tail(s[0]) as int),
        ) && parse_nat0(s) != Err::<(u64, nat), Error>(Error::eof()),
        parse_nat0(s) is Ok ==> parse_nat0(s)->Ok_0.1 == 1 + nat0_tail(s[0]),
{
    let n = 1 + nat0_tail(s[0]) as int;
    if s.len() >= n {
        let t = s.take(n);
        assert(t[0] == s[0]);
        assert(t.subrange(1, n) =~= s.subrange(1, n));
    }
}

/// What a signed number decodes to depends on its first byte and the
/// bytes that the first byte asks for, and on nothing behind them. Where
/// they are all there, the source has not ended early.
pub proof fn lemma_signed_width(s: Seq<u8>)
    requires
        s.len() > 0,
    ensures
        s.len() < 1 + signed_tail(s[0]) ==> parse_signed(s) == Err::<(i64, nat), Error>(
            Error::eof(),
        ),
        s.len() >= 1 + signed_tail(s[0]) ==> parse_signed(s) == parse_signed(
            s.take(1 + signed_tail(s[0]) as int),
        ) && parse_signed(s) != Err::<(i64, nat), Error>(Error::eof()),
        parse_signed(s) is Ok ==> parse_signed(s)->Ok_0.1 == 1 + signed_tail(s[0]),
{
    let n = 1 + signed_tail(s[0]) as int;
    if s.len() >= n {
        let t = s.take(n);
        assert(t[0] == s[0]);
        if n > 1 {
            assert(t[1] == s[1]);
        }
        assert(t.subrange(1, n) =~= s.subrange(1, n));
    }
}

/// Whether `v` can be written in a form that takes `len` bytes: alone in
/// one byte, or after a tag in 2, 4 or 8.
pub open spec fn nat0_fits(v: u64, len: nat) -> bool {
    ||| len == 1 && v < 0x80
    ||| len == 3 && v < 0x1_0000
    ||| len == 5 && v < 0x1_0000_0000
    ||| len == 9
}

/// Whether `v` can be written in a form that takes `len` bytes: alone in
/// one byte, or after a tag in 1 (if negative), 2, 4 or 8.
pub open spec fn i64_fits(v: i64, len: nat) -> bool {
    ||| len == 1 && 0 <= v < 0x80
    ||| len == 2 && -0x80 <= v < 0
    ||| len == 3 && -0x8000 <= v < 0x8000
    ||| len == 5 && -0x8000_0000 <= v < 0x8000_0000
    ||| len == 9
}

/// A natural number is written in the shortest form that holds it.
pub proof fn lemma_nat0_shortest(v: u64)
    ensures
        nat0_fits(v, nat0_wire(v).len()),
        forall|len: nat| nat0_fits(v, len) ==> nat0_wire(v).len() <= len,
{
}

/// A signed number is written in the shortest form that holds it.
pub proof fn lemma_i64_shortest(v: i64)
    ensures
        i64_fits(v, i64_wire(v).len()),
        forall|len: nat| i64_fits(v, len) ==> i64_wire(v).len() <= len,
{
}

/// Decoding what `write_nat0` wrote gives the number back and stops where
/// the encoding stops, whatever follows.
pub proof fn lemma_nat0_roundtrip(v: u64, rest: Seq<u8>)
    ensures
        parse_nat0(nat0_wire(v) + rest) == Ok::<(u64, nat), Error>((v, nat0_wire(v).len())),
{
    let s = nat0_wire(v) + rest;
    lemma_pow256();
    if v < 0x80 {
    } else if v < 0x1_0000 {
        assert(s.subrange(1, 3) =~= le_bytes(v as int, 2));
        lemma_le_value_of_bytes(v as int, 2);
    } else if v < 0x1_0000_0000 {
        assert(s.subrange(1, 5) =~= le_bytes(v as int, 4));
        lemma_le_value_of_bytes(v as int, 4);
    } else {
        assert(s.subrange(1, 9) =~= le_bytes(v as int, 8));
        lemma_le_value_of_bytes(v as int, 8);
    }
}

/// Decoding what `write_i64` wrote gives the number back and stops where
/// the encoding stops, whatever follows.
pub proof fn lemma_i64_roundtrip(v: i64, rest: Seq<u8>)
    ensures
        parse_signed(i64_wire(v) + rest) == Ok::<(i64, nat), Error>((v, i64_wire(v).len())),
{
    let s = i64_wire(v) + rest;
    lemma_pow256();
    if 0 <= v < 0x80 {
    } else if -0x80 <= v < 0 {
        assert(s[1] == le_bytes(v as int, 1)[0]);
        assert(v as int / 1 == v);
    } else if -0x8000 <= v < 0x8000 {
        assert(s.subrange(1, 3) =~= le_bytes(v as int, 2));
        lemma_le_value_of_bytes(v as int, 2);
    } else if -0x8000_0000 <= v < 0x8000_0000 {
        assert(s.subrange(1, 5) =~= le_bytes(v as int, 4));
        lemma_le_value_of_bytes(v as int, 4);
    } else {
        assert(s.subrange(1, 9) =~= le_bytes(v as int, 8));
        lemma_le_value_of_bytes(v as int, 8);
    }
}

/// No byte string that decodes to `v` is shorter than what `write_nat0`
/// writes, but for one: a lone byte from 0x80 to 0xfb, which stands for
/// itself when read and is never written.
pub proof fn lemma_nat0_no_shorter(s: Seq<u8>)
    requires
        parse_nat0(s) is Ok,
        !(0x80 <= s[0] < CODE_INT64),
    ensures
        nat0_wire(parse_nat0(s)->Ok_0.0).len() <= parse_nat0(s)->Ok_0.1,
{
    lemma_pow256();
    if s[0] == CODE_INT16 {
        lemma_le_value_bound(s.subrange(1, 3));
    } else if s[0] == CODE_INT32 {
        lemma_le_value_bound(s.subrange(1, 5));
    }
}

/// No byte string that decodes to `v` is shorter than what `write_i64`
/// writes, but for one: a lone byte from 0x80 to 0xfb, which stands for
/// itself when read and is never written.
pub proof fn lemma_i64_no_shorter(s: Seq<u8>)
    requires
        parse_signed(s) is Ok,
        !(0x80 <= s[0] < CODE_INT64),
    ensures
        i64_wire(parse_signed(s)->Ok_0.0).len() <= parse_signed(s)->Ok_0.1,
{
    lemma_pow256();
    if s[0] == CODE_INT16 {
        lemma_le_value_bound(s.subrange(1, 3));
    } else if s[0] == CODE_INT32 {
        lemma_le_value_bound(s.subrange(1, 5));
    }
}

} // verus!
