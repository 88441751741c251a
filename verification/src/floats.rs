//! Sequences of 32-bit floats, which are written in the byte order of the
//! machine: four bytes each, behind their count.
//!
//! What the machine's byte order is, is not known here. So of each float
//! it is only said that its four bytes are its bits in one of the two
//! orders.
use crate::endian::{le_bytes, le_value};
use crate::error::Error;
use crate::integer::{nat0_wire, parse_nat0, read_nat0, write_nat0};
use crate::source::Source;
use byteorder::{ByteOrder, NativeEndian};
use vstd::prelude::*;

verus! {

/// A 32-bit float, held by the bits of its IEEE-754 form.
#[derive(Debug, Clone, PartialEq, Eq, Copy, Structural)]
pub struct Float32(pub u32);

/// Whether `bytes` are the four bytes of `bits`, low byte first or high
/// byte first.
pub open spec fn spells(bytes: Seq<u8>, bits: u32) -> bool {
    bytes == le_bytes(bits as int, 4) || bytes == le_bytes(bits as int, 4).reverse()
}

/// `NativeEndian::write_u32` of byteorder: the four bytes of `bits` in the
/// byte order of the machine.
#[verifier::external_body]
fn native_bytes(bits: u32) -> (out: [u8; 4])
    ensures
        spells(out@, bits),
{
    let mut out = [0u8; 4];
    NativeEndian::write_u32(&mut out, bits);
    out
}

/// `NativeEndian::read_u32` of byteorder: the number that the first four
/// bytes of `buf` spell in the byte order of the machine. It panics on a
/// shorter `buf`.
#[verifier::external_body]
fn native_bits(buf: &[u8]) -> (bits: u32)
    requires
        buf@.len() >= 4,
    ensures
        bits == le_value(buf@.take(4)) || bits == le_value(buf@.take(4).reverse()),
{
    NativeEndian::read_u32(buf)
}

/// Whether `bytes` hold the floats `items`, four bytes each.
pub open spec fn spell_all(bytes: Seq<u8>, items: Seq<Float32>) -> bool {
    &&& bytes.len() == 4 * items.len()
    &&& forall|i: int|
        0 <= i < items.len() ==> spells(bytes.subrange(4 * i, 4 * i + 4), (#[trigger] items[i]).0)
}

/// Whether the floats `items` are what `bytes` hold, four bytes each.
pub open spec fn read_all(bytes: Seq<u8>, items: Seq<Float32>) -> bool {
    &&& bytes.len() == 4 * items.len()
    &&& forall|i: int|
        0 <= i < items.len() ==> {
            let four = bytes.subrange(4 * i, 4 * i + 4);
            (#[trigger] items[i]).0 == le_value(four) || items[i].0 == le_value(four.reverse())
        }
}

/// Whether `after` is `before` with the count of `items` appended and
/// then each of them in four bytes.
pub open spec fn holds_float32s(before: Seq<u8>, after: Seq<u8>, items: Seq<Float32>) -> bool {
    let head = before + nat0_wire(items.len() as u64);
    &&& after.len() == head.len() + 4 * items.len()
    &&& after.take(head.len() as int) == head
    &&& spell_all(after.skip(head.len() as int), items)
}

/// Appends the count of `items` and then each of them in four bytes, in
/// the byte order of the machine.
pub fn write_float32s(items: &[Float32], w: &mut Vec<u8>)
    ensures
        holds_float32s(old(w)@, final(w)@, items@),
{
    write_nat0(w, items.len() as u64);
    let ghost start = w@;
    let mut i: usize = 0;
    assert(w@.take(start.len() as int) =~= start);
    while i < items.len()
        invariant
            i <= items.len(),
            w@.len() == start.len() + 4 * i,
            w@.take(start.len() as int) == start,
            spell_all(w@.skip(start.len() as int), items@.take(i as int)),
        decreases items.len() - i,
    {
        let ghost before = w@;
        let bytes = native_bytes(items[i].0);
        w.extend_from_slice(bytes.as_slice());
        proof {
            let tail = w@.skip(start.len() as int);
            let old_tail = before.skip(start.len() as int);
            assert(w@.take(start.len() as int) =~= before.take(start.len() as int));
            assert forall|j: int| 0 <= j < i + 1 implies spells(
                tail.subrange(4 * j, 4 * j + 4),
                (#[trigger] items@.take(i + 1)[j]).0,
            ) by {
                if j < i {
                    assert(tail.subrange(4 * j, 4 * j + 4) =~= old_tail.subrange(4 * j, 4 * j + 4));
                    assert(items@.take(i as int)[j] == items@.take(i + 1)[j]);
                } else {
                    assert(tail.subrange(4 * j, 4 * j + 4) =~= bytes@);
                }
            }
        }
        i = i + 1;
    }
    assert(items@.take(i as int) =~= items@);
}

/// Reads a count and then that many floats of four bytes each, in the
/// byte order of the machine. It fails where the count cannot be read,
/// and as a source that ended early where fewer bytes follow than the
/// count asks for.
pub fn read_float32s(r: &mut Source) -> (res: Result<Vec<Float32>, Error>)
    ensures
        final(r).all() == old(r).all(),
        match parse_nat0(old(r).rest()) {
            Ok((len, n)) => if old(r).rest().len() - n < 4 * len {
                res == Err::<Vec<Float32>, Error>(Error::eof())
            } else {
                &&& res is Ok
                &&& res->Ok_0@.len() == len
                &&& read_all(old(r).rest().subrange(n as int, n + 4 * len), res->Ok_0@)
                &&& final(r).rest() == old(r).rest().skip(n + 4 * len)
            },
            Err(e) => res == Err::<Vec<Float32>, Error>(e),
        },
{
    let ghost s = r.rest();
    let len: u64 = match read_nat0(r) {
        Ok(len) => len,
        Err(e) => {
            return Err(e);
        },
    };
    let ghost n = parse_nat0(s)->Ok_0.1;
    let mut v: Vec<Float32> = Vec::new();
    let mut i: u64 = 0;
    while i < len
        invariant
            i <= len,
            v@.len() == i,
            r.all() == old(r).all(),
            s == old(r).rest(),
            parse_nat0(s) == Ok::<(u64, nat), Error>((len, n)),
            n + 4 * i <= s.len(),
            r.rest() == s.skip(n + 4 * i),
            read_all(s.subrange(n as int, n + 4 * i), v@),
        decreases len - i,
    {
        let four = match r.read_exact(4) {
            Ok(four) => four,
            Err(e) => {
                return Err(e);
            },
        };
        let bits = native_bits(four);
        proof {
            let before = s.subrange(n as int, n + 4 * i);
            let now = s.subrange(n as int, n + 4 * i + 4);
            let items = v@.push(Float32(bits));
            assert(four@.take(4) =~= four@);
            assert(four@ =~= s.subrange(n + 4 * i, n + 4 * i + 4));
            assert(s.skip(n + 4 * i).skip(4) =~= s.skip(n + 4 * (i + 1)));
            assert forall|j: int| 0 <= j < i + 1 implies ({
                let part = now.subrange(4 * j, 4 * j + 4);
                (#[trigger] items[j]).0 == le_value(part) || items[j].0 == le_value(part.reverse())
            }) by {
                if j < i {
                    assert(now.subrange(4 * j, 4 * j + 4) =~= before.subrange(4 * j, 4 * j + 4));
                    assert(items[j] == v@[j]);
                } else {
                    assert(now.subrange(4 * j, 4 * j + 4) =~= four@);
                }
            }
        }
        v.push(Float32(bits));
        i = i + 1;
    }
    Ok(v)
}

} // verus!
