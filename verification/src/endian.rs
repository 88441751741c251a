//! Little-endian byte strings and the integers they stand for, with the
//! calls that convert between the two.
use byteorder::{ByteOrder, LittleEndian};
use vstd::prelude::*;

verus! {

/// 256 to the power `i`.
pub open spec fn pow256(i: nat) -> int
    decreases i,
{
    if i == 0 {
        1
    } else {
        256 * pow256((i - 1) as nat)
    }
}

/// Byte `i` of the two's-complement form of `v`, counted from the low end.
pub open spec fn byte_of(v: int, i: nat) -> u8 {
    ((v / pow256(i)) % 256) as u8
}

/// The low `n` bytes of the two's-complement form of `v`, low byte first.
pub open spec fn le_bytes(v: int, n: nat) -> Seq<u8> {
    Seq::new(n, |i: int| byte_of(v, i as nat))
}

/// The natural number that `s` spells, low byte first.
pub open spec fn le_value(s: Seq<u8>) -> int
    decreases s.len(),
{
    if s.len() == 0 {
        0
    } else {
        s[0] as int + 256 * le_value(s.drop_first())
    }
}

/// The integer that `s` spells in two's complement, low byte first.
pub open spec fn le_signed(s: Seq<u8>) -> int {
    let u = le_value(s);
    if 2 * u >= pow256(s.len()) {
        u - pow256(s.len())
    } else {
        u
    }
}

/// `u16::to_le_bytes` of std: the two bytes of `v`, low byte first.
#[verifier::external_body]
pub(crate) fn u16_to_le_bytes(v: u16) -> (out: [u8; 2])
    ensures
        out@ == le_bytes(v as int, 2),
{
    v.to_le_bytes()
}

/// `u32::to_le_bytes` of std: the four bytes of `v`, low byte first.
#[verifier::external_body]
pub(crate) fn u32_to_le_bytes(v: u32) -> (out: [u8; 4])
    ensures
        out@ == le_bytes(v as int, 4),
{
    v.to_le_bytes()
}

/// `u64::to_le_bytes` of std: the eight bytes of `v`, low byte first.
#[verifier::external_body]
pub(crate) fn u64_to_le_bytes(v: u64) -> (out: [u8; 8])
    ensures
        out@ == le_bytes(v as int, 8),
{
    v.to_le_bytes()
}

/// `i64::to_le_bytes` of std: the eight bytes of the two's-complement form
/// of `v`, low byte first.
#[verifier::external_body]
pub(crate) fn i64_to_le_bytes(v: i64) -> (out: [u8; 8])
    ensures
        out@ == le_bytes(v as int, 8),
{
    v.to_le_bytes()
}

/// `i32::to_le_bytes` of std: the four bytes of the two's-complement form
/// of `v`, low byte first.
#[verifier::external_body]
pub(crate) fn i32_to_le_bytes(v: i32) -> (out: [u8; 4])
    ensures
        out@ == le_bytes(v as int, 4),
{
    v.to_le_bytes()
}

/// `LittleEndian::read_u16` of byteorder: the number that the first two
/// bytes of `buf` spell, low byte first. It panics on a shorter `buf`.
#[verifier::external_body]
pub(crate) fn le_read_u16(buf: &[u8]) -> (r: u16)
    requires
        buf@.len() >= 2,
    ensures
        r == le_value(buf@.take(2)),
{
    LittleEndian::read_u16(buf)
}

/// `LittleEndian::read_u32` of byteorder: the number that the first four
/// bytes of `buf` spell, low byte first. It panics on a shorter `buf`.
#[verifier::external_body]
pub(crate) fn le_read_u32(buf: &[u8]) -> (r: u32)
    requires
        buf@.len() >= 4,
    ensures
        r == le_value(buf@.take(4)),
{
    LittleEndian::read_u32(buf)
}

/// `LittleEndian::read_u64` of byteorder: the number that the first eight
/// bytes of `buf` spell, low byte first. It panics on a shorter `buf`.
#[verifier::external_body]
pub(crate) fn le_read_u64(buf: &[u8]) -> (r: u64)
    requires
        buf@.len() >= 8,
    ensures
        r == le_value(buf@.take(8)),
{
    LittleEndian::read_u64(buf)
}

/// `LittleEndian::read_i16` of byteorder: the first two bytes of `buf`
/// read as a two's-complement number, low byte first. It panics on a
/// shorter `buf`.
#[verifier::external_body]
pub(crate) fn le_read_i16(buf: &[u8]) -> (r: i16)
    requires
        buf@.len() >= 2,
    ensures
        r == le_signed(buf@.take(2)),
{
    LittleEndian::read_i16(buf)
}

/// `LittleEndian::read_i32` of byteorder: the first four bytes of `buf`
/// read as a two's-complement number, low byte first. It panics on a
/// shorter `buf`.
#[verifier::external_body]
pub(crate) fn le_read_i32(buf: &[u8]) -> (r: i32)
    requires
        buf@.len() >= 4,
    ensures
        r == le_signed(buf@.take(4)),
{
    LittleEndian::read_i32(buf)
}

/// `LittleEndian::read_i64` of byteorder: the first eight bytes of `buf`
/// read as a two's-complement number, low byte first. It panics on a
/// shorter `buf`.
#[verifier::external_body]
pub(crate) fn le_read_i64(buf: &[u8]) -> (r: i64)
    requires
        buf@.len() >= 8,
    ensures
        r == le_signed(buf@.take(8)),
{
    LittleEndian::read_i64(buf)
}

/// The values of `pow256` at the widths in use.
pub proof fn lemma_pow256()
    ensures
        pow256(0) == 1,
        pow256(1) == 0x100,
        pow256(2) == 0x1_0000,
        pow256(3) == 0x100_0000,
        pow256(4) == 0x1_0000_0000,
        pow256(5) == 0x100_0000_0000,
        pow256(6) == 0x1_0000_0000_0000,
        pow256(7) == 0x100_0000_0000_0000,
        pow256(8) == 0x1_0000_0000_0000_0000,
{
    reveal_with_fuel(pow256, 10);
}

/// A string of `n` bytes spells a number below `256^n`.
pub proof fn lemma_le_value_bound(s: Seq<u8>)
    ensures
        0 <= le_value(s) < pow256(s.len()),
    decreases s.len(),
{
    if s.len() > 0 {
        lemma_le_value_bound(s.drop_first());
    }
}

/// Spelling the low `n` bytes of `v` and reading them back gives `v` modulo
/// `256^n`.
pub proof fn lemma_le_value_of_bytes(v: int, n: nat)
    requires
        n <= 8,
    ensures
        le_value(le_bytes(v, n)) == v % pow256(n),
    decreases n,
{
    if n == 0 {
        assert(le_bytes(v, 0).len() == 0);
    } else {
        let s = le_bytes(v, n);
        let t = le_bytes(v / 256, (n - 1) as nat);
        assert(s.drop_first() =~= t) by {
            assert forall|i: int| 0 <= i < n - 1 implies s.drop_first()[i] == t[i] by {
                lemma_byte_shift(v, i as nat);
            }
        }
        lemma_le_value_of_bytes(v / 256, (n - 1) as nat);
        assert(s[0] == (v % 256) as u8);
        lemma_mod_step(v, (n - 1) as nat);
    }
}

/// Dividing by `256^(i+1)` is dividing by 256 and then by `256^i`, and the
/// remainders add up.
proof fn lemma_mod_step(v: int, i: nat)
    requires
        i < 8,
    ensures
        v / pow256(i + 1) == (v / 256) / pow256(i),
        v % 256 + 256 * ((v / 256) % pow256(i)) == v % pow256(i + 1),
{
    lemma_pow256();
    let w = v / 256;
    if i == 0 {
        assert(v / 0x100 == w / 1 && v % 256 + 256 * (w % 1) == v % 0x100);
    } else if i == 1 {
        assert(v / 0x1_0000 == w / 0x100 && v % 256 + 256 * (w % 0x100) == v % 0x1_0000);
    } else if i == 2 {
        assert(v / 0x100_0000 == w / 0x1_0000 && v % 256 + 256 * (w % 0x1_0000) == v
            % 0x100_0000);
    } else if i == 3 {
        assert(v / 0x1_0000_0000 == w / 0x100_0000 && v % 256 + 256 * (w % 0x100_0000) == v
            % 0x1_0000_0000);
    } else if i == 4 {
        assert(v / 0x100_0000_0000 == w / 0x1_0000_0000 && v % 256 + 256 * (w % 0x1_0000_0000)
            == v % 0x100_0000_0000);
    } else if i == 5 {
        assert(v / 0x1_0000_0000_0000 == w / 0x100_0000_0000 && v % 256 + 256 * (w
            % 0x100_0000_0000) == v % 0x1_0000_0000_0000);
    } else if i == 6 {
        assert(v / 0x100_0000_0000_0000 == w / 0x1_0000_0000_0000 && v % 256 + 256 * (w
            % 0x1_0000_0000_0000) == v % 0x100_0000_0000_0000);
    } else {
        assert(v / 0x1_0000_0000_0000_0000 == w / 0x100_0000_0000_0000 && v % 256 + 256 * (w
            % 0x100_0000_0000_0000) == v % 0x1_0000_0000_0000_0000);
    }
}

/// Byte `i + 1` of `v` is byte `i` of `v / 256`.
proof fn lemma_byte_shift(v: int, i: nat)
    requires
        i < 8,
    ensures
        byte_of(v, i + 1) == byte_of(v / 256, i),
{
    lemma_mod_step(v, i);
}

} // verus!
