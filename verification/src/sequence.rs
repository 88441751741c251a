//! Sequences: a count, then that many items.
use crate::error::Error;
use crate::integer::{
    lemma_nat0_roundtrip, nat0_wire, parse_nat0, read_nat0, write_nat0, Parsed,
};
use crate::source::Source;
use crate::traits::{BinProtLaws, BinProtRead, BinProtWrite, Val};
use vstd::prelude::*;

verus! {

/// The encodings of the items of `s`, one after the other.
pub open spec fn wire_all<T: BinProtWrite>(s: Seq<T>) -> Seq<u8>
    decreases s.len(),
{
    if s.len() == 0 {
        Seq::empty()
    } else {
        s[0].wire() + wire_all(s.drop_first())
    }
}

/// The contents of the items of `s`.
pub open spec fn models<T: BinProtRead>(s: Seq<T>) -> Seq<Val> {
    Seq::new(s.len(), |i: int| s[i].model())
}

/// What decoding `count` items from the front of `s` gives: their contents
/// and the bytes they took together, or the first error.
pub open spec fn parse_items<T: BinProtRead>(s: Seq<u8>, count: nat) -> Parsed<Seq<Val>>
    decreases count,
{
    if count == 0 {
        Ok((Seq::empty(), 0))
    } else {
        match T::parse(s) {
            Ok((m, n)) => after(seq![m], n, parse_items::<T>(s.skip(n as int), (count - 1) as nat)),
            Err(e) => Err(e),
        }
    }
}

/// The result of decoding more items after `done`, which took `used`
/// bytes, where `more` is what decoding the rest gives.
pub open spec fn after(done: Seq<Val>, used: nat, more: Parsed<Seq<Val>>) -> Parsed<Seq<Val>> {
    match more {
        Ok((ms, k)) => Ok((done + ms, used + k)),
        Err(e) => Err(e),
    }
}

/// What a sequence of `T` at the front of `s` decodes to.
pub open spec fn parse_seq<T: BinProtRead>(s: Seq<u8>) -> Parsed<Val> {
    match parse_nat0(s) {
        Ok((len, n)) => match parse_items::<T>(s.skip(n as int), len as nat) {
            Ok((ms, k)) => Ok((Val::List(ms), n + k)),
            Err(e) => Err(e),
        },
        Err(e) => Err(e),
    }
}

/// Appending an item appends its encoding.
pub proof fn lemma_wire_all_push<T: BinProtWrite>(s: Seq<T>, x: T)
    ensures
        wire_all(s.push(x)) == wire_all(s) + x.wire(),
    decreases s.len(),
{
    if s.len() == 0 {
        assert(s.push(x).drop_first() =~= s);
        assert(wire_all(s.push(x)) =~= wire_all(s) + x.wire());
    } else {
        assert(s.push(x).drop_first() =~= s.drop_first().push(x));
        lemma_wire_all_push(s.drop_first(), x);
        assert(wire_all(s.push(x)) =~= wire_all(s) + x.wire());
    }
}

/// Decoding one item and then the rest is decoding them all.
proof fn lemma_after_step(done: Seq<Val>, used: nat, m: Val, n: nat, more: Parsed<Seq<Val>>)
    ensures
        after(done, used, after(seq![m], n, more)) == after(done.push(m), used + n, more),
{
    match more {
        Ok((ms, k)) => {
            assert(done + (seq![m] + ms) =~= done.push(m) + ms);
        },
        Err(e) => {},
    }
}

/// Decoding the encodings of the items of `items` gives their contents and
/// stops where the last encoding stops.
pub proof fn lemma_items_roundtrip<T: BinProtLaws>(items: Seq<T>, rest: Seq<u8>)
    requires
        forall|i: int| 0 <= i < items.len() ==> (#[trigger] items[i]).encodable(),
    ensures
        parse_items::<T>(wire_all(items) + rest, items.len()) == Ok::<(Seq<Val>, nat), Error>(
            (models(items), wire_all(items).len()),
        ),
    decreases items.len(),
{
    if items.len() == 0 {
        assert(models(items) =~= Seq::empty());
    } else {
        let head = items[0];
        let tail = items.drop_first();
        let s = wire_all(items) + rest;
        head.lemma_roundtrip(wire_all(tail) + rest);
        assert(s =~= head.wire() + (wire_all(tail) + rest));
        assert(s.skip(head.wire().len() as int) =~= wire_all(tail) + rest);
        assert forall|i: int| 0 <= i < tail.len() implies (#[trigger] tail[i]).encodable() by {
            assert(tail[i] == items[i + 1]);
        }
        lemma_items_roundtrip(tail, rest);
        assert(seq![head.model()] + models(tail) =~= models(items));
    }
}

/// Writes the items of `items` one after the other.
pub fn write_items<T: BinProtWrite>(items: &[T], w: &mut Vec<u8>)
    ensures
        final(w)@ == old(w)@ + wire_all(items@),
{
    let mut i: usize = 0;
    while i < items.len()
        invariant
            i <= items.len(),
            w@ == old(w)@ + wire_all(items@.take(i as int)),
        decreases items.len() - i,
    {
        proof {
            assert(items@.take(i + 1) =~= items@.take(i as int).push(items@[i as int]));
            lemma_wire_all_push(items@.take(i as int), items@[i as int]);
        }
        items[i].binprot_write(w);
        i = i + 1;
        assert(w@ =~= old(w)@ + wire_all(items@.take(i as int)));
    }
    assert(items@.take(i as int) =~= items@);
}

/// Reads `count` items from the front of `r`.
pub fn read_items<T: BinProtRead>(r: &mut Source, count: u64) -> (res: Result<Vec<T>, Error>)
    ensures
        final(r).all() == old(r).all(),
        match parse_items::<T>(old(r).rest(), count as nat) {
            Ok((ms, n)) => {
                &&& res is Ok
                &&& models(res->Ok_0@) == ms
                &&& n <= old(r).rest().len()
                &&& final(r).rest() == old(r).rest().skip(n as int)
            },
            Err(e) => res == Err::<Vec<T>, Error>(e),
        },
{
    let ghost s = r.rest();
    let ghost mut used: nat = 0;
    let mut v: Vec<T> = Vec::new();
    let mut i: u64 = 0;
    assert(models(v@) =~= Seq::empty());
    assert(s.skip(0) =~= s);
    while i < count
        invariant
            i <= count,
            v@.len() == i,
            r.all() == old(r).all(),
            s == old(r).rest(),
            used <= s.len(),
            r.rest() == s.skip(used as int),
            parse_items::<T>(s, count as nat) == after(
                models(v@),
                used,
                parse_items::<T>(r.rest(), (count - i) as nat),
            ),
        decreases count - i,
    {
        let ghost before = r.rest();
        let ghost done = models(v@);
        match T::binprot_read(r) {
            Ok(item) => {
                proof {
                    let n = T::parse(before)->Ok_0.1;
                    lemma_after_step(
                        done,
                        used,
                        item.model(),
                        n,
                        parse_items::<T>(before.skip(n as int), (count - i - 1) as nat),
                    );
                    assert(s.skip(used as int).skip(n as int) =~= s.skip((used + n) as int));
                    assert(models(v@.push(item)) =~= done.push(item.model()));
                    used = used + n;
                }
                v.push(item);
                i = i + 1;
            },
            Err(e) => {
                assert(parse_items::<T>(before, (count - i) as nat) == Err::<
                    (Seq<Val>, nat),
                    Error,
                >(e));
                return Err(e);
            },
        }
    }
    assert(models(v@) + Seq::<Val>::empty() =~= models(v@));
    Ok(v)
}

impl<T: BinProtWrite> BinProtWrite for Vec<T> {
    open spec fn wire(&self) -> Seq<u8> {
        nat0_wire(self@.len() as u64) + wire_all(self@)
    }

    fn binprot_write(&self, w: &mut Vec<u8>) {
        write_nat0(w, self.len() as u64);
        write_items(self.as_slice(), w);
        assert(w@ =~= old(w)@ + self.wire());
    }
}

impl<T: BinProtWrite> BinProtWrite for &[T] {
    open spec fn wire(&self) -> Seq<u8> {
        nat0_wire(self@.len() as u64) + wire_all(self@)
    }

    fn binprot_write(&self, w: &mut Vec<u8>) {
        write_nat0(w, self.len() as u64);
        write_items(*self, w);
        assert(w@ =~= old(w)@ + self.wire());
    }
}

impl<T: BinProtRead> BinProtRead for Vec<T> {
    open spec fn model(&self) -> Val {
        Val::List(models(self@))
    }

    open spec fn parse(s: Seq<u8>) -> Parsed<Val> {
        parse_seq::<T>(s)
    }

    fn binprot_read(r: &mut Source) -> (res: Result<Self, Error>) {
        let ghost s = r.rest();
        let len: u64 = match read_nat0(r) {
            Ok(len) => len,
            Err(e) => {
                return Err(e);
            },
        };
        match read_items::<T>(r, len) {
            Ok(v) => {
                proof {
                    let n = parse_nat0(s)->Ok_0.1;
                    let k = parse_items::<T>(s.skip(n as int), len as nat)->Ok_0.1;
                    assert(s.skip(n as int).skip(k as int) =~= s.skip((n + k) as int));
                }
                Ok(v)
            },
            Err(e) => Err(e),
        }
    }
}

impl<T: BinProtLaws> BinProtLaws for Vec<T> {
    open spec fn encodable(&self) -> bool {
        forall|i: int| 0 <= i < self@.len() ==> (#[trigger] self@[i]).encodable()
    }

    proof fn lemma_roundtrip(&self, rest: Seq<u8>) {
        assert(self@.len() == self.len());
        let len = self@.len() as u64;
        let s = self.wire() + rest;
        lemma_nat0_roundtrip(len, wire_all(self@) + rest);
        assert(s =~= nat0_wire(len) + (wire_all(self@) + rest));
        assert(s.skip(nat0_wire(len).len() as int) =~= wire_all(self@) + rest);
        lemma_items_roundtrip(self@, rest);
    }
}

} // verus!
