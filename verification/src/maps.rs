//! Maps: a count, then that many pairs of a key and a value. On the wire
//! the pairs stand in any order; a reader refuses a key that comes twice.
use crate::error::Error;
use crate::integer::{
    lemma_nat0_roundtrip, nat0_wire, parse_nat0, read_nat0, write_nat0, Parsed,
};
use crate::names::{bytes_same, same_text};
use crate::primitives::Nat0;
use crate::sequence::after;
use crate::source::Source;
use crate::strings::Bytes;
use crate::traits::{BinProtLaws, BinProtRead, BinProtWrite, Val};
use vstd::prelude::*;

verus! {

/// The entries of a map, in the order in which they stand on the wire.
/// What is read holds each key once; what is written should.
#[derive(Debug, Clone, PartialEq, Eq)]
pub struct Table<K, V>(pub Vec<(K, V)>);

/// A type whose values can be keys of a map: two of them can be told
/// apart.
pub trait MapKey: BinProtRead {
    /// Whether `self` and `other` are the same key.
    fn same_key(&self, other: &Self) -> (same: bool)
        ensures
            same == (self.model() == other.model()),
    ;
}

/// The content of an entry: its key and its value.
pub open spec fn entry_model<K: BinProtRead, V: BinProtRead>(e: (K, V)) -> Val {
    Val::List(seq![e.0.model(), e.1.model()])
}

/// The contents of the entries of `s`.
pub open spec fn entry_models<K: BinProtRead, V: BinProtRead>(s: Seq<(K, V)>) -> Seq<Val> {
    Seq::new(s.len(), |i: int| entry_model(s[i]))
}

/// The contents of the keys of `s`.
pub open spec fn key_models<K: BinProtRead, V>(s: Seq<(K, V)>) -> Seq<Val> {
    Seq::new(s.len(), |i: int| s[i].0.model())
}

/// Whether no two entries of `s` have the same key.
pub open spec fn keys_differ<K: BinProtRead, V>(s: Seq<(K, V)>) -> bool {
    forall|i: int, j: int|
        0 <= i < j < s.len() ==> (#[trigger] s[i]).0.model() != (#[trigger] s[j]).0.model()
}

/// The encodings of the entries of `s`, one after the other: each key, then
/// its value.
pub open spec fn entries_wire<K: BinProtWrite, V: BinProtWrite>(s: Seq<(K, V)>) -> Seq<u8>
    decreases s.len(),
{
    if s.len() == 0 {
        Seq::empty()
    } else {
        s[0].0.wire() + s[0].1.wire() + entries_wire(s.drop_first())
    }
}

/// What decoding `count` entries from the front of `s` gives, where the
/// keys `seen` were read before: the contents of the entries and the bytes
/// they took together, or the first error. A key that was read before is
/// an error, once its value has been read.
pub open spec fn parse_entries<K: BinProtRead, V: BinProtRead>(
    s: Seq<u8>,
    count: nat,
    seen: Seq<Val>,
) -> Parsed<Seq<Val>>
    decreases count,
{
    if count == 0 {
        Ok((Seq::empty(), 0))
    } else {
        match K::parse(s) {
            Ok((k, n)) => match V::parse(s.skip(n as int)) {
                Ok((v, m)) => if seen.contains(k) {
                    Err(Error::SameKeyAppearsTwiceInMap)
                } else {
                    after(
                        seq![Val::List(seq![k, v])],
                        n + m,
                        parse_entries::<K, V>(
                            s.skip((n + m) as int),
                            (count - 1) as nat,
                            seen.push(k),
                        ),
                    )
                },
                Err(e) => Err(e),
            },
            Err(e) => Err(e),
        }
    }
}

/// What a map at the front of `s` decodes to.
pub open spec fn parse_table<K: BinProtRead, V: BinProtRead>(s: Seq<u8>) -> Parsed<Val> {
    match parse_nat0(s) {
        Ok((len, n)) => match parse_entries::<K, V>(s.skip(n as int), len as nat, Seq::empty()) {
            Ok((ms, k)) => Ok((Val::List(ms), n + k)),
            Err(e) => Err(e),
        },
        Err(e) => Err(e),
    }
}

/// Appending an entry appends its encoding.
proof fn lemma_entries_wire_push<K: BinProtWrite, V: BinProtWrite>(s: Seq<(K, V)>, e: (K, V))
    ensures
        entries_wire(s.push(e)) == entries_wire(s) + e.0.wire() + e.1.wire(),
    decreases s.len(),
{
    if s.len() == 0 {
        assert(s.push(e).drop_first() =~= s);
        assert(entries_wire(s.push(e)) =~= entries_wire(s) + e.0.wire() + e.1.wire());
    } else {
        assert(s.push(e).drop_first() =~= s.drop_first().push(e));
        lemma_entries_wire_push(s.drop_first(), e);
        assert(entries_wire(s.push(e)) =~= entries_wire(s) + e.0.wire() + e.1.wire());
    }
}

/// Decoding one entry and then the rest is decoding them all.
proof fn lemma_after_entry(done: Seq<Val>, used: nat, m: Val, n: nat, more: Parsed<Seq<Val>>)
    ensures
        after(done, used, after(seq![m], n, more)) == after(done.push(m), used + n, more),
{
    match more {
        Ok((ms, k)) => {
            assert(done + (seq![m] + ms) =~= done.push(m) + ms);
        },
        Err(e) => {},
    }
}

/// Whether `key` is the key of one of `entries`.
fn key_seen<K: MapKey, V>(entries: &Vec<(K, V)>, key: &K) -> (seen: bool)
    ensures
        seen == key_models(entries@).contains(key.model()),
{
    let mut i: usize = 0;
    while i < entries.len()
        invariant
            i <= entries.len(),
            forall|j: int| 0 <= j < i ==> (#[trigger] entries@[j]).0.model() != key.model(),
        decreases entries.len() - i,
    {
        if entries[i].0.same_key(key) {
            assert(key_models(entries@)[i as int] == key.model());
            return true;
        }
        i = i + 1;
    }
    assert forall|j: int| 0 <= j < key_models(entries@).len() implies key_models(entries@)[j]
        != key.model() by {
        assert(entries@[j].0.model() != key.model());
    }
    false
}

impl<K: BinProtWrite, V: BinProtWrite> BinProtWrite for Table<K, V> {
    open spec fn wire(&self) -> Seq<u8> {
        nat0_wire(self.0@.len() as u64) + entries_wire(self.0@)
    }

    fn binprot_write(&self, w: &mut Vec<u8>) {
        write_nat0(w, self.0.len() as u64);
        let ghost start = w@;
        let mut i: usize = 0;
        while i < self.0.len()
            invariant
                i <= self.0.len(),
                w@ == start + entries_wire(self.0@.take(i as int)),
            decreases self.0.len() - i,
        {
            proof {
                assert(self.0@.take(i + 1) =~= self.0@.take(i as int).push(self.0@[i as int]));
                lemma_entries_wire_push(self.0@.take(i as int), self.0@[i as int]);
            }
            self.0[i].0.binprot_write(w);
            self.0[i].1.binprot_write(w);
            i = i + 1;
            assert(w@ =~= start + entries_wire(self.0@.take(i as int)));
        }
        assert(self.0@.take(i as int) =~= self.0@);
        assert(w@ =~= old(w)@ + self.wire());
    }
}

/// Reads `count` entries from the front of `r`, and refuses a key that
/// comes twice.
pub fn read_entries<K: MapKey, V: BinProtRead>(r: &mut Source, count: u64) -> (res: Result<
    Vec<(K, V)>,
    Error,
>)
    ensures
        final(r).all() == old(r).all(),
        match parse_entries::<K, V>(old(r).rest(), count as nat, Seq::empty()) {
            Ok((ms, n)) => {
                &&& res is Ok
                &&& entry_models(res->Ok_0@) == ms
                &&& keys_differ(res->Ok_0@)
                &&& n <= old(r).rest().len()
                &&& final(r).rest() == old(r).rest().skip(n as int)
            },
            Err(e) => res == Err::<Vec<(K, V)>, Error>(e),
        },
{
    let ghost s = r.rest();
    let ghost mut used: nat = 0;
    let mut entries: Vec<(K, V)> = Vec::new();
    let mut i: u64 = 0;
    assert(entry_models(entries@) =~= Seq::empty());
    assert(key_models(entries@) =~= Seq::empty());
    assert(s.skip(0) =~= s);
    while i < count
        invariant
            i <= count,
            entries@.len() == i,
            r.all() == old(r).all(),
            s == old(r).rest(),
            used <= s.len(),
            r.rest() == s.skip(used as int),
            keys_differ(entries@),
            parse_entries::<K, V>(s, count as nat, Seq::empty()) == after(
                entry_models(entries@),
                used,
                parse_entries::<K, V>(r.rest(), (count - i) as nat, key_models(entries@)),
            ),
        decreases count - i,
    {
        let ghost before = r.rest();
        let ghost done = entry_models(entries@);
        let ghost seen = key_models(entries@);
        let key = match K::binprot_read(r) {
            Ok(key) => key,
            Err(e) => {
                assert(parse_entries::<K, V>(before, (count - i) as nat, seen) == Err::<
                    (Seq<Val>, nat),
                    Error,
                >(e));
                return Err(e);
            },
        };
        let ghost n = K::parse(before)->Ok_0.1;
        let value = match V::binprot_read(r) {
            Ok(value) => value,
            Err(e) => {
                assert(parse_entries::<K, V>(before, (count - i) as nat, seen) == Err::<
                    (Seq<Val>, nat),
                    Error,
                >(e));
                return Err(e);
            },
        };
        let ghost m = V::parse(before.skip(n as int))->Ok_0.1;
        if key_seen(&entries, &key) {
            assert(parse_entries::<K, V>(before, (count - i) as nat, seen) == Err::<
                (Seq<Val>, nat),
                Error,
            >(Error::SameKeyAppearsTwiceInMap));
            return Err(Error::SameKeyAppearsTwiceInMap);
        }
        proof {
            let entry = Val::List(seq![key.model(), value.model()]);
            assert(before.skip(n as int).skip(m as int) =~= before.skip((n + m) as int));
            lemma_after_entry(
                done,
                used,
                entry,
                n + m,
                parse_entries::<K, V>(
                    before.skip((n + m) as int),
                    (count - i - 1) as nat,
                    seen.push(key.model()),
                ),
            );
            assert(s.skip(used as int).skip((n + m) as int) =~= s.skip((used + n + m) as int));
            assert(entry_models(entries@.push((key, value))) =~= done.push(entry));
            assert(key_models(entries@.push((key, value))) =~= seen.push(key.model()));
            assert(keys_differ(entries@.push((key, value)))) by {
                let next = entries@.push((key, value));
                assert forall|a: int, b: int| 0 <= a < b < next.len() implies (
                #[trigger] next[a]).0.model() != (#[trigger] next[b]).0.model() by {
                    if b < entries@.len() {
                        assert(next[a] == entries@[a] && next[b] == entries@[b]);
                    } else {
                        assert(next[a] == entries@[a]);
                        assert(seen[a] == entries@[a].0.model());
                    }
                }
            }
            used = used + n + m;
        }
        entries.push((key, value));
        i = i + 1;
    }
    assert(entry_models(entries@) + Seq::<Val>::empty() =~= entry_models(entries@));
    Ok(entries)
}

impl<K: MapKey, V: BinProtRead> BinProtRead for Table<K, V> {
    open spec fn model(&self) -> Val {
        Val::List(entry_models(self.0@))
    }

    open spec fn parse(s: Seq<u8>) -> Parsed<Val> {
        parse_table::<K, V>(s)
    }

    fn binprot_read(r: &mut Source) -> (res: Result<Self, Error>) {
        let ghost s = r.rest();
        let len: u64 = match read_nat0(r) {
            Ok(len) => len,
            Err(e) => {
                return Err(e);
            },
        };
        match read_entries::<K, V>(r, len) {
            Ok(entries) => {
                proof {
                    let n = parse_nat0(s)->Ok_0.1;
                    let k = parse_entries::<K, V>(
                        s.skip(n as int),
                        len as nat,
                        Seq::empty(),
                    )->Ok_0.1;
                    assert(s.skip(n as int).skip(k as int) =~= s.skip((n + k) as int));
                }
                Ok(Table(entries))
            },
            Err(e) => Err(e),
        }
    }
}


impl MapKey for i64 {
    fn same_key(&self, other: &Self) -> (same: bool) {
        *self == *other
    }
}

impl MapKey for i32 {
    fn same_key(&self, other: &Self) -> (same: bool) {
        *self == *other
    }
}

impl MapKey for u32 {
    fn same_key(&self, other: &Self) -> (same: bool) {
        *self == *other
    }
}

impl MapKey for i16 {
    fn same_key(&self, other: &Self) -> (same: bool) {
        *self == *other
    }
}

impl MapKey for u16 {
    fn same_key(&self, other: &Self) -> (same: bool) {
        *self == *other
    }
}

impl MapKey for i8 {
    fn same_key(&self, other: &Self) -> (same: bool) {
        *self == *other
    }
}

impl MapKey for u8 {
    fn same_key(&self, other: &Self) -> (same: bool) {
        *self == *other
    }
}

impl MapKey for bool {
    fn same_key(&self, other: &Self) -> (same: bool) {
        *self == *other
    }
}

impl MapKey for Nat0 {
    fn same_key(&self, other: &Self) -> (same: bool) {
        self.0 == other.0
    }
}

impl MapKey for () {
    fn same_key(&self, other: &Self) -> (same: bool) {
        true
    }
}

impl MapKey for String {
    fn same_key(&self, other: &Self) -> (same: bool) {
        same_text(self.as_str(), other.as_str())
    }
}

impl MapKey for Bytes {
    fn same_key(&self, other: &Self) -> (same: bool) {
        bytes_same(self.0.as_slice(), other.0.as_slice())
    }
}

/// Whether reading the entries `items` after the keys `seen` comes upon a
/// key for the second time.
pub open spec fn repeats<K: BinProtRead, V>(items: Seq<(K, V)>, seen: Seq<Val>) -> bool
    decreases items.len(),
{
    if items.len() == 0 {
        false
    } else {
        seen.contains(items[0].0.model()) || repeats(
            items.drop_first(),
            seen.push(items[0].0.model()),
        )
    }
}

/// Whether each key and each value of `items` is one that the format can
/// hold.
pub open spec fn entries_encodable<K: BinProtLaws, V: BinProtLaws>(items: Seq<(K, V)>) -> bool {
    forall|i: int|
        0 <= i < items.len() ==> (#[trigger] items[i]).0.encodable() && items[i].1.encodable()
}

/// Decoding the encodings of the entries `items` after the keys `seen`
/// fails where a key comes for the second time, and else gives the
/// contents of the entries and stops where the last encoding stops.
pub proof fn lemma_entries_roundtrip<K: BinProtLaws, V: BinProtLaws>(
    items: Seq<(K, V)>,
    seen: Seq<Val>,
    rest: Seq<u8>,
)
    requires
        entries_encodable(items),
    ensures
        parse_entries::<K, V>(entries_wire(items) + rest, items.len(), seen) == (if repeats(
            items,
            seen,
        ) {
            Err::<(Seq<Val>, nat), Error>(Error::SameKeyAppearsTwiceInMap)
        } else {
            Ok::<(Seq<Val>, nat), Error>((entry_models(items), entries_wire(items).len()))
        }),
    decreases items.len(),
{
    if items.len() == 0 {
        assert(entry_models(items) =~= Seq::empty());
    } else {
        let key = items[0].0;
        let value = items[0].1;
        let tail = items.drop_first();
        let s = entries_wire(items) + rest;
        let behind_key = value.wire() + (entries_wire(tail) + rest);
        let behind = entries_wire(tail) + rest;
        assert(s =~= key.wire() + behind_key);
        key.lemma_roundtrip(behind_key);
        assert(s.skip(key.wire().len() as int) =~= behind_key);
        value.lemma_roundtrip(behind);
        assert(s.skip((key.wire().len() + value.wire().len()) as int) =~= behind);
        assert forall|i: int| 0 <= i < tail.len() implies (#[trigger] tail[i]).0.encodable()
            && tail[i].1.encodable() by {
            assert(tail[i] == items[i + 1]);
        }
        lemma_entries_roundtrip(tail, seen.push(key.model()), rest);
        assert(seq![entry_model(items[0])] + entry_models(tail) =~= entry_models(items));
    }
}

/// Reading the entries `items` after the keys `seen` comes upon a key for
/// the second time exactly if two entries have the same key or one has a
/// key from `seen`.
pub proof fn lemma_repeats<K: BinProtRead, V>(items: Seq<(K, V)>, seen: Seq<Val>)
    ensures
        repeats(items, seen) <==> (!keys_differ(items) || exists|i: int|
            0 <= i < items.len() && seen.contains((#[trigger] items[i]).0.model())),
    decreases items.len(),
{
    if items.len() > 0 {
        let tail = items.drop_first();
        let key = items[0].0.model();
        let more = seen.push(key);
        lemma_repeats(tail, more);
        if repeats(items, seen) {
            if seen.contains(key) {
            } else if !keys_differ(tail) {
                let (a, b) = choose|a: int, b: int|
                    0 <= a < b < tail.len() && (#[trigger] tail[a]).0.model() == (
                    #[trigger] tail[b]).0.model();
                assert(items[a + 1] == tail[a] && items[b + 1] == tail[b]);
            } else {
                let i = choose|i: int|
                    0 <= i < tail.len() && more.contains((#[trigger] tail[i]).0.model());
                assert(items[i + 1] == tail[i]);
                let k = tail[i].0.model();
                let p = choose|p: int| 0 <= p < more.len() && more[p] == k;
                if p < seen.len() {
                    assert(seen[p] == k);
                    assert(seen.contains(items[i + 1].0.model()));
                } else {
                    assert(items[0].0.model() == items[i + 1].0.model());
                }
            }
        }
        if !keys_differ(items) {
            let (a, b) = choose|a: int, b: int|
                0 <= a < b < items.len() && (#[trigger] items[a]).0.model() == (
                #[trigger] items[b]).0.model();
            if a == 0 {
                assert(tail[b - 1] == items[b]);
                assert(more[seen.len() as int] == key);
                assert(more.contains(tail[b - 1].0.model()));
            } else {
                assert(tail[a - 1] == items[a] && tail[b - 1] == items[b]);
            }
            assert(repeats(items, seen));
        }
        if exists|i: int| 0 <= i < items.len() && seen.contains((#[trigger] items[i]).0.model()) {
            let i = choose|i: int|
                0 <= i < items.len() && seen.contains((#[trigger] items[i]).0.model());
            if i > 0 {
                assert(tail[i - 1] == items[i]);
                let k = items[i].0.model();
                let p = choose|p: int| 0 <= p < seen.len() && seen[p] == k;
                assert(more[p] == k);
                assert(more.contains(tail[i - 1].0.model()));
            }
            assert(repeats(items, seen));
        }
    }
}

impl<K: MapKey + BinProtLaws, V: BinProtLaws> BinProtLaws for Table<K, V> {
    open spec fn encodable(&self) -> bool {
        keys_differ(self.0@) && entries_encodable(self.0@)
    }

    proof fn lemma_roundtrip(&self, rest: Seq<u8>) {
        lemma_table_roundtrip(self, rest);
    }
}

/// A map whose keys differ is read back as it was written. One with a key
/// twice is written, and refused when it is read.
pub proof fn lemma_table_roundtrip<K: BinProtLaws, V: BinProtLaws>(t: &Table<K, V>, rest: Seq<u8>)
    requires
        entries_encodable(t.0@),
    ensures
        keys_differ(t.0@) ==> parse_table::<K, V>(t.wire() + rest) == Ok::<(Val, nat), Error>(
            (Val::List(entry_models(t.0@)), t.wire().len()),
        ),
        !keys_differ(t.0@) ==> parse_table::<K, V>(t.wire() + rest) == Err::<(Val, nat), Error>(
            Error::SameKeyAppearsTwiceInMap,
        ),
{
    assert(t.0@.len() == t.0.len());
    let len = t.0@.len() as u64;
    let s = t.wire() + rest;
    lemma_nat0_roundtrip(len, entries_wire(t.0@) + rest);
    assert(s =~= nat0_wire(len) + (entries_wire(t.0@) + rest));
    assert(s.skip(nat0_wire(len).len() as int) =~= entries_wire(t.0@) + rest);
    lemma_entries_roundtrip(t.0@, Seq::empty(), rest);
    lemma_repeats(t.0@, Seq::<Val>::empty());
}

} // verus!
