//! Tuples: the encodings of the components, one after the other.
use crate::error::Error;
use crate::integer::Parsed;
use crate::source::Source;
use crate::traits::{BinProtLaws, BinProtRead, BinProtWrite, Val};
use vstd::prelude::*;

verus! {

/// Nothing decoded yet, and no byte taken.
pub open spec fn no_fields() -> Parsed<Seq<Val>> {
    Ok((Seq::empty(), 0))
}

/// What decoding one more field of type `T` gives, where `prev` is what
/// the fields before it gave: the field is read where they stopped in `s`.
pub open spec fn then_parse<T: BinProtRead>(prev: Parsed<Seq<Val>>, s: Seq<u8>) -> Parsed<
    Seq<Val>,
> {
    match prev {
        Ok((ms, used)) => match T::parse(s.skip(used as int)) {
            Ok((m, n)) => Ok((ms.push(m), used + n)),
            Err(e) => Err(e),
        },
        Err(e) => Err(e),
    }
}

/// The fields of a tuple or record, as one content.
pub open spec fn as_list(fields: Parsed<Seq<Val>>) -> Parsed<Val> {
    match fields {
        Ok((ms, n)) => Ok((Val::List(ms), n)),
        Err(e) => Err(e),
    }
}

/// Reads one field of type `T`, after the fields of which `prev` tells.
fn read_field<T: BinProtRead>(
    r: &mut Source,
    Ghost(s): Ghost<Seq<u8>>,
    Ghost(prev): Ghost<Parsed<Seq<Val>>>,
) -> (res: Result<T, Error>)
    requires
        prev is Ok,
        prev->Ok_0.1 <= s.len(),
        old(r).rest() == s.skip(prev->Ok_0.1 as int),
    ensures
        final(r).all() == old(r).all(),
        match then_parse::<T>(prev, s) {
            Ok((ms, used)) => {
                &&& res is Ok
                &&& ms == prev->Ok_0.0.push(res->Ok_0.model())
                &&& used <= s.len()
                &&& final(r).rest() == s.skip(used as int)
            },
            Err(e) => res == Err::<T, Error>(e),
        },
{
    let ghost before = r.rest();
    match T::binprot_read(r) {
        Ok(v) => {
            proof {
                let used = prev->Ok_0.1;
                let n = T::parse(before)->Ok_0.1;
                assert(s.skip(used as int).skip(n as int) =~= s.skip((used + n) as int));
            }
            Ok(v)
        },
        Err(e) => Err(e),
    }
}

/// Where the encoding of `x` stands in `s` after `used` bytes, decoding one
/// more field there gives the content of `x` and stops behind it.
pub proof fn lemma_field_roundtrip<T: BinProtLaws>(
    x: &T,
    ms: Seq<Val>,
    used: nat,
    s: Seq<u8>,
    tail: Seq<u8>,
)
    requires
        x.encodable(),
        used <= s.len(),
        s.skip(used as int) == x.wire() + tail,
    ensures
        then_parse::<T>(Ok((ms, used)), s) == Ok::<(Seq<Val>, nat), Error>(
            (ms.push(x.model()), used + x.wire().len()),
        ),
        s.skip((used + x.wire().len()) as int) == tail,
{
    x.lemma_roundtrip(tail);
    assert(s.skip(used as int).skip(x.wire().len() as int) =~= s.skip(
        (used + x.wire().len()) as int,
    ));
    assert((x.wire() + tail).skip(x.wire().len() as int) =~= tail);
}

impl<A: BinProtWrite> BinProtWrite for (A,) {
    open spec fn wire(&self) -> Seq<u8> {
        self.0.wire()
    }

    fn binprot_write(&self, w: &mut Vec<u8>) {
        self.0.binprot_write(w);
        assert(w@ =~= old(w)@ + self.wire());
    }
}

impl<A: BinProtRead> BinProtRead for (A,) {
    open spec fn model(&self) -> Val {
        Val::List(seq![self.0.model()])
    }

    open spec fn parse(s: Seq<u8>) -> Parsed<Val> {
        let read0 = no_fields();
        let read1 = then_parse::<A>(read0, s);
        as_list(read1)
    }

    fn binprot_read(r: &mut Source) -> (res: Result<Self, Error>) {
        let ghost s = r.rest();
        let ghost read0 = no_fields();
        assert(s.skip(0) =~= s);
        let f0: A = match read_field::<A>(r, Ghost(s), Ghost(read0)) {
            Ok(v) => v,
            Err(e) => {
                return Err(e);
            },
        };
        let ghost read1 = then_parse::<A>(read0, s);
        assert(read1->Ok_0.0 =~= seq![f0.model()]);
        Ok((f0,))
    }
}

impl<A: BinProtLaws> BinProtLaws for (A,) {
    open spec fn encodable(&self) -> bool {
        self.0.encodable()
    }

    proof fn lemma_roundtrip(&self, rest: Seq<u8>) {
        let s = self.wire() + rest;
        let t1 = rest;
        let t0 = self.0.wire() + t1;
        assert(s =~= t0);
        assert(s.skip(0) =~= s);
        let m0 = Seq::<Val>::empty();
        let u0: nat = 0;
        lemma_field_roundtrip(&self.0, m0, u0, s, t1);
        let m1 = m0.push(self.0.model());
        let u1 = u0 + self.0.wire().len();
        assert(m1 =~= seq![self.0.model()]);
    }
}

impl<A: BinProtWrite, B: BinProtWrite> BinProtWrite for (A, B) {
    open spec fn wire(&self) -> Seq<u8> {
        self.0.wire() + self.1.wire()
    }

    fn binprot_write(&self, w: &mut Vec<u8>) {
        self.0.binprot_write(w);
        self.1.binprot_write(w);
        assert(w@ =~= old(w)@ + self.wire());
    }
}

impl<A: BinProtRead, B: BinProtRead> BinProtRead for (A, B) {
    open spec fn model(&self) -> Val {
        Val::List(seq![self.0.model(), self.1.model()])
    }

    open spec fn parse(s: Seq<u8>) -> Parsed<Val> {
        let read0 = no_fields();
        let read1 = then_parse::<A>(read0, s);
        let read2 = then_parse::<B>(read1, s);
        as_list(read2)
    }

    fn binprot_read(r: &mut Source) -> (res: Result<Self, Error>) {
        let ghost s = r.rest();
        let ghost read0 = no_fields();
        assert(s.skip(0) =~= s);
        let f0: A = match read_field::<A>(r, Ghost(s), Ghost(read0)) {
            Ok(v) => v,
            Err(e) => {
                return Err(e);
            },
        };
        let ghost read1 = then_parse::<A>(read0, s);
        let f1: B = match read_field::<B>(r, Ghost(s), Ghost(read1)) {
            Ok(v) => v,
            Err(e) => {
                return Err(e);
            },
        };
        let ghost read2 = then_parse::<B>(read1, s);
        assert(read2->Ok_0.0 =~= seq![f0.model(), f1.model()]);
        Ok((f0, f1))
    }
}

impl<A: BinProtLaws, B: BinProtLaws> BinProtLaws for (A, B) {
    open spec fn encodable(&self) -> bool {
        self.0.encodable() && self.1.encodable()
    }

    proof fn lemma_roundtrip(&self, rest: Seq<u8>) {
        let s = self.wire() + rest;
        let t2 = rest;
        let t1 = self.1.wire() + t2;
        let t0 = self.0.wire() + t1;
        assert(s =~= t0);
        assert(s.skip(0) =~= s);
        let m0 = Seq::<Val>::empty();
        let u0: nat = 0;
        lemma_field_roundtrip(&self.0, m0, u0, s, t1);
        let m1 = m0.push(self.0.model());
        let u1 = u0 + self.0.wire().len();
        lemma_field_roundtrip(&self.1, m1, u1, s, t2);
        let m2 = m1.push(self.1.model());
        let u2 = u1 + self.1.wire().len();
        assert(m2 =~= seq![self.0.model(), self.1.model()]);
    }
}

impl<A: BinProtWrite, B: BinProtWrite, C: BinProtWrite> BinProtWrite for (A, B, C) {
    open spec fn wire(&self) -> Seq<u8> {
        self.0.wire() + self.1.wire() + self.2.wire()
    }

    fn binprot_write(&self, w: &mut Vec<u8>) {
        self.0.binprot_write(w);
        self.1.binprot_write(w);
        self.2.binprot_write(w);
        assert(w@ =~= old(w)@ + self.wire());
    }
}

impl<A: BinProtRead, B: BinProtRead, C: BinProtRead> BinProtRead for (A, B, C) {
    open spec fn model(&self) -> Val {
        Val::List(seq![self.0.model(), self.1.model(), self.2.model()])
    }

    open spec fn parse(s: Seq<u8>) -> Parsed<Val> {
        let read0 = no_fields();
        let read1 = then_parse::<A>(read0, s);
        let read2 = then_parse::<B>(read1, s);
        let read3 = then_parse::<C>(read2, s);
        as_list(read3)
    }

    fn binprot_read(r: &mut Source) -> (res: Result<Self, Error>) {
        let ghost s = r.rest();
        let ghost read0 = no_fields();
        assert(s.skip(0) =~= s);
        let f0: A = match read_field::<A>(r, Ghost(s), Ghost(read0)) {
            Ok(v) => v,
            Err(e) => {
                return Err(e);
            },
        };
        let ghost read1 = then_parse::<A>(read0, s);
        let f1: B = match read_field::<B>(r, Ghost(s), Ghost(read1)) {
            Ok(v) => v,
            Err(e) => {
                return Err(e);
            },
        };
        let ghost read2 = then_parse::<B>(read1, s);
        let f2: C = match read_field::<C>(r, Ghost(s), Ghost(read2)) {
            Ok(v) => v,
            Err(e) => {
                return Err(e);
            },
        };
        let ghost read3 = then_parse::<C>(read2, s);
        assert(read3->Ok_0.0 =~= seq![f0.model(), f1.model(), f2.model()]);
        Ok((f0, f1, f2))
    }
}

impl<A: BinProtLaws, B: BinProtLaws, C: BinProtLaws> BinProtLaws for (A, B, C) {
    open spec fn encodable(&self) -> bool {
        self.0.encodable() && self.1.encodable() && self.2.encodable()
    }

    proof fn lemma_roundtrip(&self, rest: Seq<u8>) {
        let s = self.wire() + rest;
        let t3 = rest;
        let t2 = self.2.wire() + t3;
        let t1 = self.1.wire() + t2;
        let t0 = self.0.wire() + t1;
        assert(s =~= t0);
        assert(s.skip(0) =~= s);
        let m0 = Seq::<Val>::empty();
        let u0: nat = 0;
        lemma_field_roundtrip(&self.0, m0, u0, s, t1);
        let m1 = m0.push(self.0.model());
        let u1 = u0 + self.0.wire().len();
        lemma_field_roundtrip(&self.1, m1, u1, s, t2);
        let m2 = m1.push(self.1.model());
        let u2 = u1 + self.1.wire().len();
        lemma_field_roundtrip(&self.2, m2, u2, s, t3);
        let m3 = m2.push(self.2.model());
        let u3 = u2 + self.2.wire().len();
        assert(m3 =~= seq![self.0.model(), self.1.model(), self.2.model()]);
    }
}

impl<
    A: BinProtWrite,
    B: BinProtWrite,
    C: BinProtWrite,
    D: BinProtWrite,
> BinProtWrite for (A, B, C, D) {
    open spec fn wire(&self) -> Seq<u8> {
        self.0.wire() + self.1.wire() + self.2.wire() + self.3.wire()
    }

    fn binprot_write(&self, w: &mut Vec<u8>) {
        self.0.binprot_write(w);
        self.1.binprot_write(w);
        self.2.binprot_write(w);
        self.3.binprot_write(w);
        assert(w@ =~= old(w)@ + self.wire());
    }
}

impl<A: BinProtRead, B: BinProtRead, C: BinProtRead, D: BinProtRead> BinProtRead for (A, B, C, D) {
    open spec fn model(&self) -> Val {
        Val::List(seq![self.0.model(), self.1.model(), self.2.model(), self.3.model()])
    }

    open spec fn parse(s: Seq<u8>) -> Parsed<Val> {
        let read0 = no_fields();
        let read1 = then_parse::<A>(read0, s);
        let read2 = then_parse::<B>(read1, s);
        let read3 = then_parse::<C>(read2, s);
        let read4 = then_parse::<D>(read3, s);
        as_list(read4)
    }

    fn binprot_read(r: &mut Source) -> (res: Result<Self, Error>) {
        let ghost s = r.rest();
        let ghost read0 = no_fields();
        assert(s.skip(0) =~= s);
        let f0: A = match read_field::<A>(r, Ghost(s), Ghost(read0)) {
            Ok(v) => v,
            Err(e) => {
                return Err(e);
            },
        };
        let ghost read1 = then_parse::<A>(read0, s);
        let f1: B = match read_field::<B>(r, Ghost(s), Ghost(read1)) {
            Ok(v) => v,
            Err(e) => {
                return Err(e);
            },
        };
        let ghost read2 = then_parse::<B>(read1, s);
        let f2: C = match read_field::<C>(r, Ghost(s), Ghost(read2)) {
            Ok(v) => v,
            Err(e) => {
                return Err(e);
            },
        };
        let ghost read3 = then_parse::<C>(read2, s);
        let f3: D = match read_field::<D>(r, Ghost(s), Ghost(read3)) {
            Ok(v) => v,
            Err(e) => {
                return Err(e);
            },
        };
        let ghost read4 = then_parse::<D>(read3, s);
        assert(read4->Ok_0.0 =~= seq![f0.model(), f1.model(), f2.model(), f3.model()]);
        Ok((f0, f1, f2, f3))
    }
}

impl<A: BinProtLaws, B: BinProtLaws, C: BinProtLaws, D: BinProtLaws> BinProtLaws for (A, B, C, D) {
    open spec fn encodable(&self) -> bool {
        self.0.encodable() && self.1.encodable() && self.2.encodable() && self.3.encodable()
    }

    proof fn lemma_roundtrip(&self, rest: Seq<u8>) {
        let s = self.wire() + rest;
        let t4 = rest;
        let t3 = self.3.wire() + t4;
        let t2 = self.2.wire() + t3;
        let t1 = self.1.wire() + t2;
        let t0 = self.0.wire() + t1;
        assert(s =~= t0);
        assert(s.skip(0) =~= s);
        let m0 = Seq::<Val>::empty();
        let u0: nat = 0;
        lemma_field_roundtrip(&self.0, m0, u0, s, t1);
        let m1 = m0.push(self.0.model());
        let u1 = u0 + self.0.wire().len();
        lemma_field_roundtrip(&self.1, m1, u1, s, t2);
        let m2 = m1.push(self.1.model());
        let u2 = u1 + self.1.wire().len();
        lemma_field_roundtrip(&self.2, m2, u2, s, t3);
        let m3 = m2.push(self.2.model());
        let u3 = u2 + self.2.wire().len();
        lemma_field_roundtrip(&self.3, m3, u3, s, t4);
        let m4 = m3.push(self.3.model());
        let u4 = u3 + self.3.wire().len();
        assert(m4 =~= seq![self.0.model(), self.1.model(), self.2.model(), self.3.model()]);
    }
}

impl<
    A: BinProtWrite,
    B: BinProtWrite,
    C: BinProtWrite,
    D: BinProtWrite,
    E: BinProtWrite,
> BinProtWrite for (A, B, C, D, E) {
    open spec fn wire(&self) -> Seq<u8> {
        self.0.wire() + self.1.wire() + self.2.wire() + self.3.wire() + self.4.wire()
    }

    fn binprot_write(&self, w: &mut Vec<u8>) {
        self.0.binprot_write(w);
        self.1.binprot_write(w);
        self.2.binprot_write(w);
        self.3.binprot_write(w);
        self.4.binprot_write(w);
        assert(w@ =~= old(w)@ + self.wire());
    }
}

impl<
    A: BinProtRead,
    B: BinProtRead,
    C: BinProtRead,
    D: BinProtRead,
    E: BinProtRead,
> BinProtRead for (A, B, C, D, E) {
    open spec fn model(&self) -> Val {
        Val::List(seq![
            self.0.model(),
            self.1.model(),
            self.2.model(),
            self.3.model(),
            self.4.model(),
        ])
    }

    open spec fn parse(s: Seq<u8>) -> Parsed<Val> {
        let read0 = no_fields();
        let read1 = then_parse::<A>(read0, s);
        let read2 = then_parse::<B>(read1, s);
        let read3 = then_parse::<C>(read2, s);
        let read4 = then_parse::<D>(read3, s);
        let read5 = then_parse::<E>(read4, s);
        as_list(read5)
    }

    fn binprot_read(r: &mut Source) -> (res: Result<Self, Error>) {
        let ghost s = r.rest();
        let ghost read0 = no_fields();
        assert(s.skip(0) =~= s);
        let f0: A = match read_field::<A>(r, Ghost(s), Ghost(read0)) {
            Ok(v) => v,
            Err(e) => {
                return Err(e);
            },
        };
        let ghost read1 = then_parse::<A>(read0, s);
        let f1: B = match read_field::<B>(r, Ghost(s), Ghost(read1)) {
            Ok(v) => v,
            Err(e) => {
                return Err(e);
            },
        };
        let ghost read2 = then_parse::<B>(read1, s);
        let f2: C = match read_field::<C>(r, Ghost(s), Ghost(read2)) {
            Ok(v) => v,
            Err(e) => {
                return Err(e);
            },
        };
        let ghost read3 = then_parse::<C>(read2, s);
        let f3: D = match read_field::<D>(r, Ghost(s), Ghost(read3)) {
            Ok(v) => v,
            Err(e) => {
                return Err(e);
            },
        };
        let ghost read4 = then_parse::<D>(read3, s);
        let f4: E = match read_field::<E>(r, Ghost(s), Ghost(read4)) {
            Ok(v) => v,
            Err(e) => {
                return Err(e);
            },
        };
        let ghost read5 = then_parse::<E>(read4, s);
        assert(read5->Ok_0.0 =~= seq![f0.model(), f1.model(), f2.model(), f3.model(), f4.model()]);
        Ok((f0, f1, f2, f3, f4))
    }
}

impl<
    A: BinProtLaws,
    B: BinProtLaws,
    C: BinProtLaws,
    D: BinProtLaws,
    E: BinProtLaws,
> BinProtLaws for (A, B, C, D, E) {
    open spec fn encodable(&self) -> bool {
        self.0.encodable() && self.1.encodable() && self.2.encodable() && self.3.encodable()
            && self.4.encodable()
    }

    proof fn lemma_roundtrip(&self, rest: Seq<u8>) {
        let s = self.wire() + rest;
        let t5 = rest;
        let t4 = self.4.wire() + t5;
        let t3 = self.3.wire() + t4;
        let t2 = self.2.wire() + t3;
        let t1 = self.1.wire() + t2;
        let t0 = self.0.wire() + t1;
        assert(s =~= t0);
        assert(s.skip(0) =~= s);
        let m0 = Seq::<Val>::empty();
        let u0: nat = 0;
        lemma_field_roundtrip(&self.0, m0, u0, s, t1);
        let m1 = m0.push(self.0.model());
        let u1 = u0 + self.0.wire().len();
        lemma_field_roundtrip(&self.1, m1, u1, s, t2);
        let m2 = m1.push(self.1.model());
        let u2 = u1 + self.1.wire().len();
        lemma_field_roundtrip(&self.2, m2, u2, s, t3);
        let m3 = m2.push(self.2.model());
        let u3 = u2 + self.2.wire().len();
        lemma_field_roundtrip(&self.3, m3, u3, s, t4);
        let m4 = m3.push(self.3.model());
        let u4 = u3 + self.3.wire().len();
        lemma_field_roundtrip(&self.4, m4, u4, s, t5);
        let m5 = m4.push(self.4.model());
        let u5 = u4 + self.4.wire().len();
        assert(m5 =~= seq![
            self.0.model(),
            self.1.model(),
            self.2.model(),
            self.3.model(),
            self.4.model(),
        ]);
    }
}

impl<
    A: BinProtWrite,
    B: BinProtWrite,
    C: BinProtWrite,
    D: BinProtWrite,
    E: BinProtWrite,
    F: BinProtWrite,
> BinProtWrite for (A, B, C, D, E, F) {
    open spec fn wire(&self) -> Seq<u8> {
        self.0.wire() + self.1.wire() + self.2.wire() + self.3.wire() + self.4.wire()
            + self.5.wire()
    }

    fn binprot_write(&self, w: &mut Vec<u8>) {
        self.0.binprot_write(w);
        self.1.binprot_write(w);
        self.2.binprot_write(w);
        self.3.binprot_write(w);
        self.4.binprot_write(w);
        self.5.binprot_write(w);
        assert(w@ =~= old(w)@ + self.wire());
    }
}

impl<
    A: BinProtRead,
    B: BinProtRead,
    C: BinProtRead,
    D: BinProtRead,
    E: BinProtRead,
    F: BinProtRead,
> BinProtRead for (A, B, C, D, E, F) {
    open spec fn model(&self) -> Val {
        Val::List(seq![
            self.0.model(),
            self.1.model(),
            self.2.model(),
            self.3.model(),
            self.4.model(),
            self.5.model(),
        ])
    }

    open spec fn parse(s: Seq<u8>) -> Parsed<Val> {
        let read0 = no_fields();
        let read1 = then_parse::<A>(read0, s);
        let read2 = then_parse::<B>(read1, s);
        let read3 = then_parse::<C>(read2, s);
        let read4 = then_parse::<D>(read3, s);
        let read5 = then_parse::<E>(read4, s);
        let read6 = then_parse::<F>(read5, s);
        as_list(read6)
    }

    fn binprot_read(r: &mut Source) -> (res: Result<Self, Error>) {
        let ghost s = r.rest();
        let ghost read0 = no_fields();
        assert(s.skip(0) =~= s);
        let f0: A = match read_field::<A>(r, Ghost(s), Ghost(read0)) {
            Ok(v) => v,
            Err(e) => {
                return Err(e);
            },
        };
        let ghost read1 = then_parse::<A>(read0, s);
        let f1: B = match read_field::<B>(r, Ghost(s), Ghost(read1)) {
            Ok(v) => v,
            Err(e) => {
                return Err(e);
            },
        };
        let ghost read2 = then_parse::<B>(read1, s);
        let f2: C = match read_field::<C>(r, Ghost(s), Ghost(read2)) {
            Ok(v) => v,
            Err(e) => {
                return Err(e);
            },
        };
        let ghost read3 = then_parse::<C>(read2, s);
        let f3: D = match read_field::<D>(r, Ghost(s), Ghost(read3)) {
            Ok(v) => v,
            Err(e) => {
                return Err(e);
            },
        };
        let ghost read4 = then_parse::<D>(read3, s);
        let f4: E = match read_field::<E>(r, Ghost(s), Ghost(read4)) {
            Ok(v) => v,
            Err(e) => {
                return Err(e);
            },
        };
        let ghost read5 = then_parse::<E>(read4, s);
        let f5: F = match read_field::<F>(r, Ghost(s), Ghost(read5)) {
            Ok(v) => v,
            Err(e) => {
                return Err(e);
            },
        };
        let ghost read6 = then_parse::<F>(read5, s);
        assert(read6->Ok_0.0 =~= seq![
            f0.model(),
            f1.model(),
            f2.model(),
            f3.model(),
            f4.model(),
            f5.model(),
        ]);
        Ok((f0, f1, f2, f3, f4, f5))
    }
}

impl<
    A: BinProtLaws,
    B: BinProtLaws,
    C: BinProtLaws,
    D: BinProtLaws,
    E: BinProtLaws,
    F: BinProtLaws,
> BinProtLaws for (A, B, C, D, E, F) {
    open spec fn encodable(&self) -> bool {
        self.0.encodable() && self.1.encodable() && self.2.encodable() && self.3.encodable()
            && self.4.encodable() && self.5.encodable()
    }

    proof fn lemma_roundtrip(&self, rest: Seq<u8>) {
        let s = self.wire() + rest;
        let t6 = rest;
        let t5 = self.5.wire() + t6;
        let t4 = self.4.wire() + t5;
        let t3 = self.3.wire() + t4;
        let t2 = self.2.wire() + t3;
        let t1 = self.1.wire() + t2;
        let t0 = self.0.wire() + t1;
        assert(s =~= t0);
        assert(s.skip(0) =~= s);
        let m0 = Seq::<Val>::empty();
        let u0: nat = 0;
        lemma_field_roundtrip(&self.0, m0, u0, s, t1);
        let m1 = m0.push(self.0.model());
        let u1 = u0 + self.0.wire().len();
        lemma_field_roundtrip(&self.1, m1, u1, s, t2);
        let m2 = m1.push(self.1.model());
        let u2 = u1 + self.1.wire().len();
        lemma_field_roundtrip(&self.2, m2, u2, s, t3);
        let m3 = m2.push(self.2.model());
        let u3 = u2 + self.2.wire().len();
        lemma_field_roundtrip(&self.3, m3, u3, s, t4);
        let m4 = m3.push(self.3.model());
        let u4 = u3 + self.3.wire().len();
        lemma_field_roundtrip(&self.4, m4, u4, s, t5);
        let m5 = m4.push(self.4.model());
        let u5 = u4 + self.4.wire().len();
        lemma_field_roundtrip(&self.5, m5, u5, s, t6);
        let m6 = m5.push(self.5.model());
        let u6 = u5 + self.5.wire().len();
        assert(m6 =~= seq![
            self.0.model(),
            self.1.model(),
            self.2.model(),
            self.3.model(),
            self.4.model(),
            self.5.model(),
        ]);
    }
}

impl<
    A: BinProtWrite,
    B: BinProtWrite,
    C: BinProtWrite,
    D: BinProtWrite,
    E: BinProtWrite,
    F: BinProtWrite,
    G: BinProtWrite,
> BinProtWrite for (A, B, C, D, E, F, G) {
    open spec fn wire(&self) -> Seq<u8> {
        self.0.wire() + self.1.wire() + self.2.wire() + self.3.wire() + self.4.wire()
            + self.5.wire() + self.6.wire()
    }

    fn binprot_write(&self, w: &mut Vec<u8>) {
        self.0.binprot_write(w);
        self.1.binprot_write(w);
        self.2.binprot_write(w);
        self.3.binprot_write(w);
        self.4.binprot_write(w);
        self.5.binprot_write(w);
        self.6.binprot_write(w);
        assert(w@ =~= old(w)@ + self.wire());
    }
}

impl<
    A: BinProtRead,
    B: BinProtRead,
    C: BinProtRead,
    D: BinProtRead,
    E: BinProtRead,
    F: BinProtRead,
    G: BinProtRead,
> BinProtRead for (A, B, C, D, E, F, G) {
    open spec fn model(&self) -> Val {
        Val::List(seq![
            self.0.model(),
            self.1.model(),
            self.2.model(),
            self.3.model(),
            self.4.model(),
            self.5.model(),
            self.6.model(),
        ])
    }

    open spec fn parse(s: Seq<u8>) -> Parsed<Val> {
        let read0 = no_fields();
        let read1 = then_parse::<A>(read0, s);
        let read2 = then_parse::<B>(read1, s);
        let read3 = then_parse::<C>(read2, s);
        let read4 = then_parse::<D>(read3, s);
        let read5 = then_parse::<E>(read4, s);
        let read6 = then_parse::<F>(read5, s);
        let read7 = then_parse::<G>(read6, s);
        as_list(read7)
    }

    fn binprot_read(r: &mut Source) -> (res: Result<Self, Error>) {
        let ghost s = r.rest();
        let ghost read0 = no_fields();
        assert(s.skip(0) =~= s);
        let f0: A = match read_field::<A>(r, Ghost(s), Ghost(read0)) {
            Ok(v) => v,
            Err(e) => {
                return Err(e);
            },
        };
        let ghost read1 = then_parse::<A>(read0, s);
        let f1: B = match read_field::<B>(r, Ghost(s), Ghost(read1)) {
            Ok(v) => v,
            Err(e) => {
                return Err(e);
            },
        };
        let ghost read2 = then_parse::<B>(read1, s);
        let f2: C = match read_field::<C>(r, Ghost(s), Ghost(read2)) {
            Ok(v) => v,
            Err(e) => {
                return Err(e);
            },
        };
        let ghost read3 = then_parse::<C>(read2, s);
        let f3: D = match read_field::<D>(r, Ghost(s), Ghost(read3)) {
            Ok(v) => v,
            Err(e) => {
                return Err(e);
            },
        };
        let ghost read4 = then_parse::<D>(read3, s);
        let f4: E = match read_field::<E>(r, Ghost(s), Ghost(read4)) {
            Ok(v) => v,
            Err(e) => {
                return Err(e);
            },
        };
        let ghost read5 = then_parse::<E>(read4, s);
        let f5: F = match read_field::<F>(r, Ghost(s), Ghost(read5)) {
            Ok(v) => v,
            Err(e) => {
                return Err(e);
            },
        };
        let ghost read6 = then_parse::<F>(read5, s);
        let f6: G = match read_field::<G>(r, Ghost(s), Ghost(read6)) {
            Ok(v) => v,
            Err(e) => {
                return Err(e);
            },
        };
        let ghost read7 = then_parse::<G>(read6, s);
        assert(read7->Ok_0.0 =~= seq![
            f0.model(),
            f1.model(),
            f2.model(),
            f3.model(),
            f4.model(),
            f5.model(),
            f6.model(),
        ]);
        Ok((f0, f1, f2, f3, f4, f5, f6))
    }
}

impl<
    A: BinProtLaws,
    B: BinProtLaws,
    C: BinProtLaws,
    D: BinProtLaws,
    E: BinProtLaws,
    F: BinProtLaws,
    G: BinProtLaws,
> BinProtLaws for (A, B, C, D, E, F, G) {
    open spec fn encodable(&self) -> bool {
        self.0.encodable() && self.1.encodable() && self.2.encodable() && self.3.encodable()
            && self.4.encodable() && self.5.encodable() && self.6.encodable()
    }

    proof fn lemma_roundtrip(&self, rest: Seq<u8>) {
        let s = self.wire() + rest;
        let t7 = rest;
        let t6 = self.6.wire() + t7;
        let t5 = self.5.wire() + t6;
        let t4 = self.4.wire() + t5;
        let t3 = self.3.wire() + t4;
        let t2 = self.2.wire() + t3;
        let t1 = self.1.wire() + t2;
        let t0 = self.0.wire() + t1;
        assert(s =~= t0);
        assert(s.skip(0) =~= s);
        let m0 = Seq::<Val>::empty();
        let u0: nat = 0;
        lemma_field_roundtrip(&self.0, m0, u0, s, t1);
        let m1 = m0.push(self.0.model());
        let u1 = u0 + self.0.wire().len();
        lemma_field_roundtrip(&self.1, m1, u1, s, t2);
        let m2 = m1.push(self.1.model());
        let u2 = u1 + self.1.wire().len();
        lemma_field_roundtrip(&self.2, m2, u2, s, t3);
        let m3 = m2.push(self.2.model());
        let u3 = u2 + self.2.wire().len();
        lemma_field_roundtrip(&self.3, m3, u3, s, t4);
        let m4 = m3.push(self.3.model());
        let u4 = u3 + self.3.wire().len();
        lemma_field_roundtrip(&self.4, m4, u4, s, t5);
        let m5 = m4.push(self.4.model());
        let u5 = u4 + self.4.wire().len();
        lemma_field_roundtrip(&self.5, m5, u5, s, t6);
        let m6 = m5.push(self.5.model());
        let u6 = u5 + self.5.wire().len();
        lemma_field_roundtrip(&self.6, m6, u6, s, t7);
        let m7 = m6.push(self.6.model());
        let u7 = u6 + self.6.wire().len();
        assert(m7 =~= seq![
            self.0.model(),
            self.1.model(),
            self.2.model(),
            self.3.model(),
            self.4.model(),
            self.5.model(),
            self.6.model(),
        ]);
    }
}

impl<
    A: BinProtWrite,
    B: BinProtWrite,
    C: BinProtWrite,
    D: BinProtWrite,
    E: BinProtWrite,
    F: BinProtWrite,
    G: BinProtWrite,
    H: BinProtWrite,
> BinProtWrite for (A, B, C, D, E, F, G, H) {
    open spec fn wire(&self) -> Seq<u8> {
        self.0.wire() + self.1.wire() + self.2.wire() + self.3.wire() + self.4.wire()
            + self.5.wire() + self.6.wire() + self.7.wire()
    }

    fn binprot_write(&self, w: &mut Vec<u8>) {
        self.0.binprot_write(w);
        self.1.binprot_write(w);
        self.2.binprot_write(w);
        self.3.binprot_write(w);
        self.4.binprot_write(w);
        self.5.binprot_write(w);
        self.6.binprot_write(w);
        self.7.binprot_write(w);
        assert(w@ =~= old(w)@ + self.wire());
    }
}

impl<
    A: BinProtRead,
    B: BinProtRead,
    C: BinProtRead,
    D: BinProtRead,
    E: BinProtRead,
    F: BinProtRead,
    G: BinProtRead,
    H: BinProtRead,
> BinProtRead for (A, B, C, D, E, F, G, H) {
    open spec fn model(&self) -> Val {
        Val::List(seq![
            self.0.model(),
            self.1.model(),
            self.2.model(),
            self.3.model(),
            self.4.model(),
            self.5.model(),
            self.6.model(),
            self.7.model(),
        ])
    }

    open spec fn parse(s: Seq<u8>) -> Parsed<Val> {
        let read0 = no_fields();
        let read1 = then_parse::<A>(read0, s);
        let read2 = then_parse::<B>(read1, s);
        let read3 = then_parse::<C>(read2, s);
        let read4 = then_parse::<D>(read3, s);
        let read5 = then_parse::<E>(read4, s);
        let read6 = then_parse::<F>(read5, s);
        let read7 = then_parse::<G>(read6, s);
        let read8 = then_parse::<H>(read7, s);
        as_list(read8)
    }

    fn binprot_read(r: &mut Source) -> (res: Result<Self, Error>) {
        let ghost s = r.rest();
        let ghost read0 = no_fields();
        assert(s.skip(0) =~= s);
        let f0: A = match read_field::<A>(r, Ghost(s), Ghost(read0)) {
            Ok(v) => v,
            Err(e) => {
                return Err(e);
            },
        };
        let ghost read1 = then_parse::<A>(read0, s);
        let f1: B = match read_field::<B>(r, Ghost(s), Ghost(read1)) {
            Ok(v) => v,
            Err(e) => {
                return Err(e);
            },
        };
        let ghost read2 = then_parse::<B>(read1, s);
        let f2: C = match read_field::<C>(r, Ghost(s), Ghost(read2)) {
            Ok(v) => v,
            Err(e) => {
                return Err(e);
            },
        };
        let ghost read3 = then_parse::<C>(read2, s);
        let f3: D = match read_field::<D>(r, Ghost(s), Ghost(read3)) {
            Ok(v) => v,
            Err(e) => {
                return Err(e);
            },
        };
        let ghost read4 = then_parse::<D>(read3, s);
        let f4: E = match read_field::<E>(r, Ghost(s), Ghost(read4)) {
            Ok(v) => v,
            Err(e) => {
                return Err(e);
            },
        };
        let ghost read5 = then_parse::<E>(read4, s);
        let f5: F = match read_field::<F>(r, Ghost(s), Ghost(read5)) {
            Ok(v) => v,
            Err(e) => {
                return Err(e);
            },
        };
        let ghost read6 = then_parse::<F>(read5, s);
        let f6: G = match read_field::<G>(r, Ghost(s), Ghost(read6)) {
            Ok(v) => v,
            Err(e) => {
                return Err(e);
            },
        };
        let ghost read7 = then_parse::<G>(read6, s);
        let f7: H = match read_field::<H>(r, Ghost(s), Ghost(read7)) {
            Ok(v) => v,
            Err(e) => {
                return Err(e);
            },
        };
        let ghost read8 = then_parse::<H>(read7, s);
        assert(read8->Ok_0.0 =~= seq![
            f0.model(),
            f1.model(),
            f2.model(),
            f3.model(),
            f4.model(),
            f5.model(),
            f6.model(),
            f7.model(),
        ]);
        Ok((f0, f1, f2, f3, f4, f5, f6, f7))
    }
}

impl<
    A: BinProtLaws,
    B: BinProtLaws,
    C: BinProtLaws,
    D: BinProtLaws,
    E: BinProtLaws,
    F: BinProtLaws,
    G: BinProtLaws,
    H: BinProtLaws,
> BinProtLaws for (A, B, C, D, E, F, G, H) {
    open spec fn encodable(&self) -> bool {
        self.0.encodable() && self.1.encodable() && self.2.encodable() && self.3.encodable()
            && self.4.encodable() && self.5.encodable() && self.6.encodable() && self.7.encodable()
    }

    proof fn lemma_roundtrip(&self, rest: Seq<u8>) {
        let s = self.wire() + rest;
        let t8 = rest;
        let t7 = self.7.wire() + t8;
        let t6 = self.6.wire() + t7;
        let t5 = self.5.wire() + t6;
        let t4 = self.4.wire() + t5;
        let t3 = self.3.wire() + t4;
        let t2 = self.2.wire() + t3;
        let t1 = self.1.wire() + t2;
        let t0 = self.0.wire() + t1;
        assert(s =~= t0);
        assert(s.skip(0) =~= s);
        let m0 = Seq::<Val>::empty();
        let u0: nat = 0;
        lemma_field_roundtrip(&self.0, m0, u0, s, t1);
        let m1 = m0.push(self.0.model());
        let u1 = u0 + self.0.wire().len();
        lemma_field_roundtrip(&self.1, m1, u1, s, t2);
        let m2 = m1.push(self.1.model());
        let u2 = u1 + self.1.wire().len();
        lemma_field_roundtrip(&self.2, m2, u2, s, t3);
        let m3 = m2.push(self.2.model());
        let u3 = u2 + self.2.wire().len();
        lemma_field_roundtrip(&self.3, m3, u3, s, t4);
        let m4 = m3.push(self.3.model());
        let u4 = u3 + self.3.wire().len();
        lemma_field_roundtrip(&self.4, m4, u4, s, t5);
        let m5 = m4.push(self.4.model());
        let u5 = u4 + self.4.wire().len();
        lemma_field_roundtrip(&self.5, m5, u5, s, t6);
        let m6 = m5.push(self.5.model());
        let u6 = u5 + self.5.wire().len();
        lemma_field_roundtrip(&self.6, m6, u6, s, t7);
        let m7 = m6.push(self.6.model());
        let u7 = u6 + self.6.wire().len();
        lemma_field_roundtrip(&self.7, m7, u7, s, t8);
        let m8 = m7.push(self.7.model());
        let u8 = u7 + self.7.wire().len();
        assert(m8 =~= seq![
            self.0.model(),
            self.1.model(),
            self.2.model(),
            self.3.model(),
            self.4.model(),
            self.5.model(),
            self.6.model(),
            self.7.model(),
        ]);
    }
}

impl<
    A: BinProtWrite,
    B: BinProtWrite,
    C: BinProtWrite,
    D: BinProtWrite,
    E: BinProtWrite,
    F: BinProtWrite,
    G: BinProtWrite,
    H: BinProtWrite,
    I: BinProtWrite,
> BinProtWrite for (A, B, C, D, E, F, G, H, I) {
    open spec fn wire(&self) -> Seq<u8> {
        self.0.wire() + self.1.wire() + self.2.wire() + self.3.wire() + self.4.wire()
            + self.5.wire() + self.6.wire() + self.7.wire() + self.8.wire()
    }

    fn binprot_write(&self, w: &mut Vec<u8>) {
        self.0.binprot_write(w);
        self.1.binprot_write(w);
        self.2.binprot_write(w);
        self.3.binprot_write(w);
        self.4.binprot_write(w);
        self.5.binprot_write(w);
        self.6.binprot_write(w);
        self.7.binprot_write(w);
        self.8.binprot_write(w);
        assert(w@ =~= old(w)@ + self.wire());
    }
}

impl<
    A: BinProtRead,
    B: BinProtRead,
    C: BinProtRead,
    D: BinProtRead,
    E: BinProtRead,
    F: BinProtRead,
    G: BinProtRead,
    H: BinProtRead,
    I: BinProtRead,
> BinProtRead for (A, B, C, D, E, F, G, H, I) {
    open spec fn model(&self) -> Val {
        Val::List(seq![
            self.0.model(),
            self.1.model(),
            self.2.model(),
            self.3.model(),
            self.4.model(),
            self.5.model(),
            self.6.model(),
            self.7.model(),
            self.8.model(),
        ])
    }

    open spec fn parse(s: Seq<u8>) -> Parsed<Val> {
        let read0 = no_fields();
        let read1 = then_parse::<A>(read0, s);
        let read2 = then_parse::<B>(read1, s);
        let read3 = then_parse::<C>(read2, s);
        let read4 = then_parse::<D>(read3, s);
        let read5 = then_parse::<E>(read4, s);
        let read6 = then_parse::<F>(read5, s);
        let read7 = then_parse::<G>(read6, s);
        let read8 = then_parse::<H>(read7, s);
        let read9 = then_parse::<I>(read8, s);
        as_list(read9)
    }

    fn binprot_read(r: &mut Source) -> (res: Result<Self, Error>) {
        let ghost s = r.rest();
        let ghost read0 = no_fields();
        assert(s.skip(0) =~= s);
        let f0: A = match read_field::<A>(r, Ghost(s), Ghost(read0)) {
            Ok(v) => v,
            Err(e) => {
                return Err(e);
            },
        };
        let ghost read1 = then_parse::<A>(read0, s);
        let f1: B = match read_field::<B>(r, Ghost(s), Ghost(read1)) {
            Ok(v) => v,
            Err(e) => {
                return Err(e);
            },
        };
        let ghost read2 = then_parse::<B>(read1, s);
        let f2: C = match read_field::<C>(r, Ghost(s), Ghost(read2)) {
            Ok(v) => v,
            Err(e) => {
                return Err(e);
            },
        };
        let ghost read3 = then_parse::<C>(read2, s);
        let f3: D = match read_field::<D>(r, Ghost(s), Ghost(read3)) {
            Ok(v) => v,
            Err(e) => {
                return Err(e);
            },
        };
        let ghost read4 = then_parse::<D>(read3, s);
        let f4: E = match read_field::<E>(r, Ghost(s), Ghost(read4)) {
            Ok(v) => v,
            Err(e) => {
                return Err(e);
            },
        };
        let ghost read5 = then_parse::<E>(read4, s);
        let f5: F = match read_field::<F>(r, Ghost(s), Ghost(read5)) {
            Ok(v) => v,
            Err(e) => {
                return Err(e);
            },
        };
        let ghost read6 = then_parse::<F>(read5, s);
        let f6: G = match read_field::<G>(r, Ghost(s), Ghost(read6)) {
            Ok(v) => v,
            Err(e) => {
                return Err(e);
            },
        };
        let ghost read7 = then_parse::<G>(read6, s);
        let f7: H = match read_field::<H>(r, Ghost(s), Ghost(read7)) {
            Ok(v) => v,
            Err(e) => {
                return Err(e);
            },
        };
        let ghost read8 = then_parse::<H>(read7, s);
        let f8: I = match read_field::<I>(r, Ghost(s), Ghost(read8)) {
            Ok(v) => v,
            Err(e) => {
                return Err(e);
            },
        };
        let ghost read9 = then_parse::<I>(read8, s);
        assert(read9->Ok_0.0 =~= seq![
            f0.model(),
            f1.model(),
            f2.model(),
            f3.model(),
            f4.model(),
            f5.model(),
            f6.model(),
            f7.model(),
            f8.model(),
        ]);
        Ok((f0, f1, f2, f3, f4, f5, f6, f7, f8))
    }
}

impl<
    A: BinProtLaws,
    B: BinProtLaws,
    C: BinProtLaws,
    D: BinProtLaws,
    E: BinProtLaws,
    F: BinProtLaws,
    G: BinProtLaws,
    H: BinProtLaws,
    I: BinProtLaws,
> BinProtLaws for (A, B, C, D, E, F, G, H, I) {
    open spec fn encodable(&self) -> bool {
        self.0.encodable() && self.1.encodable() && self.2.encodable() && self.3.encodable()
            && self.4.encodable() && self.5.encodable() && self.6.encodable() && self.7.encodable()
            && self.8.encodable()
    }

    proof fn lemma_roundtrip(&self, rest: Seq<u8>) {
        let s = self.wire() + rest;
        let t9 = rest;
        let t8 = self.8.wire() + t9;
        let t7 = self.7.wire() + t8;
        let t6 = self.6.wire() + t7;
        let t5 = self.5.wire() + t6;
        let t4 = self.4.wire() + t5;
        let t3 = self.3.wire() + t4;
        let t2 = self.2.wire() + t3;
        let t1 = self.1.wire() + t2;
        let t0 = self.0.wire() + t1;
        assert(s =~= t0);
        assert(s.skip(0) =~= s);
        let m0 = Seq::<Val>::empty();
        let u0: nat = 0;
        lemma_field_roundtrip(&self.0, m0, u0, s, t1);
        let m1 = m0.push(self.0.model());
        let u1 = u0 + self.0.wire().len();
        lemma_field_roundtrip(&self.1, m1, u1, s, t2);
        let m2 = m1.push(self.1.model());
        let u2 = u1 + self.1.wire().len();
        lemma_field_roundtrip(&self.2, m2, u2, s, t3);
        let m3 = m2.push(self.2.model());
        let u3 = u2 + self.2.wire().len();
        lemma_field_roundtrip(&self.3, m3, u3, s, t4);
        let m4 = m3.push(self.3.model());
        let u4 = u3 + self.3.wire().len();
        lemma_field_roundtrip(&self.4, m4, u4, s, t5);
        let m5 = m4.push(self.4.model());
        let u5 = u4 + self.4.wire().len();
        lemma_field_roundtrip(&self.5, m5, u5, s, t6);
        let m6 = m5.push(self.5.model());
        let u6 = u5 + self.5.wire().len();
        lemma_field_roundtrip(&self.6, m6, u6, s, t7);
        let m7 = m6.push(self.6.model());
        let u7 = u6 + self.6.wire().len();
        lemma_field_roundtrip(&self.7, m7, u7, s, t8);
        let m8 = m7.push(self.7.model());
        let u8 = u7 + self.7.wire().len();
        lemma_field_roundtrip(&self.8, m8, u8, s, t9);
        let m9 = m8.push(self.8.model());
        let u9 = u8 + self.8.wire().len();
        assert(m9 =~= seq![
            self.0.model(),
            self.1.model(),
            self.2.model(),
            self.3.model(),
            self.4.model(),
            self.5.model(),
            self.6.model(),
            self.7.model(),
            self.8.model(),
        ]);
    }
}

} // verus!
