//! The capabilities that an encodable type has: writing itself, reading
//! itself back, telling its size and telling its shape.
use crate::context::{asked, keeps, type_id_of, ShapeContext};
use crate::error::Error;
use crate::integer::Parsed;
use crate::shape::Shape;
use crate::source::Source;
use std::any::TypeId;
use vstd::prelude::*;

verus! {

/// The content of a value, apart from how a type holds it in memory. It is
/// what a decoder is said to produce: two values of one type are the same
/// value when their contents are equal.
pub enum Val {
    /// The unit value.
    Unit,
    /// A boolean.
    Bool(bool),
    /// A number of any integer type, or a float by its bits.
    Int(int),
    /// A string, by its characters.
    Str(Seq<char>),
    /// A byte buffer.
    Bytes(Seq<u8>),
    /// An optional value.
    Opt(Option<Box<Val>>),
    /// The items of a sequence, the fields of a tuple or record, or the
    /// entries of a map.
    List(Seq<Val>),
}

/// A type that can be written.
///
/// A verified implementation states its encoding in `wire`. One that is
/// not verified leaves `wire` as it is, and nothing is known of it.
pub trait BinProtWrite {
    /// The bytes that encode this value.
    open spec fn wire(&self) -> Seq<u8> {
        arbitrary()
    }

    /// Appends the encoding of this value to `w`.
    fn binprot_write(&self, w: &mut Vec<u8>)
        ensures
            final(w)@ == old(w)@ + self.wire(),
    ;
}

/// A type that can be read.
///
/// A verified implementation states in `parse` what each byte string
/// decodes to, and in `model` the content of each of its values. One that
/// is not verified leaves both as they are.
pub trait BinProtRead: Sized {
    /// The content of this value.
    open spec fn model(&self) -> Val {
        arbitrary()
    }

    /// What the front of `s` decodes to: a content and the number of bytes
    /// it took, or the error.
    open spec fn parse(s: Seq<u8>) -> Parsed<Val> {
        arbitrary()
    }

    /// Decodes a value from the front of `r`, reading no further than the
    /// value goes. After an error the position of `r` is not specified.
    fn binprot_read(r: &mut Source) -> (res: Result<Self, Error>)
        ensures
            final(r).all() == old(r).all(),
            match Self::parse(old(r).rest()) {
                Ok((m, n)) => {
                    &&& res is Ok
                    &&& res->Ok_0.model() == m
                    &&& n <= old(r).rest().len()
                    &&& final(r).rest() == old(r).rest().skip(n as int)
                },
                Err(e) => res == Err::<Self, Error>(e),
            },
    ;
}

/// A type that can tell how long its encoding is.
pub trait BinProtSize: BinProtWrite {
    /// The exact number of bytes that `binprot_write` appends.
    fn binprot_size(&self) -> (n: usize)
        ensures
            n == self.wire().len(),
    ;
}

impl<T: BinProtWrite> BinProtSize for T {
    fn binprot_size(&self) -> (n: usize) {
        let mut w: Vec<u8> = Vec::new();
        self.binprot_write(&mut w);
        assert(w@ =~= self.wire());
        w.len()
    }
}

/// Two values that are written alike are the same value.
pub proof fn lemma_wire_tells_apart<T: BinProtLaws>(a: &T, b: &T)
    requires
        a.encodable(),
        b.encodable(),
        a.wire() == b.wire(),
    ensures
        a.model() == b.model(),
{
    a.lemma_roundtrip(Seq::empty());
    b.lemma_roundtrip(Seq::empty());
}

/// What holds of a type that is both written and read by verified code.
pub trait BinProtLaws: BinProtWrite + BinProtRead {
    /// Whether the value is one that the format can hold: every length
    /// inside it fits the 64-bit count that the format writes, which is so
    /// of every value that fits in memory, and no map has a key twice.
    spec fn encodable(&self) -> bool;

    /// Reading what was written gives the value back, and stops where the
    /// encoding stops, whatever follows it.
    proof fn lemma_roundtrip(&self, rest: Seq<u8>)
        requires
            self.encodable(),
        ensures
            Self::parse(self.wire() + rest) == Ok::<(Val, nat), Error>(
                (self.model(), self.wire().len()),
            ),
    ;
}

/// A type that can tell its shape.
///
/// An implementation gives `binprot_shape_impl`: the shape of the type,
/// where the shape of each type inside it is asked for by
/// `binprot_shape_loop`, which sees to recursion. A verified
/// implementation states in `gives` what `binprot_shape_impl` answers. One
/// that is not verified leaves `gives` as it is, and nothing is known of
/// its answer.
pub trait BinProtShape: 'static {
    /// Whether `binprot_shape_impl` may answer `shape` and leave the context
    /// `after`, where it found the context `before`.
    open spec fn gives(before: Map<TypeId, bool>, shape: Shape, after: Map<TypeId, bool>) -> bool {
        true
    }

    /// The shape of this type, worked out in the context `c`.
    fn binprot_shape_impl(c: &mut ShapeContext) -> (s: Shape)
        ensures
            keeps(old(c)@, final(c)@),
            Self::gives(old(c)@, s, final(c)@),
    ;

    /// The shape of this type as it stands inside another. The type goes
    /// by the identity that std gives it, whatever that is. A type that is
    /// in the context already is being worked out further up: it answers
    /// with the mark of a reference back to itself, and its flag is raised.
    /// Any other enters the context with its flag down, is worked out by
    /// `binprot_shape_impl`, and leaves the context; the answer is what
    /// was worked out, wrapped as a recursive type if the type met itself
    /// on the way.
    fn binprot_shape_loop(typeids: &mut ShapeContext) -> (s: Shape)
        ensures
            keeps(old(typeids)@, final(typeids)@),
            exists|id: TypeId, inner: Shape, worked: Map<TypeId, bool>|
                #[trigger] asked(
                    id,
                    old(typeids)@,
                    inner,
                    worked,
                    s,
                    final(typeids)@,
                    Self::gives(old(typeids)@.insert(id, false), inner, worked),
                ),
    {
        let typeid = type_id_of::<Self>();
        match typeids.enter(typeid) {
            Some(mark) => {
                proof {
                    let before = old(typeids)@;
                    assert(typeids@.dom() =~= before.dom());
                    assert(asked(
                        typeid,
                        before,
                        mark,
                        before,
                        mark,
                        typeids@,
                        Self::gives(before.insert(typeid, false), mark, before),
                    ));
                }
                mark
            },
            None => {
                let ghost entered = typeids@;
                let shape = Self::binprot_shape_impl(typeids);
                let ghost worked = typeids@;
                let out = typeids.leave(typeid, shape);
                proof {
                    let before = old(typeids)@;
                    assert(worked.dom() == entered.dom());
                    assert(worked.contains_key(typeid));
                    assert(typeids@.dom() =~= before.dom());
                    assert forall|k: TypeId| #[trigger]
                        before.contains_key(k) && before[k] implies typeids@[k] by {
                        assert(entered.contains_key(k) && entered[k]);
                    }
                    assert(asked(
                        typeid,
                        before,
                        shape,
                        worked,
                        out,
                        typeids@,
                        Self::gives(before.insert(typeid, false), shape, worked),
                    ));
                }
                out
            },
        }
    }

    /// The shape of this type: what `binprot_shape_loop` answers where no
    /// type is being worked out yet.
    fn binprot_shape() -> (s: Shape)
        ensures
            exists|id: TypeId, inner: Shape, worked: Map<TypeId, bool>|
                #[trigger] asked(
                    id,
                    Map::<TypeId, bool>::empty(),
                    inner,
                    worked,
                    s,
                    Map::<TypeId, bool>::empty(),
                    Self::gives(Map::<TypeId, bool>::empty().insert(id, false), inner, worked),
                ),
    {
        let mut typeids = ShapeContext::new();
        let s = Self::binprot_shape_loop(&mut typeids);
        assert(typeids@ =~= Map::<TypeId, bool>::empty());
        s
    }
}

/// Whether `binprot_shape_loop` of the type `T` may answer `s` and leave
/// the context `after`, where it found the context `before`: for some
/// identity of `T`, the type was met again, or it was worked out by
/// `binprot_shape_impl`.
pub open spec fn loop_gives<T: BinProtShape>(
    before: Map<TypeId, bool>,
    s: Shape,
    after: Map<TypeId, bool>,
) -> bool {
    exists|id: TypeId, inner: Shape, worked: Map<TypeId, bool>|
        #[trigger] asked(
            id,
            before,
            inner,
            worked,
            s,
            after,
            T::gives(before.insert(id, false), inner, worked),
        )
}

} // verus!
