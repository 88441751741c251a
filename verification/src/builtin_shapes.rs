//! The shapes of the built-in types.
use crate::context::{keeps, ShapeContext};
use crate::primitives::Float64;
use crate::shape::{
    applied_to, applied_to_two, base, iterable_binable1_shape, pair_shape, Shape, Uuid,
};
use crate::traits::{loop_gives, BinProtShape};
use std::any::TypeId;
use vstd::prelude::*;

verus! {

/// Whether `s` is the shape of the built-in type `name` without
/// parameters.
pub open spec fn is_base(s: Shape, name: Seq<char>) -> bool {
    is_applied(s, name, 0)
}

/// Whether `s` is the shape of the built-in type `name` applied to
/// `count` parameters.
pub open spec fn is_applied(s: Shape, name: Seq<char>, count: nat) -> bool {
    s matches Shape::Base(uuid, params) && uuid.0@ == name && params@.len() == count
}

/// Whether `s` is the shape of a container of the kind `name` that is
/// written as a list of pairs.
pub open spec fn is_map_shape(s: Shape, name: Seq<char>) -> bool {
    s matches Shape::Base(uuid, outer) && uuid.0@ == name && outer@.len() == 1 && (
    outer@[0] matches Shape::Base(list, inner) && list.0@
        == "ac8a9ff4-4994-11e6-9a1b-9fb4e933bd9d"@ && inner@.len() == 1 && (
    inner@[0] matches Shape::Tuple(pair) && pair@.len() == 2))
}

/// The shapes of the key and of the value in the shape of a container that
/// is written as a list of pairs.
pub open spec fn pair_of(s: Shape) -> Seq<Shape> {
    s->Base_1@[0]->Base_1@[0]->Tuple_0@
}

/// Whether a built-in type without parameters may answer `shape` and leave
/// the context `after`: the shape is that of the type `name`, and the
/// context is as it was.
pub open spec fn base_given(
    name: Seq<char>,
    before: Map<TypeId, bool>,
    shape: Shape,
    after: Map<TypeId, bool>,
) -> bool {
    is_base(shape, name) && after == before
}

/// Whether the built-in type `name` with the one parameter `T` may answer
/// `shape` and leave the context `after`: the shape is that of the type
/// applied to what `T` answers from inside it.
pub open spec fn applied_given<T: BinProtShape>(
    name: Seq<char>,
    before: Map<TypeId, bool>,
    shape: Shape,
    after: Map<TypeId, bool>,
) -> bool {
    is_applied(shape, name, 1) && loop_gives::<T>(before, shape->Base_1@[0], after)
}

/// Whether `first` and `second` are what `A` and then `B` answer from
/// inside another type, where the context goes from `before` to `after`.
pub open spec fn both_given<A: BinProtShape, B: BinProtShape>(
    before: Map<TypeId, bool>,
    first: Shape,
    second: Shape,
    after: Map<TypeId, bool>,
) -> bool {
    exists|between: Map<TypeId, bool>|
        #[trigger] loop_gives::<A>(before, first, between) && loop_gives::<B>(
            between,
            second,
            after,
        )
}

/// Whether field `i` of `fields` is what `T` answers from inside another
/// type, where the context goes from `contexts[i]` to `contexts[i + 1]`.
pub open spec fn field_given<T: BinProtShape>(
    contexts: Seq<Map<TypeId, bool>>,
    fields: Seq<Shape>,
    i: int,
) -> bool {
    loop_gives::<T>(contexts[i], fields[i], contexts[i + 1])
}

/// Whether `contexts` are the contexts through which a tuple of `count`
/// fields goes from `before` to `after`: one before each field, and one
/// behind the last.
pub open spec fn passes(
    contexts: Seq<Map<TypeId, bool>>,
    count: int,
    before: Map<TypeId, bool>,
    after: Map<TypeId, bool>,
) -> bool {
    contexts.len() == count + 1 && contexts[0] == before && contexts[count] == after
}

/// What two steps keep, one after the other, the two together keep.
pub proof fn lemma_keeps_both(
    a: Map<TypeId, bool>,
    b: Map<TypeId, bool>,
    c: Map<TypeId, bool>,
)
    requires
        keeps(a, b),
        keeps(b, c),
    ensures
        keeps(a, c),
{
    assert forall|k: TypeId| #[trigger] a.contains_key(k) && a[k] implies c[k] by {
        assert(b.contains_key(k) && b[k]);
    }
}

impl BinProtShape for i64 {
    open spec fn gives(before: Map<TypeId, bool>, shape: Shape, after: Map<TypeId, bool>) -> bool {
        base_given("int"@, before, shape, after)
    }

    fn binprot_shape_impl(c: &mut ShapeContext) -> (s: Shape) {
        base("int")
    }
}

impl BinProtShape for Float64 {
    open spec fn gives(before: Map<TypeId, bool>, shape: Shape, after: Map<TypeId, bool>) -> bool {
        base_given("float"@, before, shape, after)
    }

    fn binprot_shape_impl(c: &mut ShapeContext) -> (s: Shape) {
        base("float")
    }
}

impl BinProtShape for String {
    open spec fn gives(before: Map<TypeId, bool>, shape: Shape, after: Map<TypeId, bool>) -> bool {
        base_given("string"@, before, shape, after)
    }

    fn binprot_shape_impl(c: &mut ShapeContext) -> (s: Shape) {
        base("string")
    }
}

impl BinProtShape for bool {
    open spec fn gives(before: Map<TypeId, bool>, shape: Shape, after: Map<TypeId, bool>) -> bool {
        base_given("bool"@, before, shape, after)
    }

    fn binprot_shape_impl(c: &mut ShapeContext) -> (s: Shape) {
        base("bool")
    }
}

impl BinProtShape for char {
    open spec fn gives(before: Map<TypeId, bool>, shape: Shape, after: Map<TypeId, bool>) -> bool {
        base_given("char"@, before, shape, after)
    }

    fn binprot_shape_impl(c: &mut ShapeContext) -> (s: Shape) {
        base("char")
    }
}

impl BinProtShape for i32 {
    open spec fn gives(before: Map<TypeId, bool>, shape: Shape, after: Map<TypeId, bool>) -> bool {
        base_given("i32"@, before, shape, after)
    }

    fn binprot_shape_impl(c: &mut ShapeContext) -> (s: Shape) {
        base("i32")
    }
}

impl BinProtShape for () {
    open spec fn gives(before: Map<TypeId, bool>, shape: Shape, after: Map<TypeId, bool>) -> bool {
        base_given("unit"@, before, shape, after)
    }

    fn binprot_shape_impl(c: &mut ShapeContext) -> (s: Shape) {
        base("unit")
    }
}

impl<T: BinProtShape> BinProtShape for Vec<T> {
    open spec fn gives(before: Map<TypeId, bool>, shape: Shape, after: Map<TypeId, bool>) -> bool {
        applied_given::<T>("array"@, before, shape, after)
    }

    fn binprot_shape_impl(c: &mut ShapeContext) -> (s: Shape) {
        applied_to("array", T::binprot_shape_loop(c))
    }
}

impl<T: BinProtShape> BinProtShape for Option<T> {
    open spec fn gives(before: Map<TypeId, bool>, shape: Shape, after: Map<TypeId, bool>) -> bool {
        applied_given::<T>("option"@, before, shape, after)
    }

    fn binprot_shape_impl(c: &mut ShapeContext) -> (s: Shape) {
        applied_to("option", T::binprot_shape_loop(c))
    }
}

impl<T: BinProtShape, E: BinProtShape> BinProtShape for Result<T, E> {
    open spec fn gives(before: Map<TypeId, bool>, shape: Shape, after: Map<TypeId, bool>) -> bool {
        is_applied(shape, "result"@, 2) && both_given::<T, E>(
            before,
            shape->Base_1@[0],
            shape->Base_1@[1],
            after,
        )
    }

    fn binprot_shape_impl(c: &mut ShapeContext) -> (s: Shape) {
        let ghost before = c@;
        let ok = T::binprot_shape_loop(c);
        let ghost between = c@;
        assert(loop_gives::<T>(before, ok, between));
        let err = E::binprot_shape_loop(c);
        proof {
            assert(loop_gives::<E>(between, err, c@));
            lemma_keeps_both(before, between, c@);
        }
        applied_to_two("result", ok, err)
    }
}

impl<T: BinProtShape> BinProtShape for Box<T> {
    open spec fn gives(before: Map<TypeId, bool>, shape: Shape, after: Map<TypeId, bool>) -> bool {
        loop_gives::<T>(before, shape, after)
    }

    fn binprot_shape_impl(c: &mut ShapeContext) -> (s: Shape) {
        T::binprot_shape_loop(c)
    }
}

impl<K: BinProtShape, V: BinProtShape, S: 'static> BinProtShape for std::collections::HashMap<
    K,
    V,
    S,
> {
    open spec fn gives(before: Map<TypeId, bool>, shape: Shape, after: Map<TypeId, bool>) -> bool {
        is_map_shape(shape, "8fabab0a-4992-11e6-8cca-9ba2c4686d9e"@) && both_given::<K, V>(
            before,
            pair_of(shape)[0],
            pair_of(shape)[1],
            after,
        )
    }

    fn binprot_shape_impl(c: &mut ShapeContext) -> (s: Shape) {
        let caller_identity = Uuid("8fabab0a-4992-11e6-8cca-9ba2c4686d9e");
        let ghost before = c@;
        let key = K::binprot_shape_loop(c);
        let ghost between = c@;
        assert(loop_gives::<K>(before, key, between));
        let value = V::binprot_shape_loop(c);
        proof {
            assert(loop_gives::<V>(between, value, c@));
            lemma_keeps_both(before, between, c@);
        }
        iterable_binable1_shape(caller_identity, pair_shape(key, value))
    }
}

impl<K: BinProtShape, V: BinProtShape> BinProtShape for std::collections::BTreeMap<K, V> {
    open spec fn gives(before: Map<TypeId, bool>, shape: Shape, after: Map<TypeId, bool>) -> bool {
        is_map_shape(shape, "dfb300f8-4992-11e6-9c15-73a2ac6b815c"@) && both_given::<K, V>(
            before,
            pair_of(shape)[0],
            pair_of(shape)[1],
            after,
        )
    }

    fn binprot_shape_impl(c: &mut ShapeContext) -> (s: Shape) {
        let caller_identity = Uuid("dfb300f8-4992-11e6-9c15-73a2ac6b815c");
        let ghost before = c@;
        let key = K::binprot_shape_loop(c);
        let ghost between = c@;
        assert(loop_gives::<K>(before, key, between));
        let value = V::binprot_shape_loop(c);
        proof {
            assert(loop_gives::<V>(between, value, c@));
            lemma_keeps_both(before, between, c@);
        }
        iterable_binable1_shape(caller_identity, pair_shape(key, value))
    }
}

impl<A: BinProtShape> BinProtShape for (A,) {
    open spec fn gives(before: Map<TypeId, bool>, shape: Shape, after: Map<TypeId, bool>) -> bool {
        shape matches Shape::Tuple(fields) && fields@.len() == 1 && exists|
            contexts: Seq<Map<TypeId, bool>>,
        |
            #[trigger] passes(contexts, 1, before, after)
                && field_given::<A>(contexts, shape->Tuple_0@, 0)
    }

    fn binprot_shape_impl(c: &mut ShapeContext) -> (s: Shape) {
        let mut fields: Vec<Shape> = Vec::new();
        let ghost c0 = c@;
        let s0 = A::binprot_shape_loop(c);
        let ghost c1 = c@;
        let ghost g0 = s0;
        proof {
            assert(loop_gives::<A>(c0, g0, c1));
            lemma_keeps_both(c0, c0, c1);
        }
        fields.push(s0);
        proof {
            let contexts = seq![c0, c1];
            assert(passes(contexts, 1, c0, c1));
            assert(field_given::<A>(contexts, fields@, 0));
        }
        Shape::Tuple(fields)
    }
}

impl<A: BinProtShape, B: BinProtShape> BinProtShape for (A, B) {
    open spec fn gives(before: Map<TypeId, bool>, shape: Shape, after: Map<TypeId, bool>) -> bool {
        shape matches Shape::Tuple(fields) && fields@.len() == 2 && exists|
            contexts: Seq<Map<TypeId, bool>>,
        |
            #[trigger] passes(contexts, 2, before, after)
                && field_given::<A>(contexts, shape->Tuple_0@, 0)
                && field_given::<B>(contexts, shape->Tuple_0@, 1)
    }

    fn binprot_shape_impl(c: &mut ShapeContext) -> (s: Shape) {
        let mut fields: Vec<Shape> = Vec::new();
        let ghost c0 = c@;
        let s0 = A::binprot_shape_loop(c);
        let ghost c1 = c@;
        let ghost g0 = s0;
        proof {
            assert(loop_gives::<A>(c0, g0, c1));
            lemma_keeps_both(c0, c0, c1);
        }
        fields.push(s0);
        let s1 = B::binprot_shape_loop(c);
        let ghost c2 = c@;
        let ghost g1 = s1;
        proof {
            assert(loop_gives::<B>(c1, g1, c2));
            lemma_keeps_both(c0, c1, c2);
        }
        fields.push(s1);
        proof {
            let contexts = seq![c0, c1, c2];
            assert(passes(contexts, 2, c0, c2));
            assert(field_given::<A>(contexts, fields@, 0));
            assert(field_given::<B>(contexts, fields@, 1));
        }
        Shape::Tuple(fields)
    }
}

impl<A: BinProtShape, B: BinProtShape, C: BinProtShape> BinProtShape for (A, B, C) {
    open spec fn gives(before: Map<TypeId, bool>, shape: Shape, after: Map<TypeId, bool>) -> bool {
        shape matches Shape::Tuple(fields) && fields@.len() == 3 && exists|
            contexts: Seq<Map<TypeId, bool>>,
        |
            #[trigger] passes(contexts, 3, before, after)
                && field_given::<A>(contexts, shape->Tuple_0@, 0)
                && field_given::<B>(contexts, shape->Tuple_0@, 1)
                && field_given::<C>(contexts, shape->Tuple_0@, 2)
    }

    fn binprot_shape_impl(c: &mut ShapeContext) -> (s: Shape) {
        let mut fields: Vec<Shape> = Vec::new();
        let ghost c0 = c@;
        let s0 = A::binprot_shape_loop(c);
        let ghost c1 = c@;
        let ghost g0 = s0;
        proof {
            assert(loop_gives::<A>(c0, g0, c1));
            lemma_keeps_both(c0, c0, c1);
        }
        fields.push(s0);
        let s1 = B::binprot_shape_loop(c);
        let ghost c2 = c@;
        let ghost g1 = s1;
        proof {
            assert(loop_gives::<B>(c1, g1, c2));
            lemma_keeps_both(c0, c1, c2);
        }
        fields.push(s1);
        let s2 = C::binprot_shape_loop(c);
        let ghost c3 = c@;
        let ghost g2 = s2;
        proof {
            assert(loop_gives::<C>(c2, g2, c3));
            lemma_keeps_both(c0, c2, c3);
        }
        fields.push(s2);
        proof {
            let contexts = seq![c0, c1, c2, c3];
            assert(passes(contexts, 3, c0, c3));
            assert(field_given::<A>(contexts, fields@, 0));
            assert(field_given::<B>(contexts, fields@, 1));
            assert(field_given::<C>(contexts, fields@, 2));
        }
        Shape::Tuple(fields)
    }
}

impl<
    A: BinProtShape,
    B: BinProtShape,
    C: BinProtShape,
    D: BinProtShape,
> BinProtShape for (A, B, C, D) {
    open spec fn gives(before: Map<TypeId, bool>, shape: Shape, after: Map<TypeId, bool>) -> bool {
        shape matches Shape::Tuple(fields) && fields@.len() == 4 && exists|
            contexts: Seq<Map<TypeId, bool>>,
        |
            #[trigger] passes(contexts, 4, before, after)
                && field_given::<A>(contexts, shape->Tuple_0@, 0)
                && field_given::<B>(contexts, shape->Tuple_0@, 1)
                && field_given::<C>(contexts, shape->Tuple_0@, 2)
                && field_given::<D>(contexts, shape->Tuple_0@, 3)
    }

    fn binprot_shape_impl(c: &mut ShapeContext) -> (s: Shape) {
        let mut fields: Vec<Shape> = Vec::new();
        let ghost c0 = c@;
        let s0 = A::binprot_shape_loop(c);
        let ghost c1 = c@;
        let ghost g0 = s0;
        proof {
            assert(loop_gives::<A>(c0, g0, c1));
            lemma_keeps_both(c0, c0, c1);
        }
        fields.push(s0);
        let s1 = B::binprot_shape_loop(c);
        let ghost c2 = c@;
        let ghost g1 = s1;
        proof {
            assert(loop_gives::<B>(c1, g1, c2));
            lemma_keeps_both(c0, c1, c2);
        }
        fields.push(s1);
        let s2 = C::binprot_shape_loop(c);
        let ghost c3 = c@;
        let ghost g2 = s2;
        proof {
            assert(loop_gives::<C>(c2, g2, c3));
            lemma_keeps_both(c0, c2, c3);
        }
        fields.push(s2);
        let s3 = D::binprot_shape_loop(c);
        let ghost c4 = c@;
        let ghost g3 = s3;
        proof {
            assert(loop_gives::<D>(c3, g3, c4));
            lemma_keeps_both(c0, c3, c4);
        }
        fields.push(s3);
        proof {
            let contexts = seq![c0, c1, c2, c3, c4];
            assert(passes(contexts, 4, c0, c4));
            assert(field_given::<A>(contexts, fields@, 0));
            assert(field_given::<B>(contexts, fields@, 1));
            assert(field_given::<C>(contexts, fields@, 2));
            assert(field_given::<D>(contexts, fields@, 3));
        }
        Shape::Tuple(fields)
    }
}

impl<
    A: BinProtShape,
    B: BinProtShape,
    C: BinProtShape,
    D: BinProtShape,
    E: BinProtShape,
> BinProtShape for (A, B, C, D, E) {
    open spec fn gives(before: Map<TypeId, bool>, shape: Shape, after: Map<TypeId, bool>) -> bool {
        shape matches Shape::Tuple(fields) && fields@.len() == 5 && exists|
            contexts: Seq<Map<TypeId, bool>>,
        |
            #[trigger] passes(contexts, 5, before, after)
                && field_given::<A>(contexts, shape->Tuple_0@, 0)
                && field_given::<B>(contexts, shape->Tuple_0@, 1)
                && field_given::<C>(contexts, shape->Tuple_0@, 2)
                && field_given::<D>(contexts, shape->Tuple_0@, 3)
                && field_given::<E>(contexts, shape->Tuple_0@, 4)
    }

    fn binprot_shape_impl(c: &mut ShapeContext) -> (s: Shape) {
        let mut fields: Vec<Shape> = Vec::new();
        let ghost c0 = c@;
        let s0 = A::binprot_shape_loop(c);
        let ghost c1 = c@;
        let ghost g0 = s0;
        proof {
            assert(loop_gives::<A>(c0, g0, c1));
            lemma_keeps_both(c0, c0, c1);
        }
        fields.push(s0);
        let s1 = B::binprot_shape_loop(c);
        let ghost c2 = c@;
        let ghost g1 = s1;
        proof {
            assert(loop_gives::<B>(c1, g1, c2));
            lemma_keeps_both(c0, c1, c2);
        }
        fields.push(s1);
        let s2 = C::binprot_shape_loop(c);
        let ghost c3 = c@;
        let ghost g2 = s2;
        proof {
            assert(loop_gives::<C>(c2, g2, c3));
            lemma_keeps_both(c0, c2, c3);
        }
        fields.push(s2);
        let s3 = D::binprot_shape_loop(c);
        let ghost c4 = c@;
        let ghost g3 = s3;
        proof {
            assert(loop_gives::<D>(c3, g3, c4));
            lemma_keeps_both(c0, c3, c4);
        }
        fields.push(s3);
        let s4 = E::binprot_shape_loop(c);
        let ghost c5 = c@;
        let ghost g4 = s4;
        proof {
            assert(loop_gives::<E>(c4, g4, c5));
            lemma_keeps_both(c0, c4, c5);
        }
        fields.push(s4);
        proof {
            let contexts = seq![c0, c1, c2, c3, c4, c5];
            assert(passes(contexts, 5, c0, c5));
            assert(field_given::<A>(contexts, fields@, 0));
            assert(field_given::<B>(contexts, fields@, 1));
            assert(field_given::<C>(contexts, fields@, 2));
            assert(field_given::<D>(contexts, fields@, 3));
            assert(field_given::<E>(contexts, fields@, 4));
        }
        Shape::Tuple(fields)
    }
}

impl<
    A: BinProtShape,
    B: BinProtShape,
    C: BinProtShape,
    D: BinProtShape,
    E: BinProtShape,
    F: BinProtShape,
> BinProtShape for (A, B, C, D, E, F) {
    open spec fn gives(before: Map<TypeId, bool>, shape: Shape, after: Map<TypeId, bool>) -> bool {
        shape matches Shape::Tuple(fields) && fields@.len() == 6 && exists|
            contexts: Seq<Map<TypeId, bool>>,
        |
            #[trigger] passes(contexts, 6, before, after)
                && field_given::<A>(contexts, shape->Tuple_0@, 0)
                && field_given::<B>(contexts, shape->Tuple_0@, 1)
                && field_given::<C>(contexts, shape->Tuple_0@, 2)
                && field_given::<D>(contexts, shape->Tuple_0@, 3)
                && field_given::<E>(contexts, shape->Tuple_0@, 4)
                && field_given::<F>(contexts, shape->Tuple_0@, 5)
    }

    fn binprot_shape_impl(c: &mut ShapeContext) -> (s: Shape) {
        let mut fields: Vec<Shape> = Vec::new();
        let ghost c0 = c@;
        let s0 = A::binprot_shape_loop(c);
        let ghost c1 = c@;
        let ghost g0 = s0;
        proof {
            assert(loop_gives::<A>(c0, g0, c1));
            lemma_keeps_both(c0, c0, c1);
        }
        fields.push(s0);
        let s1 = B::binprot_shape_loop(c);
        let ghost c2 = c@;
        let ghost g1 = s1;
        proof {
            assert(loop_gives::<B>(c1, g1, c2));
            lemma_keeps_both(c0, c1, c2);
        }
        fields.push(s1);
        let s2 = C::binprot_shape_loop(c);
        let ghost c3 = c@;
        let ghost g2 = s2;
        proof {
            assert(loop_gives::<C>(c2, g2, c3));
            lemma_keeps_both(c0, c2, c3);
        }
        fields.push(s2);
        let s3 = D::binprot_shape_loop(c);
        let ghost c4 = c@;
        let ghost g3 = s3;
        proof {
            assert(loop_gives::<D>(c3, g3, c4));
            lemma_keeps_both(c0, c3, c4);
        }
        fields.push(s3);
        let s4 = E::binprot_shape_loop(c);
        let ghost c5 = c@;
        let ghost g4 = s4;
        proof {
            assert(loop_gives::<E>(c4, g4, c5));
            lemma_keeps_both(c0, c4, c5);
        }
        fields.push(s4);
        let s5 = F::binprot_shape_loop(c);
        let ghost c6 = c@;
        let ghost g5 = s5;
        proof {
            assert(loop_gives::<F>(c5, g5, c6));
            lemma_keeps_both(c0, c5, c6);
        }
        fields.push(s5);
        proof {
            let contexts = seq![c0, c1, c2, c3, c4, c5, c6];
            assert(passes(contexts, 6, c0, c6));
            assert(field_given::<A>(contexts, fields@, 0));
            assert(field_given::<B>(contexts, fields@, 1));
            assert(field_given::<C>(contexts, fields@, 2));
            assert(field_given::<D>(contexts, fields@, 3));
            assert(field_given::<E>(contexts, fields@, 4));
            assert(field_given::<F>(contexts, fields@, 5));
        }
        Shape::Tuple(fields)
    }
}

impl<
    A: BinProtShape,
    B: BinProtShape,
    C: BinProtShape,
    D: BinProtShape,
    E: BinProtShape,
    F: BinProtShape,
    G: BinProtShape,
> BinProtShape for (A, B, C, D, E, F, G) {
    open spec fn gives(before: Map<TypeId, bool>, shape: Shape, after: Map<TypeId, bool>) -> bool {
        shape matches Shape::Tuple(fields) && fields@.len() == 7 && exists|
            contexts: Seq<Map<TypeId, bool>>,
        |
            #[trigger] passes(contexts, 7, before, after)
                && field_given::<A>(contexts, shape->Tuple_0@, 0)
                && field_given::<B>(contexts, shape->Tuple_0@, 1)
                && field_given::<C>(contexts, shape->Tuple_0@, 2)
                && field_given::<D>(contexts, shape->Tuple_0@, 3)
                && field_given::<E>(contexts, shape->Tuple_0@, 4)
                && field_given::<F>(contexts, shape->Tuple_0@, 5)
                && field_given::<G>(contexts, shape->Tuple_0@, 6)
    }

    fn binprot_shape_impl(c: &mut ShapeContext) -> (s: Shape) {
        let mut fields: Vec<Shape> = Vec::new();
        let ghost c0 = c@;
        let s0 = A::binprot_shape_loop(c);
        let ghost c1 = c@;
        let ghost g0 = s0;
        proof {
            assert(loop_gives::<A>(c0, g0, c1));
            lemma_keeps_both(c0, c0, c1);
        }
        fields.push(s0);
        let s1 = B::binprot_shape_loop(c);
        let ghost c2 = c@;
        let ghost g1 = s1;
        proof {
            assert(loop_gives::<B>(c1, g1, c2));
            lemma_keeps_both(c0, c1, c2);
        }
        fields.push(s1);
        let s2 = C::binprot_shape_loop(c);
        let ghost c3 = c@;
        let ghost g2 = s2;
        proof {
            assert(loop_gives::<C>(c2, g2, c3));
            lemma_keeps_both(c0, c2, c3);
        }
        fields.push(s2);
        let s3 = D::binprot_shape_loop(c);
        let ghost c4 = c@;
        let ghost g3 = s3;
        proof {
            assert(loop_gives::<D>(c3, g3, c4));
            lemma_keeps_both(c0, c3, c4);
        }
        fields.push(s3);
        let s4 = E::binprot_shape_loop(c);
        let ghost c5 = c@;
        let ghost g4 = s4;
        proof {
            assert(loop_gives::<E>(c4, g4, c5));
            lemma_keeps_both(c0, c4, c5);
        }
        fields.push(s4);
        let s5 = F::binprot_shape_loop(c);
        let ghost c6 = c@;
        let ghost g5 = s5;
        proof {
            assert(loop_gives::<F>(c5, g5, c6));
            lemma_keeps_both(c0, c5, c6);
        }
        fields.push(s5);
        let s6 = G::binprot_shape_loop(c);
        let ghost c7 = c@;
        let ghost g6 = s6;
        proof {
            assert(loop_gives::<G>(c6, g6, c7));
            lemma_keeps_both(c0, c6, c7);
        }
        fields.push(s6);
        proof {
            let contexts = seq![c0, c1, c2, c3, c4, c5, c6, c7];
            assert(passes(contexts, 7, c0, c7));
            assert(field_given::<A>(contexts, fields@, 0));
            assert(field_given::<B>(contexts, fields@, 1));
            assert(field_given::<C>(contexts, fields@, 2));
            assert(field_given::<D>(contexts, fields@, 3));
            assert(field_given::<E>(contexts, fields@, 4));
            assert(field_given::<F>(contexts, fields@, 5));
            assert(field_given::<G>(contexts, fields@, 6));
        }
        Shape::Tuple(fields)
    }
}

impl<
    A: BinProtShape,
    B: BinProtShape,
    C: BinProtShape,
    D: BinProtShape,
    E: BinProtShape,
    F: BinProtShape,
    G: BinProtShape,
    H: BinProtShape,
> BinProtShape for (A, B, C, D, E, F, G, H) {
    open spec fn gives(before: Map<TypeId, bool>, shape: Shape, after: Map<TypeId, bool>) -> bool {
        shape matches Shape::Tuple(fields) && fields@.len() == 8 && exists|
            contexts: Seq<Map<TypeId, bool>>,
        |
            #[trigger] passes(contexts, 8, before, after)
                && field_given::<A>(contexts, shape->Tuple_0@, 0)
                && field_given::<B>(contexts, shape->Tuple_0@, 1)
                && field_given::<C>(contexts, shape->Tuple_0@, 2)
                && field_given::<D>(contexts, shape->Tuple_0@, 3)
                && field_given::<E>(contexts, shape->Tuple_0@, 4)
                && field_given::<F>(contexts, shape->Tuple_0@, 5)
                && field_given::<G>(contexts, shape->Tuple_0@, 6)
                && field_given::<H>(contexts, shape->Tuple_0@, 7)
    }

    fn binprot_shape_impl(c: &mut ShapeContext) -> (s: Shape) {
        let mut fields: Vec<Shape> = Vec::new();
        let ghost c0 = c@;
        let s0 = A::binprot_shape_loop(c);
        let ghost c1 = c@;
        let ghost g0 = s0;
        proof {
            assert(loop_gives::<A>(c0, g0, c1));
            lemma_keeps_both(c0, c0, c1);
        }
        fields.push(s0);
        let s1 = B::binprot_shape_loop(c);
        let ghost c2 = c@;
        let ghost g1 = s1;
        proof {
            assert(loop_gives::<B>(c1, g1, c2));
            lemma_keeps_both(c0, c1, c2);
        }
        fields.push(s1);
        let s2 = C::binprot_shape_loop(c);
        let ghost c3 = c@;
        let ghost g2 = s2;
        proof {
            assert(loop_gives::<C>(c2, g2, c3));
            lemma_keeps_both(c0, c2, c3);
        }
        fields.push(s2);
        let s3 = D::binprot_shape_loop(c);
        let ghost c4 = c@;
        let ghost g3 = s3;
        proof {
            assert(loop_gives::<D>(c3, g3, c4));
            lemma_keeps_both(c0, c3, c4);
        }
        fields.push(s3);
        let s4 = E::binprot_shape_loop(c);
        let ghost c5 = c@;
        let ghost g4 = s4;
        proof {
            assert(loop_gives::<E>(c4, g4, c5));
            lemma_keeps_both(c0, c4, c5);
        }
        fields.push(s4);
        let s5 = F::binprot_shape_loop(c);
        let ghost c6 = c@;
        let ghost g5 = s5;
        proof {
            assert(loop_gives::<F>(c5, g5, c6));
            lemma_keeps_both(c0, c5, c6);
        }
        fields.push(s5);
        let s6 = G::binprot_shape_loop(c);
        let ghost c7 = c@;
        let ghost g6 = s6;
        proof {
            assert(loop_gives::<G>(c6, g6, c7));
            lemma_keeps_both(c0, c6, c7);
        }
        fields.push(s6);
        let s7 = H::binprot_shape_loop(c);
        let ghost c8 = c@;
        let ghost g7 = s7;
        proof {
            assert(loop_gives::<H>(c7, g7, c8));
            lemma_keeps_both(c0, c7, c8);
        }
        fields.push(s7);
        proof {
            let contexts = seq![c0, c1, c2, c3, c4, c5, c6, c7, c8];
            assert(passes(contexts, 8, c0, c8));
            assert(field_given::<A>(contexts, fields@, 0));
            assert(field_given::<B>(contexts, fields@, 1));
            assert(field_given::<C>(contexts, fields@, 2));
            assert(field_given::<D>(contexts, fields@, 3));
            assert(field_given::<E>(contexts, fields@, 4));
            assert(field_given::<F>(contexts, fields@, 5));
            assert(field_given::<G>(contexts, fields@, 6));
            assert(field_given::<H>(contexts, fields@, 7));
        }
        Shape::Tuple(fields)
    }
}

impl<
    A: BinProtShape,
    B: BinProtShape,
    C: BinProtShape,
    D: BinProtShape,
    E: BinProtShape,
    F: BinProtShape,
    G: BinProtShape,
    H: BinProtShape,
    I: BinProtShape,
> BinProtShape for (A, B, C, D, E, F, G, H, I) {
    open spec fn gives(before: Map<TypeId, bool>, shape: Shape, after: Map<TypeId, bool>) -> bool {
        shape matches Shape::Tuple(fields) && fields@.len() == 9 && exists|
            contexts: Seq<Map<TypeId, bool>>,
        |
            #[trigger] passes(contexts, 9, before, after)
                && field_given::<A>(contexts, shape->Tuple_0@, 0)
                && field_given::<B>(contexts, shape->Tuple_0@, 1)
                && field_given::<C>(contexts, shape->Tuple_0@, 2)
                && field_given::<D>(contexts, shape->Tuple_0@, 3)
                && field_given::<E>(contexts, shape->Tuple_0@, 4)
                && field_given::<F>(contexts, shape->Tuple_0@, 5)
                && field_given::<G>(contexts, shape->Tuple_0@, 6)
                && field_given::<H>(contexts, shape->Tuple_0@, 7)
                && field_given::<I>(contexts, shape->Tuple_0@, 8)
    }

    fn binprot_shape_impl(c: &mut ShapeContext) -> (s: Shape) {
        let mut fields: Vec<Shape> = Vec::new();
        let ghost c0 = c@;
        let s0 = A::binprot_shape_loop(c);
        let ghost c1 = c@;
        let ghost g0 = s0;
        proof {
            assert(loop_gives::<A>(c0, g0, c1));
            lemma_keeps_both(c0, c0, c1);
        }
        fields.push(s0);
        let s1 = B::binprot_shape_loop(c);
        let ghost c2 = c@;
        let ghost g1 = s1;
        proof {
            assert(loop_gives::<B>(c1, g1, c2));
            lemma_keeps_both(c0, c1, c2);
        }
        fields.push(s1);
        let s2 = C::binprot_shape_loop(c);
        let ghost c3 = c@;
        let ghost g2 = s2;
        proof {
            assert(loop_gives::<C>(c2, g2, c3));
            lemma_keeps_both(c0, c2, c3);
        }
        fields.push(s2);
        let s3 = D::binprot_shape_loop(c);
        let ghost c4 = c@;
        let ghost g3 = s3;
        proof {
            assert(loop_gives::<D>(c3, g3, c4));
            lemma_keeps_both(c0, c3, c4);
        }
        fields.push(s3);
        let s4 = E::binprot_shape_loop(c);
        let ghost c5 = c@;
        let ghost g4 = s4;
        proof {
            assert(loop_gives::<E>(c4, g4, c5));
            lemma_keeps_both(c0, c4, c5);
        }
        fields.push(s4);
        let s5 = F::binprot_shape_loop(c);
        let ghost c6 = c@;
        let ghost g5 = s5;
        proof {
            assert(loop_gives::<F>(c5, g5, c6));
            lemma_keeps_both(c0, c5, c6);
        }
        fields.push(s5);
        let s6 = G::binprot_shape_loop(c);
        let ghost c7 = c@;
        let ghost g6 = s6;
        proof {
            assert(loop_gives::<G>(c6, g6, c7));
            lemma_keeps_both(c0, c6, c7);
        }
        fields.push(s6);
        let s7 = H::binprot_shape_loop(c);
        let ghost c8 = c@;
        let ghost g7 = s7;
        proof {
            assert(loop_gives::<H>(c7, g7, c8));
            lemma_keeps_both(c0, c7, c8);
        }
        fields.push(s7);
        let s8 = I::binprot_shape_loop(c);
        let ghost c9 = c@;
        let ghost g8 = s8;
        proof {
            assert(loop_gives::<I>(c8, g8, c9));
            lemma_keeps_both(c0, c8, c9);
        }
        fields.push(s8);
        proof {
            let contexts = seq![c0, c1, c2, c3, c4, c5, c6, c7, c8, c9];
            assert(passes(contexts, 9, c0, c9));
            assert(field_given::<A>(contexts, fields@, 0));
            assert(field_given::<B>(contexts, fields@, 1));
            assert(field_given::<C>(contexts, fields@, 2));
            assert(field_given::<D>(contexts, fields@, 3));
            assert(field_given::<E>(contexts, fields@, 4));
            assert(field_given::<F>(contexts, fields@, 5));
            assert(field_given::<G>(contexts, fields@, 6));
            assert(field_given::<H>(contexts, fields@, 7));
            assert(field_given::<I>(contexts, fields@, 8));
        }
        Shape::Tuple(fields)
    }
}

} // verus!
