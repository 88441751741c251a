//! The shape of a type: a tree that describes its structure, and the
//! fingerprint by which two peers check that they mean the same type.
use crate::digest::{
    concat, constructor_digest, digest_pair, digest_str, md5, md5_compute, option_digest,
    pair_digest, str_digest, Constructor, Digestible,
};
use vstd::prelude::*;
use vstd::utf8::encode_utf8;

verus! {

/// An identifier of a built-in type or of an annotation.
#[derive(Debug, Clone, PartialEq, Eq)]
pub struct Uuid(pub &'static str);

impl From<&'static str> for Uuid {
    fn from(s: &'static str) -> (uuid: Self) {
        Uuid(s)
    }
}

impl vstd::std_specs::convert::FromSpecImpl<&'static str> for Uuid {
    open spec fn obeys_from_spec() -> bool {
        true
    }

    open spec fn from_spec(s: &'static str) -> Self {
        Uuid(s)
    }
}

/// The structure of a type.
#[derive(Debug, PartialEq, Eq)]
pub enum Shape {
    /// A shape under a name of its own.
    Annotate(Uuid, Box<Shape>),
    /// A built-in type, applied to its parameters.
    Base(Uuid, Vec<Shape>),
    /// A tuple, by its components.
    Tuple(Vec<Shape>),
    /// A record, by its fields in the order of their declaration.
    Record(Vec<(&'static str, Shape)>),
    /// A variant, by its cases in the order of their declaration, each with
    /// its arguments.
    Variant(Vec<(&'static str, Vec<Shape>)>),
    /// A polymorphic variant, by its cases in the order of their names,
    /// each name once, each with its argument if it has one.
    PolyVariant(Vec<(&'static str, Option<Shape>)>),
    /// A recursive type, applied to its parameters.
    Application(Box<Shape>, Vec<Shape>),
    /// A reference from inside a recursive type back to it.
    RecApp(i64, Vec<Shape>),
    /// A type variable.
    Var(i64),
}

/// The decimal digits of `n`, as ASCII.
pub open spec fn decimal_digits(n: nat) -> Seq<u8>
    decreases n,
{
    if n < 10 {
        seq![(48 + n) as u8]
    } else {
        decimal_digits(n / 10).push((48 + n % 10) as u8)
    }
}

/// The decimal form of `n`, as ASCII: a minus sign if `n` is negative,
/// then the digits.
pub open spec fn decimal(n: int) -> Seq<u8> {
    if n < 0 {
        seq![45u8] + decimal_digits((-n) as nat)
    } else {
        decimal_digits(n as nat)
    }
}

/// The decimal form of `n`.
pub fn decimal_bytes(n: i64) -> (out: Vec<u8>)
    ensures
        out@ == decimal(n as int),
{
    let magnitude: u64 = if n < 0 {
        (-(n + 1)) as u64 + 1
    } else {
        n as u64
    };
    // The digits from the low end, and at last the sign.
    let mut low_first: Vec<u8> = Vec::new();
    let mut m: u64 = magnitude;
    while m >= 10
        invariant
            decimal_digits(magnitude as nat) == decimal_digits(m as nat) + low_first@.reverse(),
        decreases m,
    {
        let digit: u8 = (48 + m % 10) as u8;
        proof {
            let next = low_first@.push(digit);
            assert(next.reverse() =~= seq![digit] + low_first@.reverse());
            assert(decimal_digits(m as nat) == decimal_digits((m / 10) as nat).push(digit));
            assert(decimal_digits((m / 10) as nat).push(digit) + low_first@.reverse()
                =~= decimal_digits((m / 10) as nat) + next.reverse());
        }
        low_first.push(digit);
        m = m / 10;
    }
    let last: u8 = (48 + m) as u8;
    proof {
        let next = low_first@.push(last);
        assert(next.reverse() =~= seq![last] + low_first@.reverse());
    }
    low_first.push(last);
    if n < 0 {
        proof {
            let next = low_first@.push(45u8);
            assert(next.reverse() =~= seq![45u8] + low_first@.reverse());
        }
        low_first.push(45u8);
    }
    assert(low_first@.reverse() == decimal(n as int));
    let mut out: Vec<u8> = Vec::new();
    let mut i: usize = low_first.len();
    while i > 0
        invariant
            i <= low_first.len(),
            out@ == low_first@.reverse().take(low_first.len() - i),
        decreases i,
    {
        i = i - 1;
        out.push(low_first[i]);
        assert(out@ =~= low_first@.reverse().take(low_first.len() - i));
    }
    assert(out@ =~= low_first@.reverse());
    out
}

/// The fingerprint of a shape.
pub open spec fn shape_digest(s: Shape) -> Seq<u8>
    decreases s, 0nat,
{
    match s {
        Shape::Annotate(uuid, t) => constructor_digest(
            "annotate"@,
            seq![str_digest(uuid.0@), shape_digest(*t)],
        ),
        Shape::Base(uuid, v) => constructor_digest(
            "base"@,
            seq![str_digest(uuid.0@), md5(shapes_bytes(v@))],
        ),
        Shape::Tuple(v) => constructor_digest("tuple"@, seq![md5(shapes_bytes(v@))]),
        Shape::Record(v) => constructor_digest("record"@, seq![md5(fields_bytes(v@))]),
        Shape::Variant(v) => constructor_digest("variant"@, seq![md5(cases_bytes(v@))]),
        Shape::PolyVariant(v) => constructor_digest("poly_variant"@, seq![md5(poly_bytes(v@))]),
        Shape::Application(t, v) => constructor_digest(
            "application"@,
            seq![shape_digest(*t), md5(shapes_bytes(v@))],
        ),
        Shape::RecApp(n, v) => constructor_digest(
            "rec_app"@,
            seq![md5(decimal(n as int)), md5(shapes_bytes(v@))],
        ),
        Shape::Var(n) => constructor_digest("var"@, seq![md5(decimal(n as int))]),
    }
}

/// The fingerprints of the shapes in `v`, one after the other.
pub open spec fn shapes_bytes(v: Seq<Shape>) -> Seq<u8>
    decreases v, 1nat,
{
    if v.len() == 0 {
        Seq::empty()
    } else {
        shapes_bytes(v.drop_last()) + shape_digest(v.last())
    }
}

/// For each field of a record the digest of its name paired with its
/// shape's, one after the other.
pub open spec fn fields_bytes(v: Seq<(&'static str, Shape)>) -> Seq<u8>
    decreases v, 1nat,
{
    if v.len() == 0 {
        Seq::empty()
    } else {
        fields_bytes(v.drop_last()) + pair_digest(
            str_digest(v.last().0@),
            shape_digest(v.last().1),
        )
    }
}

/// For each case of a variant the digest of its name paired with that of
/// its arguments, one after the other.
pub open spec fn cases_bytes(v: Seq<(&'static str, Vec<Shape>)>) -> Seq<u8>
    decreases v, 1nat,
{
    if v.len() == 0 {
        Seq::empty()
    } else {
        cases_bytes(v.drop_last()) + pair_digest(
            str_digest(v.last().0@),
            md5(shapes_bytes(v.last().1@)),
        )
    }
}

/// The digest of the argument of a case of a polymorphic variant.
pub open spec fn payload_digest(o: Option<Shape>) -> Seq<u8>
    decreases o, 0nat,
{
    match o {
        None => option_digest(None),
        Some(s) => option_digest(Some(shape_digest(s))),
    }
}

/// For each case of a polymorphic variant the digest of its name paired
/// with that of its argument, one after the other.
pub open spec fn poly_bytes(v: Seq<(&'static str, Option<Shape>)>) -> Seq<u8>
    decreases v, 1nat,
{
    if v.len() == 0 {
        Seq::empty()
    } else {
        poly_bytes(v.drop_last()) + pair_digest(
            str_digest(v.last().0@),
            payload_digest(v.last().1),
        )
    }
}

/// Whether two shapes have the same structure: the same constructors with
/// the same names and numbers, all the way down.
pub open spec fn same_shape(a: Shape, b: Shape) -> bool
    decreases a, 0nat,
{
    match a {
        Shape::Annotate(uuid, t) => b matches Shape::Annotate(other, u) && uuid.0@ == other.0@
            && same_shape(*t, *u),
        Shape::Base(uuid, v) => b matches Shape::Base(other, w) && uuid.0@ == other.0@
            && same_shapes(v@, w@),
        Shape::Tuple(v) => b matches Shape::Tuple(w) && same_shapes(v@, w@),
        Shape::Record(v) => b matches Shape::Record(w) && same_fields(v@, w@),
        Shape::Variant(v) => b matches Shape::Variant(w) && same_cases(v@, w@),
        Shape::PolyVariant(v) => b matches Shape::PolyVariant(w) && same_poly(v@, w@),
        Shape::Application(t, v) => b matches Shape::Application(u, w) && same_shape(*t, *u)
            && same_shapes(v@, w@),
        Shape::RecApp(n, v) => b matches Shape::RecApp(m, w) && n == m && same_shapes(v@, w@),
        Shape::Var(n) => b matches Shape::Var(m) && n == m,
    }
}

/// Whether two lists of shapes have the same structure, shape by shape.
pub open spec fn same_shapes(a: Seq<Shape>, b: Seq<Shape>) -> bool
    decreases a, 1nat,
{
    if a.len() == 0 {
        b.len() == 0
    } else {
        b.len() > 0 && same_shapes(a.drop_last(), b.drop_last()) && same_shape(a.last(), b.last())
    }
}

/// Whether two lists of fields have the same names and structure.
pub open spec fn same_fields(a: Seq<(&'static str, Shape)>, b: Seq<(&'static str, Shape)>) -> bool
    decreases a, 1nat,
{
    if a.len() == 0 {
        b.len() == 0
    } else {
        b.len() > 0 && same_fields(a.drop_last(), b.drop_last()) && a.last().0@ == b.last().0@
            && same_shape(a.last().1, b.last().1)
    }
}

/// Whether two lists of cases have the same names and structure.
pub open spec fn same_cases(
    a: Seq<(&'static str, Vec<Shape>)>,
    b: Seq<(&'static str, Vec<Shape>)>,
) -> bool
    decreases a, 1nat,
{
    if a.len() == 0 {
        b.len() == 0
    } else {
        b.len() > 0 && same_cases(a.drop_last(), b.drop_last()) && a.last().0@ == b.last().0@
            && same_shapes(a.last().1@, b.last().1@)
    }
}

/// Whether two arguments of cases of polymorphic variants have the same
/// structure.
pub open spec fn same_payload(a: Option<Shape>, b: Option<Shape>) -> bool
    decreases a, 0nat,
{
    match a {
        None => b is None,
        Some(s) => b matches Some(t) && same_shape(s, t),
    }
}

/// Whether two lists of cases of polymorphic variants have the same names
/// and structure.
pub open spec fn same_poly(
    a: Seq<(&'static str, Option<Shape>)>,
    b: Seq<(&'static str, Option<Shape>)>,
) -> bool
    decreases a, 1nat,
{
    if a.len() == 0 {
        b.len() == 0
    } else {
        b.len() > 0 && same_poly(a.drop_last(), b.drop_last()) && a.last().0@ == b.last().0@
            && same_payload(a.last().1, b.last().1)
    }
}

/// Shapes of the same structure have the same fingerprint.
pub proof fn lemma_same_digest(a: Shape, b: Shape)
    requires
        same_shape(a, b),
    ensures
        shape_digest(a) == shape_digest(b),
    decreases a, 0nat,
{
    match a {
        Shape::Annotate(uuid, t) => {
            lemma_same_digest(*t, *b->Annotate_1);
        },
        Shape::Base(uuid, v) => {
            lemma_same_digests(v@, b->Base_1@);
        },
        Shape::Tuple(v) => {
            lemma_same_digests(v@, b->Tuple_0@);
        },
        Shape::Record(v) => {
            lemma_same_field_digests(v@, b->Record_0@);
        },
        Shape::Variant(v) => {
            lemma_same_case_digests(v@, b->Variant_0@);
        },
        Shape::PolyVariant(v) => {
            lemma_same_poly_digests(v@, b->PolyVariant_0@);
        },
        Shape::Application(t, v) => {
            lemma_same_digest(*t, *b->Application_0);
            lemma_same_digests(v@, b->Application_1@);
        },
        Shape::RecApp(n, v) => {
            lemma_same_digests(v@, b->RecApp_1@);
        },
        Shape::Var(n) => {},
    }
}

/// Lists of shapes of the same structure have the same fingerprints.
pub proof fn lemma_same_digests(a: Seq<Shape>, b: Seq<Shape>)
    requires
        same_shapes(a, b),
    ensures
        shapes_bytes(a) == shapes_bytes(b),
    decreases a, 1nat,
{
    if a.len() > 0 {
        lemma_same_digests(a.drop_last(), b.drop_last());
        lemma_same_digest(a.last(), b.last());
    }
}

/// Lists of fields of the same names and structure have the same
/// fingerprints.
pub proof fn lemma_same_field_digests(
    a: Seq<(&'static str, Shape)>,
    b: Seq<(&'static str, Shape)>,
)
    requires
        same_fields(a, b),
    ensures
        fields_bytes(a) == fields_bytes(b),
    decreases a, 1nat,
{
    if a.len() > 0 {
        lemma_same_field_digests(a.drop_last(), b.drop_last());
        lemma_same_digest(a.last().1, b.last().1);
    }
}

/// Lists of cases of the same names and structure have the same
/// fingerprints.
pub proof fn lemma_same_case_digests(
    a: Seq<(&'static str, Vec<Shape>)>,
    b: Seq<(&'static str, Vec<Shape>)>,
)
    requires
        same_cases(a, b),
    ensures
        cases_bytes(a) == cases_bytes(b),
    decreases a, 1nat,
{
    if a.len() > 0 {
        lemma_same_case_digests(a.drop_last(), b.drop_last());
        lemma_same_digests(a.last().1@, b.last().1@);
    }
}

/// Lists of cases of polymorphic variants of the same names and structure
/// have the same fingerprints.
pub proof fn lemma_same_poly_digests(
    a: Seq<(&'static str, Option<Shape>)>,
    b: Seq<(&'static str, Option<Shape>)>,
)
    requires
        same_poly(a, b),
    ensures
        poly_bytes(a) == poly_bytes(b),
    decreases a, 1nat,
{
    if a.len() > 0 {
        lemma_same_poly_digests(a.drop_last(), b.drop_last());
        lemma_same_payload_digest(a.last().1, b.last().1);
    }
}

/// Arguments of the same structure have the same fingerprint.
pub proof fn lemma_same_payload_digest(a: Option<Shape>, b: Option<Shape>)
    requires
        same_payload(a, b),
    ensures
        payload_digest(a) == payload_digest(b),
    decreases a, 0nat,
{
    match a {
        Some(s) => {
            lemma_same_digest(s, b->Some_0);
        },
        None => {},
    }
}

/// The digests of one and of two children, one after the other.
proof fn lemma_concat_small(a: Seq<u8>, b: Seq<u8>)
    ensures
        concat(seq![a]) == a,
        concat(seq![a, b]) == a + b,
{
    reveal_with_fuel(concat, 3);
    assert(seq![a].drop_last() =~= Seq::<Seq<u8>>::empty());
    assert(concat(seq![a]) =~= a);
    assert(seq![a, b].drop_last() =~= seq![a]);
    assert(concat(seq![a, b]) =~= a + b);
}

/// The digest of a node with one child.
fn digest_node1(name: &str, a: &[u8; 16]) -> (d: [u8; 16])
    ensures
        d@ == constructor_digest(name@, seq![a@]),
{
    proof {
        lemma_concat_small(a@, a@);
    }
    let c = Constructor::new(name).add_digest(a);
    assert(c.children() =~= a@);
    c.finish()
}

/// The digest of a node with two children.
fn digest_node2(name: &str, a: &[u8; 16], b: &[u8; 16]) -> (d: [u8; 16])
    ensures
        d@ == constructor_digest(name@, seq![a@, b@]),
{
    proof {
        lemma_concat_small(a@, b@);
    }
    let c = Constructor::new(name).add_digest(a).add_digest(b);
    assert(c.children() =~= a@ + b@);
    c.finish()
}

/// Computes the fingerprint of a shape.
pub fn digest_shape(s: &Shape) -> (d: [u8; 16])
    ensures
        d@ == shape_digest(*s),
    decreases *s, 0nat,
{
    match s {
        Shape::Annotate(uuid, t) => {
            let a = digest_str(uuid.0);
            let b = digest_shape(&**t);
            digest_node2("annotate", &a, &b)
        },
        Shape::Base(uuid, v) => {
            let a = digest_str(uuid.0);
            let b = digest_shapes(v);
            digest_node2("base", &a, &b)
        },
        Shape::Tuple(v) => {
            let a = digest_shapes(v);
            digest_node1("tuple", &a)
        },
        Shape::Record(v) => {
            let a = digest_fields(v);
            digest_node1("record", &a)
        },
        Shape::Variant(v) => {
            let a = digest_cases(v);
            digest_node1("variant", &a)
        },
        Shape::PolyVariant(v) => {
            let a = digest_poly(v);
            digest_node1("poly_variant", &a)
        },
        Shape::Application(t, v) => {
            let a = digest_shape(&**t);
            let b = digest_shapes(v);
            digest_node2("application", &a, &b)
        },
        Shape::RecApp(n, v) => {
            let text = decimal_bytes(*n);
            let a = md5_compute(text.as_slice());
            let b = digest_shapes(v);
            digest_node2("rec_app", &a, &b)
        },
        Shape::Var(n) => {
            let text = decimal_bytes(*n);
            let a = md5_compute(text.as_slice());
            digest_node1("var", &a)
        },
    }
}

/// The digest of a list of shapes.
fn digest_shapes(v: &Vec<Shape>) -> (d: [u8; 16])
    ensures
        d@ == md5(shapes_bytes(v@)),
    decreases *v, 1nat,
{
    let mut buf: Vec<u8> = Vec::new();
    let mut i: usize = 0;
    while i < v.len()
        invariant
            i <= v.len(),
            buf@ == shapes_bytes(v@.take(i as int)),
        decreases v.len() - i,
    {
        let d = digest_shape(&v[i]);
        buf.extend_from_slice(d.as_slice());
        proof {
            assert(v@.take(i + 1).drop_last() =~= v@.take(i as int));
        }
        i = i + 1;
        assert(buf@ =~= shapes_bytes(v@.take(i as int)));
    }
    assert(v@.take(i as int) =~= v@);
    md5_compute(buf.as_slice())
}

/// The digest of the fields of a record.
fn digest_fields(v: &Vec<(&'static str, Shape)>) -> (d: [u8; 16])
    ensures
        d@ == md5(fields_bytes(v@)),
    decreases *v, 1nat,
{
    let mut buf: Vec<u8> = Vec::new();
    let mut i: usize = 0;
    while i < v.len()
        invariant
            i <= v.len(),
            buf@ == fields_bytes(v@.take(i as int)),
        decreases v.len() - i,
    {
        let a = digest_str(v[i].0);
        let b = digest_shape(&v[i].1);
        let d = digest_pair(&a, &b);
        buf.extend_from_slice(d.as_slice());
        proof {
            assert(v@.take(i + 1).drop_last() =~= v@.take(i as int));
        }
        i = i + 1;
        assert(buf@ =~= fields_bytes(v@.take(i as int)));
    }
    assert(v@.take(i as int) =~= v@);
    md5_compute(buf.as_slice())
}

/// The digest of the cases of a variant.
fn digest_cases(v: &Vec<(&'static str, Vec<Shape>)>) -> (d: [u8; 16])
    ensures
        d@ == md5(cases_bytes(v@)),
    decreases *v, 1nat,
{
    let mut buf: Vec<u8> = Vec::new();
    let mut i: usize = 0;
    while i < v.len()
        invariant
            i <= v.len(),
            buf@ == cases_bytes(v@.take(i as int)),
        decreases v.len() - i,
    {
        let a = digest_str(v[i].0);
        let b = digest_shapes(&v[i].1);
        let d = digest_pair(&a, &b);
        buf.extend_from_slice(d.as_slice());
        proof {
            assert(v@.take(i + 1).drop_last() =~= v@.take(i as int));
        }
        i = i + 1;
        assert(buf@ =~= cases_bytes(v@.take(i as int)));
    }
    assert(v@.take(i as int) =~= v@);
    md5_compute(buf.as_slice())
}

/// The digest of the argument of a case of a polymorphic variant.
fn digest_payload(o: &Option<Shape>) -> (d: [u8; 16])
    ensures
        d@ == payload_digest(*o),
    decreases *o, 0nat,
{
    match o {
        None => {
            let none: Option<&str> = None;
            none.digest()
        },
        Some(s) => {
            let inner = digest_shape(s);
            let mut buf: Vec<u8> = Vec::new();
            buf.extend_from_slice("some".as_bytes());
            let inner_digest = md5_compute(inner.as_slice());
            buf.extend_from_slice(inner_digest.as_slice());
            assert(buf@ =~= encode_utf8("some"@) + md5(inner@));
            md5_compute(buf.as_slice())
        },
    }
}

/// The digest of the cases of a polymorphic variant.
fn digest_poly(v: &Vec<(&'static str, Option<Shape>)>) -> (d: [u8; 16])
    ensures
        d@ == md5(poly_bytes(v@)),
    decreases *v, 1nat,
{
    let mut buf: Vec<u8> = Vec::new();
    let mut i: usize = 0;
    while i < v.len()
        invariant
            i <= v.len(),
            buf@ == poly_bytes(v@.take(i as int)),
        decreases v.len() - i,
    {
        let a = digest_str(v[i].0);
        let b = digest_payload(&v[i].1);
        let d = digest_pair(&a, &b);
        buf.extend_from_slice(d.as_slice());
        proof {
            assert(v@.take(i + 1).drop_last() =~= v@.take(i as int));
        }
        i = i + 1;
        assert(buf@ =~= poly_bytes(v@.take(i as int)));
    }
    assert(v@.take(i as int) =~= v@);
    md5_compute(buf.as_slice())
}

impl Digestible for Uuid {
    open spec fn digest_of(&self) -> Seq<u8> {
        str_digest(self.0@)
    }

    fn digest(&self) -> (d: [u8; 16]) {
        digest_str(self.0)
    }
}

impl Digestible for Shape {
    open spec fn digest_of(&self) -> Seq<u8> {
        shape_digest(*self)
    }

    fn digest(&self) -> (d: [u8; 16]) {
        digest_shape(self)
    }
}

/// The shape of a built-in type without parameters.
pub fn base(s: &'static str) -> (shape: Shape)
    ensures
        shape matches Shape::Base(uuid, params) && uuid.0 == s && params@.len() == 0,
{
    Shape::Base(Uuid(s), Vec::new())
}

/// The shape of the built-in type `name` applied to the one parameter
/// `param`.
pub fn applied_to(name: &'static str, param: Shape) -> (shape: Shape)
    ensures
        shape matches Shape::Base(uuid, params) && uuid.0 == name && params@ == seq![param],
{
    let mut params: Vec<Shape> = Vec::new();
    params.push(param);
    assert(params@ =~= seq![param]);
    Shape::Base(Uuid(name), params)
}

/// The shape of the built-in type `name` applied to the two parameters
/// `first` and `second`.
pub fn applied_to_two(name: &'static str, first: Shape, second: Shape) -> (shape: Shape)
    ensures
        shape matches Shape::Base(uuid, params) && uuid.0 == name && params@ == seq![
            first,
            second,
        ],
{
    let mut params: Vec<Shape> = Vec::new();
    params.push(first);
    params.push(second);
    assert(params@ =~= seq![first, second]);
    Shape::Base(Uuid(name), params)
}

/// The shape of a pair.
pub fn pair_shape(first: Shape, second: Shape) -> (shape: Shape)
    ensures
        shape matches Shape::Tuple(fields) && fields@ == seq![first, second],
{
    let mut fields: Vec<Shape> = Vec::new();
    fields.push(first);
    fields.push(second);
    assert(fields@ =~= seq![first, second]);
    Shape::Tuple(fields)
}

/// The shape of a container that is written as a list of `bin_shape_el`,
/// under the identifier `caller_identity` of the container's kind.
pub fn iterable_binable1_shape(caller_identity: Uuid, bin_shape_el: Shape) -> (shape: Shape)
    ensures
        shape matches Shape::Base(uuid, outer) && uuid == caller_identity && outer@.len() == 1
            && (outer@[0] matches Shape::Base(list, inner) && list.0@
            == "ac8a9ff4-4994-11e6-9a1b-9fb4e933bd9d"@ && inner@ == seq![bin_shape_el]),
{
    let mut inner: Vec<Shape> = Vec::new();
    inner.push(bin_shape_el);
    let mut outer: Vec<Shape> = Vec::new();
    outer.push(Shape::Base(Uuid("ac8a9ff4-4994-11e6-9a1b-9fb4e933bd9d"), inner));
    Shape::Base(caller_identity, outer)
}

/// A copy of a list of shapes.
fn copy_shapes(v: &Vec<Shape>) -> (copy: Vec<Shape>)
    ensures
        same_shapes(v@, copy@),
    decreases *v, 1nat,
{
    let mut copy: Vec<Shape> = Vec::new();
    let mut i: usize = 0;
    while i < v.len()
        invariant
            i <= v.len(),
            same_shapes(v@.take(i as int), copy@),
        decreases v.len() - i,
    {
        let ghost before = copy@;
        copy.push(copy_shape(&v[i]));
        proof {
            assert(copy@.drop_last() =~= before);
            assert(v@.take(i + 1).drop_last() =~= v@.take(i as int));
        }
        i = i + 1;
    }
    assert(v@.take(i as int) =~= v@);
    copy
}

/// A copy of the fields of a record.
fn copy_fields(v: &Vec<(&'static str, Shape)>) -> (copy: Vec<(&'static str, Shape)>)
    ensures
        same_fields(v@, copy@),
    decreases *v, 1nat,
{
    let mut copy: Vec<(&'static str, Shape)> = Vec::new();
    let mut i: usize = 0;
    while i < v.len()
        invariant
            i <= v.len(),
            same_fields(v@.take(i as int), copy@),
        decreases v.len() - i,
    {
        let ghost before = copy@;
        copy.push((v[i].0, copy_shape(&v[i].1)));
        proof {
            assert(copy@.drop_last() =~= before);
            assert(v@.take(i + 1).drop_last() =~= v@.take(i as int));
        }
        i = i + 1;
    }
    assert(v@.take(i as int) =~= v@);
    copy
}

/// A copy of the cases of a variant.
fn copy_cases(v: &Vec<(&'static str, Vec<Shape>)>) -> (copy: Vec<(&'static str, Vec<Shape>)>)
    ensures
        same_cases(v@, copy@),
    decreases *v, 2nat,
{
    let mut copy: Vec<(&'static str, Vec<Shape>)> = Vec::new();
    let mut i: usize = 0;
    while i < v.len()
        invariant
            i <= v.len(),
            same_cases(v@.take(i as int), copy@),
        decreases v.len() - i,
    {
        let ghost before = copy@;
        copy.push((v[i].0, copy_shapes(&v[i].1)));
        proof {
            assert(copy@.drop_last() =~= before);
            assert(v@.take(i + 1).drop_last() =~= v@.take(i as int));
        }
        i = i + 1;
    }
    assert(v@.take(i as int) =~= v@);
    copy
}

/// A copy of the cases of a polymorphic variant.
fn copy_poly(v: &Vec<(&'static str, Option<Shape>)>) -> (copy: Vec<(&'static str, Option<Shape>)>)
    ensures
        same_poly(v@, copy@),
    decreases *v, 2nat,
{
    let mut copy: Vec<(&'static str, Option<Shape>)> = Vec::new();
    let mut i: usize = 0;
    while i < v.len()
        invariant
            i <= v.len(),
            same_poly(v@.take(i as int), copy@),
        decreases v.len() - i,
    {
        let ghost before = copy@;
        copy.push((v[i].0, copy_payload(&v[i].1)));
        proof {
            assert(copy@.drop_last() =~= before);
            assert(v@.take(i + 1).drop_last() =~= v@.take(i as int));
        }
        i = i + 1;
    }
    assert(v@.take(i as int) =~= v@);
    copy
}

/// A copy of the argument of a case of a polymorphic variant.
fn copy_payload(o: &Option<Shape>) -> (copy: Option<Shape>)
    ensures
        same_payload(*o, copy),
    decreases *o, 1nat,
{
    match o {
        Some(s) => Some(copy_shape(s)),
        None => None,
    }
}

/// A copy of a shape: a shape of the same structure, and so of the same
/// fingerprint.
pub fn copy_shape(s: &Shape) -> (copy: Shape)
    ensures
        same_shape(*s, copy),
    decreases *s, 0nat,
{
    match s {
        Shape::Annotate(uuid, t) => Shape::Annotate(Uuid(uuid.0), Box::new(copy_shape(&**t))),
        Shape::Base(uuid, v) => Shape::Base(Uuid(uuid.0), copy_shapes(v)),
        Shape::Tuple(v) => Shape::Tuple(copy_shapes(v)),
        Shape::Record(v) => Shape::Record(copy_fields(v)),
        Shape::Variant(v) => Shape::Variant(copy_cases(v)),
        Shape::PolyVariant(v) => Shape::PolyVariant(copy_poly(v)),
        Shape::Application(t, v) => Shape::Application(
            Box::new(copy_shape(&**t)),
            copy_shapes(v),
        ),
        Shape::RecApp(n, v) => Shape::RecApp(*n, copy_shapes(v)),
        Shape::Var(n) => Shape::Var(*n),
    }
}

impl Clone for Shape {
    fn clone(&self) -> (copy: Self)
        ensures
            same_shape(*self, copy),
    {
        copy_shape(self)
    }
}

} // verus!
