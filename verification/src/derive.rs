//! How a declared type is encoded: which declarations are accepted, which
//! bytes select a case of a variant, and what shape the type has.
//!
//! A declaration is described by a `Declaration`. From it come a plan, by
//! which the values of the type are written and read, and a shape. An
//! implementation of the capabilities for the declared type follows the
//! plan: a struct writes its fields in the order of their declaration, an
//! enum the tag of the case at hand and then the fields of that case.
use crate::endian::{i32_to_le_bytes, le_bytes, le_read_i32, le_signed};
use crate::error::Error;
use crate::integer::Parsed;
use crate::names::{bytes_same, same_text};
use crate::polymorphic::{
    cases_within, lemma_order_of_like_cases, names_distinct, reversed, sort_cases, sorted_cases,
    strictly_sorted, Case,
};
use crate::shape::{lemma_same_digest, same_shape, shape_digest, Shape};
use crate::source::Source;
use vstd::prelude::*;
use vstd::utf8::encode_utf8;

verus! {

/// The fields of a struct or of a case of an enum, each with what is known
/// of its type.
pub enum Fields<T> {
    /// Fields with names, in the order of their declaration.
    Named(Vec<(&'static str, T)>),
    /// Fields by position.
    Unnamed(Vec<T>),
    /// No fields and no brackets.
    Unit,
}

/// A case of an enum.
pub struct Variant<T> {
    /// The name of the case.
    pub ident: &'static str,
    /// The fields of the case.
    pub fields: Fields<T>,
}

/// What a declaration declares.
pub enum Data<T> {
    /// A struct with its fields.
    Struct(Fields<T>),
    /// An enum with its cases, in the order of their declaration.
    Enum(Vec<Variant<T>>),
    /// A union.
    Union,
}

/// A type declaration, as far as the encoding depends on it.
pub struct Declaration<T> {
    /// The name of the type.
    pub ident: &'static str,
    /// The attributes on the declaration, each by the segments of its path.
    pub attrs: Vec<Vec<&'static str>>,
    /// The struct, enum or union that is declared.
    pub data: Data<T>,
}

/// Why a declaration cannot have the capabilities.
#[derive(Debug, Clone, Copy, PartialEq, Eq, Structural)]
pub enum DeriveError {
    /// The mark of a polymorphic variant stands on a struct.
    PolymorphicVariantOnStruct,
    /// A struct has no fields at all.
    UnitStruct,
    /// An enum has more than 256 cases.
    TooManyCases,
    /// The declaration is a union.
    UnionNotSupported,
}

/// The most cases that an enum can have: a case is selected by one byte.
pub const MAX_CASES: usize = 256;

/// Whether `attr` is the mark of a polymorphic variant: a path of the one
/// segment `polymorphic_variant`.
pub open spec fn is_polymorphic_mark(attr: Seq<&'static str>) -> bool {
    attr.len() == 1 && attr[0]@ == "polymorphic_variant"@
}

/// Whether the attributes hold the mark of a polymorphic variant.
pub open spec fn has_polymorphic_mark(attrs: Seq<Vec<&'static str>>) -> bool {
    exists|i: int| 0 <= i < attrs.len() && is_polymorphic_mark(#[trigger] attrs[i]@)
}

/// Whether the declaration carries the mark of a polymorphic variant.
pub fn has_polymorphic_variant_attr<T>(ast: &Declaration<T>) -> (r: bool)
    ensures
        r == has_polymorphic_mark(ast.attrs@),
{
    let mut i: usize = 0;
    while i < ast.attrs.len()
        invariant
            i <= ast.attrs.len(),
            forall|j: int| 0 <= j < i ==> !is_polymorphic_mark(#[trigger] ast.attrs@[j]@),
        decreases ast.attrs.len() - i,
    {
        let attr = &ast.attrs[i];
        if attr.len() == 1 && same_text(attr[0], "polymorphic_variant") {
            return true;
        }
        i = i + 1;
    }
    false
}

/// What the bytes of a name add up to: each byte enters at the low end,
/// and what was there before counts 223 times.
pub open spec fn name_sum(bytes: Seq<u8>) -> int
    decreases bytes.len(),
{
    if bytes.len() == 0 {
        0
    } else {
        223 * name_sum(bytes.drop_last()) + bytes.last() as int
    }
}

/// The hash of the name of a case: the low 31 bits of `name_sum`, read as
/// a signed number of 31 bits.
pub open spec fn hash_of(bytes: Seq<u8>) -> int {
    let low = name_sum(bytes) % 0x8000_0000;
    if low > 0x3fff_ffff {
        low - 0x8000_0000
    } else {
        low
    }
}

/// The tag that selects a case of a polymorphic variant: twice the hash of
/// its name, plus one.
pub open spec fn tag_of(bytes: Seq<u8>) -> int {
    2 * hash_of(bytes) + 1
}

/// A number brought into the range of a signed 64-bit integer by dropping
/// what lies above bit 63.
pub open spec fn wrap64(x: int) -> int {
    let low = x % 0x1_0000_0000_0000_0000;
    if low >= 0x8000_0000_0000_0000 {
        low - 0x1_0000_0000_0000_0000
    } else {
        low
    }
}

/// `name_sum` computed in a signed 64-bit accumulator that wraps round on
/// overflow.
pub open spec fn wrapped_sum(bytes: Seq<u8>) -> int
    decreases bytes.len(),
{
    if bytes.len() == 0 {
        0
    } else {
        wrap64(223 * wrapped_sum(bytes.drop_last()) + bytes.last() as int)
    }
}

/// Numbers that agree in their low 31 bits still do after one step of the
/// sum.
proof fn lemma_step_low_bits(a: int, b: int, c: int)
    requires
        a % 0x8000_0000 == b % 0x8000_0000,
    ensures
        (223 * a + c) % 0x8000_0000 == (223 * b + c) % 0x8000_0000,
{
    let k = 223 * (a / 0x8000_0000 - b / 0x8000_0000);
    assert(223 * a + c == 0x8000_0000 * k + (223 * b + c));
    vstd::arithmetic::div_mod::lemma_mod_multiples_vanish(k, 223 * b + c, 0x8000_0000);
}

/// Wrapping round at 64 bits keeps the low 31 bits.
proof fn lemma_wrap_low_bits(y: int)
    ensures
        wrap64(y) % 0x8000_0000 == y % 0x8000_0000,
{
    let q = y / 0x1_0000_0000_0000_0000;
    let t = if y % 0x1_0000_0000_0000_0000 >= 0x8000_0000_0000_0000 {
        q + 1
    } else {
        q
    };
    let k = -0x2_0000_0000 * t;
    assert(wrap64(y) == 0x8000_0000 * k + y);
    vstd::arithmetic::div_mod::lemma_mod_multiples_vanish(k, y, 0x8000_0000);
}

/// The low 31 bits of the sum do not depend on whether the accumulator
/// wraps round at 64 bits.
pub proof fn lemma_wrapping_keeps_low_bits(bytes: Seq<u8>)
    ensures
        wrapped_sum(bytes) % 0x8000_0000 == name_sum(bytes) % 0x8000_0000,
    decreases bytes.len(),
{
    if bytes.len() > 0 {
        lemma_wrapping_keeps_low_bits(bytes.drop_last());
        let a = wrapped_sum(bytes.drop_last());
        let b = name_sum(bytes.drop_last());
        let c = bytes.last() as int;
        lemma_step_low_bits(a, b, c);
        lemma_wrap_low_bits(223 * a + c);
    }
}

/// The hash of a hash lies in 31 bits, and the tag in 32.
pub proof fn lemma_hash_range(bytes: Seq<u8>)
    ensures
        -0x4000_0000 <= hash_of(bytes) <= 0x3fff_ffff,
        -0x7fff_ffff <= tag_of(bytes) <= 0x7fff_ffff,
        tag_of(bytes) % 2 == 1,
{
}

/// The hash of the name of a case.
pub fn hash_variant(name: &str) -> (h: i32)
    ensures
        h == hash_of(encode_utf8(name@)),
{
    let bytes = name.as_bytes();
    let mut acc: u64 = 0;
    let mut i: usize = 0;
    while i < bytes.len()
        invariant
            i <= bytes.len(),
            acc == name_sum(bytes@.take(i as int)) % 0x8000_0000,
        decreases bytes.len() - i,
    {
        proof {
            assert(bytes@.take(i + 1).drop_last() =~= bytes@.take(i as int));
            let before = name_sum(bytes@.take(i as int));
            let c = bytes@[i as int] as int;
            assert((before % 0x8000_0000) % 0x8000_0000 == before % 0x8000_0000);
            lemma_step_low_bits(before % 0x8000_0000, before, c);
        }
        acc = (223 * acc + bytes[i] as u64) % 0x8000_0000;
        i = i + 1;
    }
    assert(bytes@.take(i as int) =~= bytes@);
    if acc > 0x3fff_ffff {
        (acc as i64 - 0x8000_0000) as i32
    } else {
        acc as i32
    }
}

/// The tag that selects the case of the name `name` in a polymorphic
/// variant.
pub fn variant_int(name: &str) -> (tag: i32)
    ensures
        tag == tag_of(encode_utf8(name@)),
{
    let h: i32 = hash_variant(name);
    2 * h + 1
}

/// The fields of a struct or of a case, as far as a plan needs them: the
/// names, or the count.
pub enum Binders {
    /// The names of the fields, in the order of their declaration.
    Named(Vec<&'static str>),
    /// The number of fields by position.
    Unnamed(usize),
    /// No fields.
    Unit,
}

/// What a plan says of one case of an enum.
pub struct Arm {
    /// The name of the case.
    pub ident: &'static str,
    /// The bytes that select the case.
    pub tag: Vec<u8>,
    /// The fields of the case, which follow the tag in this order.
    pub fields: Binders,
}

/// How the values of a declared type are laid out.
pub enum Plan {
    /// A struct: its fields, one after the other.
    Struct { ident: &'static str, fields: Binders },
    /// An enum: the tag of a case, then the fields of the case.
    Enum { ident: &'static str, polymorphic: bool, arms: Vec<Arm> },
}

/// Whether `b` tells of the fields `f`: the same names in the same order,
/// or the same count.
pub open spec fn binders_of<T>(b: Binders, f: Fields<T>) -> bool {
    match f {
        Fields::Named(named) => b matches Binders::Named(names) && names@.len() == named@.len()
            && forall|i: int| 0 <= i < named@.len() ==> names@[i] == (#[trigger] named@[i]).0,
        Fields::Unnamed(unnamed) => b matches Binders::Unnamed(n) && n == unnamed@.len(),
        Fields::Unit => b is Unit,
    }
}

/// The bytes that select case number `index`, of the name `name`: in a
/// polymorphic variant the tag of the name in four bytes, low byte first;
/// in an ordinary one the number of the case in one byte.
pub open spec fn case_tag(polymorphic: bool, index: int, name: Seq<char>) -> Seq<u8> {
    if polymorphic {
        le_bytes(tag_of(encode_utf8(name)), 4)
    } else {
        seq![index as u8]
    }
}

/// Whether `arms` are the arms of the cases `variants`.
pub open spec fn arms_of<T>(arms: Seq<Arm>, variants: Seq<Variant<T>>, polymorphic: bool) -> bool {
    &&& arms.len() == variants.len()
    &&& forall|i: int|
        0 <= i < variants.len() ==> {
            &&& (#[trigger] arms[i]).ident == variants[i].ident
            &&& arms[i].tag@ == case_tag(polymorphic, i, variants[i].ident@)
            &&& binders_of(arms[i].fields, variants[i].fields)
        }
}

/// Whether `plan` is the plan of the declaration `ast`.
pub open spec fn plan_of<T>(plan: Plan, ast: Declaration<T>) -> bool {
    match ast.data {
        Data::Struct(fields) => plan matches Plan::Struct { ident, fields: b } && ident
            == ast.ident && binders_of(b, fields),
        Data::Enum(variants) => plan matches Plan::Enum { ident, polymorphic, arms } && ident
            == ast.ident && polymorphic == has_polymorphic_mark(ast.attrs@) && arms_of(
            arms@,
            variants@,
            polymorphic,
        ),
        Data::Union => false,
    }
}

/// Why the declaration `ast` has no plan, if it has none. A struct is held
/// to the rules of structs, an enum to the limit on its cases.
pub open spec fn refusal<T>(ast: Declaration<T>) -> Option<DeriveError> {
    match ast.data {
        Data::Struct(fields) => if has_polymorphic_mark(ast.attrs@) {
            Some(DeriveError::PolymorphicVariantOnStruct)
        } else if fields is Unit {
            Some(DeriveError::UnitStruct)
        } else {
            None
        },
        Data::Enum(variants) => if variants@.len() > MAX_CASES {
            Some(DeriveError::TooManyCases)
        } else {
            None
        },
        Data::Union => Some(DeriveError::UnionNotSupported),
    }
}

/// The names or the count of the fields `f`.
fn binders<T>(f: &Fields<T>) -> (b: Binders)
    ensures
        binders_of(b, *f),
{
    match f {
        Fields::Named(named) => {
            let mut names: Vec<&'static str> = Vec::new();
            let mut i: usize = 0;
            while i < named.len()
                invariant
                    i <= named.len(),
                    names@.len() == i,
                    forall|j: int| 0 <= j < i ==> names@[j] == (#[trigger] named@[j]).0,
                decreases named.len() - i,
            {
                names.push(named[i].0);
                i = i + 1;
            }
            Binders::Named(names)
        },
        Fields::Unnamed(unnamed) => Binders::Unnamed(unnamed.len()),
        Fields::Unit => Binders::Unit,
    }
}

/// The plan by which the values of the declared type are written and read,
/// or the reason why the declaration is refused.
pub fn plan<T>(ast: &Declaration<T>) -> (res: Result<Plan, DeriveError>)
    ensures
        match refusal(*ast) {
            Some(e) => res == Err::<Plan, DeriveError>(e),
            None => res is Ok && plan_of(res->Ok_0, *ast),
        },
{
    let polymorphic = has_polymorphic_variant_attr(ast);
    match &ast.data {
        Data::Struct(fields) => {
            if polymorphic {
                return Err(DeriveError::PolymorphicVariantOnStruct);
            }
            match fields {
                Fields::Unit => Err(DeriveError::UnitStruct),
                _ => Ok(Plan::Struct { ident: ast.ident, fields: binders(fields) }),
            }
        },
        Data::Enum(variants) => {
            if variants.len() > MAX_CASES {
                return Err(DeriveError::TooManyCases);
            }
            let mut arms: Vec<Arm> = Vec::new();
            let mut i: usize = 0;
            while i < variants.len()
                invariant
                    i <= variants.len() <= MAX_CASES,
                    arms_of(arms@, variants@.take(i as int), polymorphic),
                decreases variants.len() - i,
            {
                let variant = &variants[i];
                let mut tag: Vec<u8> = Vec::new();
                if polymorphic {
                    let bytes = i32_to_le_bytes(variant_int(variant.ident));
                    tag.extend_from_slice(bytes.as_slice());
                    assert(tag@ =~= case_tag(polymorphic, i as int, variant.ident@));
                } else {
                    tag.push(i as u8);
                }
                arms.push(Arm { ident: variant.ident, tag, fields: binders(&variant.fields) });
                i = i + 1;
            }
            assert(variants@.take(i as int) =~= variants@);
            Ok(Plan::Enum { ident: ast.ident, polymorphic, arms })
        },
        Data::Union => Err(DeriveError::UnionNotSupported),
    }
}

/// The first arm from position `from` on whose tag is `key`, if there is
/// one.
pub open spec fn first_arm(arms: Seq<Arm>, key: Seq<u8>, from: nat) -> Option<nat>
    decreases arms.len() - from,
{
    if from >= arms.len() {
        None
    } else if arms[from as int].tag@ == key {
        Some(from)
    } else {
        first_arm(arms, key, from + 1)
    }
}

impl Plan {
    /// The arms of the plan of an enum; a struct has none.
    pub open spec fn arms(&self) -> Seq<Arm> {
        match self {
            Plan::Struct { .. } => Seq::empty(),
            Plan::Enum { arms, .. } => arms@,
        }
    }

    /// Which case the front of `s` selects, and in how many bytes. An
    /// ordinary enum takes one byte, the number of the case. A polymorphic
    /// variant takes four, and the first case with that tag is meant.
    /// A struct has no cases, so nothing is taken.
    pub open spec fn parse_tag(&self, s: Seq<u8>) -> Parsed<usize> {
        match self {
            Plan::Struct { .. } => Ok((0, 0)),
            Plan::Enum { ident, polymorphic, arms } => if *polymorphic {
                if s.len() < 4 {
                    Err(Error::eof())
                } else {
                    match first_arm(arms@, s.take(4), 0) {
                        Some(i) => Ok((i as usize, 4)),
                        None => Err(
                            Error::UnexpectedPolymorphicVariantIndex {
                                index: le_signed(s.take(4)) as i32,
                                ident: *ident,
                            },
                        ),
                    }
                }
            } else {
                if s.len() == 0 {
                    Err(Error::eof())
                } else if s[0] < arms@.len() {
                    Ok((s[0] as usize, 1))
                } else {
                    Err(Error::UnexpectedVariantIndex { index: s[0], ident: *ident })
                }
            },
        }
    }

    /// Appends the bytes that select case number `case`. Where the plan has
    /// no such case, nothing is written and the answer is `false`.
    pub fn write_tag(&self, case: usize, w: &mut Vec<u8>) -> (known: bool)
        ensures
            known == (case < self.arms().len()),
            known ==> final(w)@ == old(w)@ + self.arms()[case as int].tag@,
            !known ==> final(w)@ == old(w)@,
    {
        match self {
            Plan::Struct { .. } => false,
            Plan::Enum { arms, .. } => {
                if case < arms.len() {
                    w.extend_from_slice(arms[case].tag.as_slice());
                    assert(w@ =~= old(w)@ + arms@[case as int].tag@);
                    true
                } else {
                    false
                }
            },
        }
    }

    /// Reads the bytes that select a case, and tells which case it is.
    pub fn read_tag(&self, r: &mut Source) -> (res: Result<usize, Error>)
        ensures
            final(r).all() == old(r).all(),
            match self.parse_tag(old(r).rest()) {
                Ok((case, n)) => {
                    &&& res == Ok::<usize, Error>(case)
                    &&& n <= old(r).rest().len()
                    &&& final(r).rest() == old(r).rest().skip(n as int)
                },
                Err(e) => res == Err::<usize, Error>(e),
            },
    {
        let ghost s = r.rest();
        match self {
            Plan::Struct { .. } => {
                assert(s.skip(0) =~= s);
                Ok(0)
            },
            Plan::Enum { ident, polymorphic, arms } => {
                if *polymorphic {
                    let key = match r.read_exact(4) {
                        Ok(key) => key,
                        Err(e) => {
                            return Err(e);
                        },
                    };
                    assert(key@.take(4) =~= key@);
                    match find_arm(arms, key) {
                        Some(i) => Ok(i),
                        None => Err(
                            Error::UnexpectedPolymorphicVariantIndex {
                                index: le_read_i32(key),
                                ident: *ident,
                            },
                        ),
                    }
                } else {
                    match r.read_u8() {
                        Ok(index) => {
                            if (index as usize) < arms.len() {
                                Ok(index as usize)
                            } else {
                                Err(Error::UnexpectedVariantIndex { index, ident: *ident })
                            }
                        },
                        Err(e) => Err(e),
                    }
                }
            },
        }
    }
}

/// Whether no two of `arms` have the same tag.
pub open spec fn distinct_tags(arms: Seq<Arm>) -> bool {
    forall|i: int, j: int|
        0 <= i < j < arms.len() ==> (#[trigger] arms[i]).tag@ != (#[trigger] arms[j]).tag@
}

/// Whether no arm before the arm at `j` has the tag of that arm.
fn tag_is_new(arms: &Vec<Arm>, j: usize) -> (new: bool)
    requires
        j < arms@.len(),
    ensures
        new == forall|a: int| 0 <= a < j ==> (#[trigger] arms@[a]).tag@ != arms@[j as int].tag@,
{
    let mut i: usize = 0;
    while i < j
        invariant
            i <= j < arms@.len(),
            forall|a: int| 0 <= a < i ==> (#[trigger] arms@[a]).tag@ != arms@[j as int].tag@,
        decreases j - i,
    {
        if bytes_same(arms[i].tag.as_slice(), arms[j].tag.as_slice()) {
            return false;
        }
        i = i + 1;
    }
    true
}

/// Whether no two of `arms` have the same tag.
fn arms_distinct(arms: &Vec<Arm>) -> (distinct: bool)
    ensures
        distinct == distinct_tags(arms@),
{
    let mut j: usize = 0;
    while j < arms.len()
        invariant
            j <= arms.len(),
            forall|a: int, b: int|
                0 <= a < b < j ==> (#[trigger] arms@[a]).tag@ != (#[trigger] arms@[b]).tag@,
        decreases arms.len() - j,
    {
        if !tag_is_new(arms, j) {
            return false;
        }
        j = j + 1;
    }
    true
}

/// Whether no two cases of the plan have the same tag. The names of two
/// cases of a polymorphic variant may hash to the same tag; a reader then
/// takes the second for the first.
pub fn has_distinct_tags(plan: &Plan) -> (distinct: bool)
    ensures
        distinct == distinct_tags(plan.arms()),
{
    match plan {
        Plan::Struct { .. } => true,
        Plan::Enum { arms, .. } => arms_distinct(arms),
    }
}

/// The first arm whose tag is `key`, if there is one.
fn find_arm(arms: &Vec<Arm>, key: &[u8]) -> (found: Option<usize>)
    ensures
        match first_arm(arms@, key@, 0) {
            Some(i) => found == Some(i as usize),
            None => found is None,
        },
{
    let mut i: usize = 0;
    while i < arms.len()
        invariant
            i <= arms.len(),
            first_arm(arms@, key@, 0) == first_arm(arms@, key@, i as nat),
        decreases arms.len() - i,
    {
        if bytes_same(arms[i].tag.as_slice(), key) {
            return Some(i);
        }
        i = i + 1;
    }
    None
}

/// In an ordinary enum each byte below the number of cases selects the
/// case of that number and no other, and every other byte is refused with
/// the byte and the name of the type.
pub proof fn lemma_case_index<T>(plan: Plan, ast: Declaration<T>, index: u8, rest: Seq<u8>)
    requires
        plan_of(plan, ast),
        ast.data is Enum,
        !has_polymorphic_mark(ast.attrs@),
    ensures
        index < plan.arms().len() ==> plan.parse_tag(seq![index] + rest) == Ok::<
            (usize, nat),
            Error,
        >((index as usize, 1)),
        index >= plan.arms().len() ==> plan.parse_tag(seq![index] + rest) == Err::<
            (usize, nat),
            Error,
        >(Error::UnexpectedVariantIndex { index, ident: ast.ident }),
        plan.arms().len() == ast.data->Enum_0@.len(),
{
}

/// Reading the tag that was written for a case of an ordinary enum tells
/// that case.
pub proof fn lemma_tag_roundtrip<T>(plan: Plan, ast: Declaration<T>, case: usize, rest: Seq<u8>)
    requires
        plan_of(plan, ast),
        refusal(ast) is None,
        !has_polymorphic_mark(ast.attrs@),
        case < plan.arms().len(),
    ensures
        plan.parse_tag(plan.arms()[case as int].tag@ + rest) == Ok::<(usize, nat), Error>(
            (case, 1),
        ),
{
}

/// Reading the tag that was written for a case of a polymorphic variant
/// tells that case, if no case before it has the same tag.
pub proof fn lemma_polymorphic_tag_roundtrip<T>(
    plan: Plan,
    ast: Declaration<T>,
    case: usize,
    rest: Seq<u8>,
)
    requires
        plan_of(plan, ast),
        has_polymorphic_mark(ast.attrs@),
        case < plan.arms().len(),
        forall|j: int|
            0 <= j < case ==> (#[trigger] plan.arms()[j]).tag@ != plan.arms()[case as int].tag@,
    ensures
        plan.parse_tag(plan.arms()[case as int].tag@ + rest) == Ok::<(usize, nat), Error>(
            (case, 4),
        ),
{
    let arms = plan.arms();
    let key = arms[case as int].tag@;
    assert((key + rest).take(4) =~= key);
    lemma_first_arm(arms, key, 0, case as nat);
}

/// Looking from `from` for the first arm with the tag `key` finds the arm
/// at `at`, where that arm has the tag and none before it has.
proof fn lemma_first_arm(arms: Seq<Arm>, key: Seq<u8>, from: nat, at: nat)
    requires
        from <= at < arms.len(),
        arms[at as int].tag@ == key,
        forall|j: int| from <= j < at ==> (#[trigger] arms[j]).tag@ != key,
    ensures
        first_arm(arms, key, from) == Some(at),
    decreases at - from,
{
    if from < at {
        lemma_first_arm(arms, key, from + 1, at);
    }
}

/// The arguments of a case of an ordinary enum: named fields make one
/// record, fields by position stand each for itself.
pub open spec fn ordinary_args(f: Fields<Shape>) -> Seq<Shape> {
    match f {
        Fields::Named(named) => seq![Shape::Record(named)],
        Fields::Unnamed(unnamed) => unnamed@,
        Fields::Unit => Seq::empty(),
    }
}

/// The argument of a case of a polymorphic variant: named fields make a
/// record, one field by position stands for itself, any other number of
/// them makes a tuple, and a case without fields has no argument.
pub open spec fn polymorphic_arg(f: Fields<Shape>) -> Option<Shape> {
    match f {
        Fields::Named(named) => Some(Shape::Record(named)),
        Fields::Unnamed(unnamed) => if unnamed@.len() == 1 {
            Some(unnamed@[0])
        } else {
            Some(Shape::Tuple(unnamed))
        },
        Fields::Unit => None,
    }
}

/// The cases of a polymorphic variant, in the order of their declaration.
pub open spec fn polymorphic_cases(variants: Seq<Variant<Shape>>) -> Seq<Case> {
    Seq::new(variants.len(), |i: int| (variants[i].ident, polymorphic_arg(variants[i].fields)))
}

/// Whether `cases` are the cases of an ordinary enum with the cases
/// `variants`.
pub open spec fn ordinary_cases(
    cases: Seq<(&'static str, Vec<Shape>)>,
    variants: Seq<Variant<Shape>>,
) -> bool {
    &&& cases.len() == variants.len()
    &&& forall|i: int|
        0 <= i < variants.len() ==> (#[trigger] cases[i]).0 == variants[i].ident && cases[i].1@
            == ordinary_args(variants[i].fields)
}

/// Whether `s` is the shape of the type that `ast` declares, where each
/// field of `ast` carries the shape of its type.
pub open spec fn shape_of(s: Shape, ast: Declaration<Shape>) -> bool {
    match ast.data {
        Data::Struct(Fields::Named(named)) => s == Shape::Record(named),
        Data::Struct(Fields::Unnamed(unnamed)) => s == Shape::Tuple(unnamed),
        Data::Struct(Fields::Unit) => false,
        Data::Enum(variants) => if has_polymorphic_mark(ast.attrs@) {
            s matches Shape::PolyVariant(cases) && cases@ == sort_cases(
                polymorphic_cases(variants@),
            )
        } else {
            s matches Shape::Variant(cases) && ordinary_cases(cases@, variants@)
        },
        Data::Union => false,
    }
}

/// Why the declaration `ast` has no shape, if it has none. The number of
/// cases of an enum is of no account here.
pub open spec fn shape_refusal<T>(ast: Declaration<T>) -> Option<DeriveError> {
    match ast.data {
        Data::Struct(fields) => if has_polymorphic_mark(ast.attrs@) {
            Some(DeriveError::PolymorphicVariantOnStruct)
        } else if fields is Unit {
            Some(DeriveError::UnitStruct)
        } else {
            None
        },
        Data::Enum(variants) => None,
        Data::Union => Some(DeriveError::UnionNotSupported),
    }
}

/// The arguments of a case of an ordinary enum.
fn ordinary_case(fields: Fields<Shape>) -> (args: Vec<Shape>)
    ensures
        args@ == ordinary_args(fields),
{
    match fields {
        Fields::Named(named) => {
            let mut args: Vec<Shape> = Vec::new();
            args.push(Shape::Record(named));
            assert(args@ =~= seq![Shape::Record(named)]);
            args
        },
        Fields::Unnamed(unnamed) => unnamed,
        Fields::Unit => Vec::new(),
    }
}

/// The argument of a case of a polymorphic variant.
fn polymorphic_case(fields: Fields<Shape>) -> (arg: Option<Shape>)
    ensures
        arg == polymorphic_arg(fields),
{
    match fields {
        Fields::Named(named) => Some(Shape::Record(named)),
        Fields::Unnamed(unnamed) => {
            if unnamed.len() == 1 {
                let mut unnamed = unnamed;
                unnamed.pop()
            } else {
                Some(Shape::Tuple(unnamed))
            }
        },
        Fields::Unit => None,
    }
}

/// The shape of the declared type, from the shapes of the types of its
/// fields, or the reason why the declaration is refused.
pub fn impl_binprot_shape(ast: Declaration<Shape>) -> (res: Result<Shape, DeriveError>)
    ensures
        match shape_refusal(ast) {
            Some(e) => res == Err::<Shape, DeriveError>(e),
            None => res is Ok && shape_of(res->Ok_0, ast),
        },
        res matches Ok(Shape::PolyVariant(cases)) ==> strictly_sorted(cases@),
{
    let polymorphic = has_polymorphic_variant_attr(&ast);
    match ast.data {
        Data::Struct(fields) => {
            if polymorphic {
                return Err(DeriveError::PolymorphicVariantOnStruct);
            }
            match fields {
                Fields::Named(named) => Ok(Shape::Record(named)),
                Fields::Unnamed(unnamed) => Ok(Shape::Tuple(unnamed)),
                Fields::Unit => Err(DeriveError::UnitStruct),
            }
        },
        Data::Enum(variants) => {
            let ghost all = variants@;
            let mut left = reversed(variants);
            if polymorphic {
                let mut cases: Vec<Case> = Vec::new();
                assert(cases@ =~= polymorphic_cases(all.take(0)));
                while left.len() > 0
                    invariant
                        left@.len() <= all.len(),
                        left@ == all.reverse().take(left@.len() as int),
                        cases@ == polymorphic_cases(all.take(all.len() - left@.len())),
                    decreases left.len(),
                {
                    let ghost done = all.len() - left@.len();
                    match left.pop() {
                        Some(variant) => {
                            assert(variant == all[done]);
                            let arg = polymorphic_case(variant.fields);
                            cases.push((variant.ident, arg));
                            assert(left@ =~= all.reverse().take(left@.len() as int));
                            assert(cases@ =~= polymorphic_cases(all.take(done + 1)));
                        },
                        None => {},
                    }
                }
                assert(all.take(all.len() as int) =~= all);
                Ok(Shape::PolyVariant(sorted_cases(cases)))
            } else {
                let mut cases: Vec<(&'static str, Vec<Shape>)> = Vec::new();
                while left.len() > 0
                    invariant
                        left@.len() <= all.len(),
                        left@ == all.reverse().take(left@.len() as int),
                        ordinary_cases(cases@, all.take(all.len() - left@.len())),
                    decreases left.len(),
                {
                    let ghost done = all.len() - left@.len();
                    match left.pop() {
                        Some(variant) => {
                            assert(variant == all[done]);
                            let args = ordinary_case(variant.fields);
                            cases.push((variant.ident, args));
                            assert(left@ =~= all.reverse().take(left@.len() as int));
                        },
                        None => {},
                    }
                }
                assert(all.take(all.len() as int) =~= all);
                Ok(Shape::Variant(cases))
            }
        },
        Data::Union => Err(DeriveError::UnionNotSupported),
    }
}

/// Two polymorphic variants that declare like cases, each name once, have
/// shapes of the same structure and so the same fingerprint, whatever the
/// order of the declarations. Cases are alike that have the same name and
/// arguments of the same structure.
pub proof fn lemma_constructor_order(
    a: Declaration<Shape>,
    b: Declaration<Shape>,
    shape_a: Shape,
    shape_b: Shape,
)
    requires
        a.data is Enum,
        b.data is Enum,
        has_polymorphic_mark(a.attrs@),
        has_polymorphic_mark(b.attrs@),
        shape_of(shape_a, a),
        shape_of(shape_b, b),
        names_distinct(polymorphic_cases(a.data->Enum_0@)),
        names_distinct(polymorphic_cases(b.data->Enum_0@)),
        cases_within(polymorphic_cases(a.data->Enum_0@), polymorphic_cases(b.data->Enum_0@)),
        cases_within(polymorphic_cases(b.data->Enum_0@), polymorphic_cases(a.data->Enum_0@)),
    ensures
        same_shape(shape_a, shape_b),
        shape_digest(shape_a) == shape_digest(shape_b),
{
    lemma_order_of_like_cases(
        polymorphic_cases(a.data->Enum_0@),
        polymorphic_cases(b.data->Enum_0@),
    );
    lemma_same_digest(shape_a, shape_b);
}

} // verus!
