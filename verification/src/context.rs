//! The context of a shape query: the types whose shapes are being worked
//! out, each with a flag that tells whether the type was met again inside
//! itself.
use crate::shape::Shape;
use std::any::TypeId;
use vstd::prelude::*;

verus! {

/// The identity of a type, as std gives it.
#[verifier::external_type_specification]
#[verifier::external_body]
pub struct ExTypeId(TypeId);

/// `TypeId::of` of std: the identity of the type `T`. Nothing is said of
/// it: the identities of two types differ, and that is all there is to
/// know.
#[verifier::external_body]
pub(crate) fn type_id_of<T: 'static + ?Sized>() -> TypeId {
    TypeId::of::<T>()
}

/// `TypeId::eq` of std: whether two identities are the same.
#[verifier::external_body]
pub(crate) fn same_type(a: &TypeId, b: &TypeId) -> (r: bool)
    ensures
        r == (*a == *b),
{
    a == b
}

/// Whether `k` is among the first components of `s`.
pub open spec fn has_key(s: Seq<(TypeId, bool)>, k: TypeId) -> bool {
    exists|i: int| 0 <= i < s.len() && (#[trigger] s[i]).0 == k
}

/// A position at which `k` stands in `s`.
pub open spec fn place(s: Seq<(TypeId, bool)>, k: TypeId) -> int {
    choose|i: int| 0 <= i < s.len() && (#[trigger] s[i]).0 == k
}

/// Whether no identity stands twice in `s`.
pub open spec fn keys_distinct(s: Seq<(TypeId, bool)>) -> bool {
    forall|i: int, j: int| 0 <= i < j < s.len() ==> (#[trigger] s[i]).0 != (#[trigger] s[j]).0
}

/// The map that `s` lists: each identity with its flag.
pub open spec fn as_map(s: Seq<(TypeId, bool)>) -> Map<TypeId, bool> {
    Map::new(|k: TypeId| has_key(s, k), |k: TypeId| s[place(s, k)].1)
}

/// Whether a context went from `before` to `after` in a way that a shape
/// computation may leave behind: the same types are in it, and no flag was
/// taken back.
pub open spec fn keeps(before: Map<TypeId, bool>, after: Map<TypeId, bool>) -> bool {
    &&& after.dom() == before.dom()
    &&& forall|k: TypeId| #[trigger] before.contains_key(k) && before[k] ==> after[k]
}

/// The types whose shapes are being worked out.
pub struct ShapeContext {
    entries: Vec<(TypeId, bool)>,
}

impl View for ShapeContext {
    type V = Map<TypeId, bool>;

    closed spec fn view(&self) -> Map<TypeId, bool> {
        as_map(self.entries@)
    }
}

/// In a list without repetition, the flag of the identity at `i` is the
/// flag at `i`.
proof fn lemma_flag_at(s: Seq<(TypeId, bool)>, i: int)
    requires
        keys_distinct(s),
        0 <= i < s.len(),
    ensures
        has_key(s, s[i].0),
        as_map(s)[s[i].0] == s[i].1,
        place(s, s[i].0) == i,
{
    let k = s[i].0;
    let p = place(s, k);
    assert(0 <= p < s.len() && s[p].0 == k);
    if p < i {
        assert(s[p].0 != s[i].0);
    } else if i < p {
        assert(s[i].0 != s[p].0);
    }
}

impl Default for ShapeContext {
    fn default() -> (c: Self)
        ensures
            c@ == Map::<TypeId, bool>::empty(),
    {
        ShapeContext::new()
    }
}

impl ShapeContext {
    /// No type is listed twice.
    #[verifier::type_invariant]
    spec fn inv(&self) -> bool {
        keys_distinct(self.entries@)
    }

    /// A context with no type in it.
    pub fn new() -> (c: Self)
        ensures
            c@ == Map::<TypeId, bool>::empty(),
    {
        let c = ShapeContext { entries: Vec::new() };
        assert(c@ =~= Map::<TypeId, bool>::empty());
        c
    }

    /// Where `id` stands in the list, if it does.
    fn find(&self, id: &TypeId) -> (at: Option<usize>)
        ensures
            match at {
                Some(i) => i < self.entries@.len() && self.entries@[i as int].0 == *id,
                None => !has_key(self.entries@, *id),
            },
    {
        let mut i: usize = 0;
        while i < self.entries.len()
            invariant
                i <= self.entries.len(),
                forall|j: int| 0 <= j < i ==> (#[trigger] self.entries@[j]).0 != *id,
            decreases self.entries.len() - i,
        {
            if same_type(&self.entries[i].0, id) {
                return Some(i);
            }
            i = i + 1;
        }
        None
    }

    /// Whether the type `id` is in the context, and if so its flag.
    pub fn get(&self, id: &TypeId) -> (flag: Option<bool>)
        ensures
            match flag {
                Some(f) => self@.contains_key(*id) && self@[*id] == f,
                None => !self@.contains_key(*id),
            },
    {
        proof {
            use_type_invariant(self);
        }
        match self.find(id) {
            Some(i) => {
                proof {
                    lemma_flag_at(self.entries@, i as int);
                }
                Some(self.entries[i].1)
            },
            None => None,
        }
    }

    /// Comes upon the type `id`. Where the type is in the context already,
    /// it is being worked out further up: its flag is raised, and the
    /// answer is the mark of a reference back to it. Where it is not, it
    /// enters the context with its flag down, and there is no answer yet.
    pub fn enter(&mut self, id: TypeId) -> (hit: Option<Shape>)
        ensures
            old(self)@.contains_key(id) ==> final(self)@ == old(self)@.insert(id, true) && (
            hit matches Some(Shape::RecApp(depth, args)) && depth == 0 && args@.len() == 0),
            !old(self)@.contains_key(id) ==> final(self)@ == old(self)@.insert(id, false)
                && hit is None,
    {
        proof {
            use_type_invariant(&*self);
        }
        let ghost before = self.entries@;
        match self.find(&id) {
            Some(i) => {
                let mut entries: Vec<(TypeId, bool)> = Vec::new();
                core::mem::swap(&mut entries, &mut self.entries);
                entries[i] = (id, true);
                proof {
                    let after = entries@;
                    assert(after =~= before.update(i as int, (id, true)));
                    assert(keys_distinct(after)) by {
                        assert forall|a: int, b: int| 0 <= a < b < after.len() implies (
                        #[trigger] after[a]).0 != (#[trigger] after[b]).0 by {
                            assert(after[a].0 == before[a].0 && after[b].0 == before[b].0);
                        }
                    }
                    assert forall|k: TypeId| has_key(after, k) <==> has_key(before, k) by {
                        if has_key(after, k) {
                            let p = place(after, k);
                            assert(before[p].0 == k);
                        }
                        if has_key(before, k) {
                            let p = place(before, k);
                            assert(after[p].0 == k);
                        }
                    }
                    assert forall|k: TypeId| has_key(after, k) implies #[trigger] as_map(after)[k]
                        == as_map(before).insert(id, true)[k] by {
                        let p = place(after, k);
                        lemma_flag_at(after, p);
                        lemma_flag_at(before, p);
                    }
                    assert(as_map(after) =~= as_map(before).insert(id, true));
                }
                core::mem::swap(&mut entries, &mut self.entries);
                Some(Shape::RecApp(0, Vec::new()))
            },
            None => {
                let mut entries: Vec<(TypeId, bool)> = Vec::new();
                core::mem::swap(&mut entries, &mut self.entries);
                entries.push((id, false));
                proof {
                    let after = entries@;
                    assert(keys_distinct(after)) by {
                        assert forall|a: int, b: int| 0 <= a < b < after.len() implies (
                        #[trigger] after[a]).0 != (#[trigger] after[b]).0 by {
                            if b < before.len() {
                                assert(after[a] == before[a] && after[b] == before[b]);
                            } else {
                                assert(after[a] == before[a]);
                                assert(has_key(before, before[a].0));
                            }
                        }
                    }
                    assert forall|k: TypeId| has_key(after, k) <==> (has_key(before, k) || k
                        == id) by {
                        if has_key(after, k) {
                            let p = place(after, k);
                            if p < before.len() {
                                assert(before[p].0 == k);
                            }
                        }
                        if has_key(before, k) {
                            let p = place(before, k);
                            assert(after[p].0 == k);
                        }
                        if k == id {
                            assert(after[before.len() as int].0 == k);
                        }
                    }
                    assert forall|k: TypeId| has_key(after, k) implies #[trigger] as_map(after)[k]
                        == as_map(before).insert(id, false)[k] by {
                        let p = place(after, k);
                        lemma_flag_at(after, p);
                        if p < before.len() {
                            assert(after[p] == before[p]);
                            lemma_flag_at(before, p);
                        }
                    }
                    assert(as_map(after) =~= as_map(before).insert(id, false));
                }
                core::mem::swap(&mut entries, &mut self.entries);
                None
            },
        }
    }

    /// Is done with the type `id`, of which `shape` was worked out. The
    /// type leaves the context. Where its flag was raised meanwhile, the
    /// type is recursive, and the answer is `shape` as a recursive type
    /// applied to no parameters; else the answer is `shape`.
    pub fn leave(&mut self, id: TypeId, shape: Shape) -> (out: Shape)
        ensures
            final(self)@ == old(self)@.remove(id),
            old(self)@.contains_key(id) && old(self)@[id] ==> (out matches Shape::Application(
                inner,
                args,
            ) && *inner == shape && args@.len() == 0),
            !(old(self)@.contains_key(id) && old(self)@[id]) ==> out == shape,
    {
        proof {
            use_type_invariant(&*self);
        }
        let ghost before = self.entries@;
        match self.find(&id) {
            Some(i) => {
                proof {
                    lemma_flag_at(before, i as int);
                }
                let mut entries: Vec<(TypeId, bool)> = Vec::new();
                core::mem::swap(&mut entries, &mut self.entries);
                let entry = entries.remove(i);
                proof {
                    let after = entries@;
                    assert(keys_distinct(after)) by {
                        assert forall|a: int, b: int| 0 <= a < b < after.len() implies (
                        #[trigger] after[a]).0 != (#[trigger] after[b]).0 by {
                            let a0 = if a < i { a } else { a + 1 };
                            let b0 = if b < i { b } else { b + 1 };
                            assert(after[a] == before[a0] && after[b] == before[b0]);
                        }
                    }
                    assert forall|k: TypeId| has_key(after, k) <==> (has_key(before, k) && k
                        != id) by {
                        if has_key(after, k) {
                            let p = place(after, k);
                            let shifted = if p < i { p } else { p + 1 };
                            assert(before[shifted].0 == k);
                            if k == id {
                                lemma_flag_at(before, shifted);
                            }
                        }
                        if has_key(before, k) && k != id {
                            let p = place(before, k);
                            let moved = if p < i { p } else { p - 1 };
                            assert(after[moved].0 == k);
                        }
                    }
                    assert forall|k: TypeId| has_key(after, k) implies #[trigger] as_map(after)[k]
                        == as_map(before).remove(id)[k] by {
                        let p = place(after, k);
                        let shifted = if p < i { p } else { p + 1 };
                        lemma_flag_at(after, p);
                        assert(after[p] == before[shifted]);
                        lemma_flag_at(before, shifted);
                    }
                    assert(as_map(after) =~= as_map(before).remove(id));
                }
                core::mem::swap(&mut entries, &mut self.entries);
                if entry.1 {
                    Shape::Application(Box::new(shape), Vec::new())
                } else {
                    shape
                }
            },
            None => {
                assert(as_map(before) =~= as_map(before).remove(id));
                shape
            },
        }
    }
}

/// Whether `s` is the mark of a reference from inside a recursive type back
/// to it.
pub open spec fn is_mark(s: Shape) -> bool {
    s matches Shape::RecApp(depth, args) && depth == 0 && args@.len() == 0
}

/// Whether `s` is `inner` as it leaves the context: as a recursive type
/// applied to no parameters where the type met itself on the way, and as
/// it is where it did not.
pub open spec fn wrapped(inner: Shape, met: bool, s: Shape) -> bool {
    if met {
        s matches Shape::Application(boxed, args) && *boxed == inner && args@.len() == 0
    } else {
        s == inner
    }
}

/// Whether the type `id` was met again: it was in the context `before`,
/// the answer `s` is the mark of a reference back to it, and in `after`
/// its flag is raised.
pub open spec fn met_again(
    id: TypeId,
    before: Map<TypeId, bool>,
    s: Shape,
    after: Map<TypeId, bool>,
) -> bool {
    &&& before.contains_key(id)
    &&& is_mark(s)
    &&& after == before.insert(id, true)
}

/// Whether the type `id` was worked out: it was not in the context
/// `before`; with the type entered, flag down, the work gave `inner` and
/// left the context `worked`; the answer `s` is `inner`, wrapped if the
/// flag was raised meanwhile; and in `after` the type has left again.
pub open spec fn worked_out(
    id: TypeId,
    before: Map<TypeId, bool>,
    inner: Shape,
    worked: Map<TypeId, bool>,
    s: Shape,
    after: Map<TypeId, bool>,
) -> bool {
    &&& !before.contains_key(id)
    &&& keeps(before.insert(id, false), worked)
    &&& wrapped(inner, worked[id], s)
    &&& after == worked.remove(id)
}

/// Whether asking for the shape of the type `id` went as it must: the type
/// was met again, or it was worked out and `given` holds, which says that
/// the work was the type's own.
pub open spec fn asked(
    id: TypeId,
    before: Map<TypeId, bool>,
    inner: Shape,
    worked: Map<TypeId, bool>,
    s: Shape,
    after: Map<TypeId, bool>,
    given: bool,
) -> bool {
    met_again(id, before, s, after) || (worked_out(id, before, inner, worked, s, after) && given)
}

} // verus!
