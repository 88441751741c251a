//! The cases of a polymorphic variant, kept in the order of their names so
//! that the order of their declaration leaves no trace.
use crate::names::{
    bytes_before, bytes_lt, bytes_same, lemma_lt_irreflexive, lemma_lt_total,
    lemma_lt_transitive,
};
use crate::shape::{same_payload, same_poly, Shape};
use vstd::prelude::*;
use vstd::utf8::encode_utf8;

verus! {

/// A case of a polymorphic variant: its name, and the shape of its argument
/// if it has one.
pub type Case = (&'static str, Option<Shape>);

/// The bytes of the name of a case.
pub open spec fn name_of(c: Case) -> Seq<u8> {
    encode_utf8(c.0@)
}

/// Whether the names of `v` go up from each case to the next.
pub open spec fn strictly_sorted(v: Seq<Case>) -> bool {
    forall|i: int, j: int|
        0 <= i < j < v.len() ==> bytes_lt(name_of(#[trigger] v[i]), name_of(#[trigger] v[j]))
}

/// Whether no two cases of `v` have the same name.
pub open spec fn names_distinct(v: Seq<Case>) -> bool {
    forall|i: int, j: int|
        0 <= i < j < v.len() ==> name_of(#[trigger] v[i]) != name_of(#[trigger] v[j])
}

/// How many cases at the front of `v` have a name before `key`.
pub open spec fn rank(v: Seq<Case>, key: Seq<u8>) -> int
    decreases v.len(),
{
    if v.len() == 0 || !bytes_lt(name_of(v[0]), key) {
        0
    } else {
        1 + rank(v.drop_first(), key)
    }
}

/// The cases `v` with the case `c` added in its place. Where `v` has a case
/// of that name already, that case keeps its name and takes the argument
/// of `c`.
pub open spec fn insert_sorted(v: Seq<Case>, c: Case) -> Seq<Case> {
    let i = rank(v, name_of(c));
    if i < v.len() && name_of(v[i]) == name_of(c) {
        v.update(i, (v[i].0, c.1))
    } else {
        v.insert(i, c)
    }
}

/// The cases `cases` in the order of their names: each is added in its
/// place, from the first to the last.
pub open spec fn sort_cases(cases: Seq<Case>) -> Seq<Case>
    decreases cases.len(),
{
    if cases.len() == 0 {
        Seq::empty()
    } else {
        insert_sorted(sort_cases(cases.drop_last()), cases.last())
    }
}

/// The rank of `key` in `v` is a position in `v` or its end; the names
/// before it come before `key`, and the name at it does not.
pub proof fn lemma_rank(v: Seq<Case>, key: Seq<u8>)
    ensures
        0 <= rank(v, key) <= v.len(),
        forall|j: int| 0 <= j < rank(v, key) ==> bytes_lt(name_of(#[trigger] v[j]), key),
        rank(v, key) < v.len() ==> !bytes_lt(name_of(v[rank(v, key)]), key),
    decreases v.len(),
{
    if v.len() == 0 || !bytes_lt(name_of(v[0]), key) {
    } else {
        let t = v.drop_first();
        lemma_rank(t, key);
        assert forall|j: int| 0 <= j < rank(v, key) implies bytes_lt(
            name_of(#[trigger] v[j]),
            key,
        ) by {
            if j > 0 {
                assert(v[j] == t[j - 1]);
            }
        }
        if rank(v, key) < v.len() {
            assert(v[rank(v, key)] == t[rank(t, key)]);
        }
    }
}

/// Adding a case in its place keeps the names going up.
pub proof fn lemma_insert_sorted(v: Seq<Case>, c: Case)
    requires
        strictly_sorted(v),
    ensures
        strictly_sorted(insert_sorted(v, c)),
{
    let key = name_of(c);
    let i = rank(v, key);
    let r = insert_sorted(v, c);
    lemma_rank(v, key);
    if i < v.len() && name_of(v[i]) == key {
        assert forall|a: int, b: int| 0 <= a < b < r.len() implies bytes_lt(
            name_of(#[trigger] r[a]),
            name_of(#[trigger] r[b]),
        ) by {
            assert(name_of(r[a]) == name_of(v[a]));
            assert(name_of(r[b]) == name_of(v[b]));
        }
    } else {
        assert forall|a: int, b: int| 0 <= a < b < r.len() implies bytes_lt(
            name_of(#[trigger] r[a]),
            name_of(#[trigger] r[b]),
        ) by {
            if i < v.len() {
                lemma_lt_total(name_of(v[i]), key);
            }
            if b < i {
                assert(r[a] == v[a] && r[b] == v[b]);
            } else if b == i {
                assert(r[a] == v[a] && r[b] == c);
            } else if a < i {
                assert(r[a] == v[a] && r[b] == v[b - 1]);
            } else if a == i {
                assert(r[a] == c && r[b] == v[b - 1]);
                if b - 1 > i {
                    assert(bytes_lt(name_of(v[i]), name_of(v[b - 1])));
                    lemma_lt_transitive(key, name_of(v[i]), name_of(v[b - 1]));
                }
            } else {
                assert(r[a] == v[a - 1] && r[b] == v[b - 1]);
            }
        }
    }
}

/// The cases in the order of their names have names that go up.
pub proof fn lemma_sort_cases_sorted(cases: Seq<Case>)
    ensures
        strictly_sorted(sort_cases(cases)),
    decreases cases.len(),
{
    if cases.len() > 0 {
        lemma_sort_cases_sorted(cases.drop_last());
        lemma_insert_sorted(sort_cases(cases.drop_last()), cases.last());
    }
}

/// Where no two cases have the same name, putting them in order loses none
/// and adds none.
pub proof fn lemma_sort_cases_same(cases: Seq<Case>)
    requires
        names_distinct(cases),
    ensures
        forall|c: Case| sort_cases(cases).contains(c) <==> cases.contains(c),
    decreases cases.len(),
{
    let sorted = sort_cases(cases);
    if cases.len() == 0 {
        assert forall|c: Case| sorted.contains(c) <==> cases.contains(c) by {
            assert(!sorted.contains(c));
            assert(!cases.contains(c));
        }
    } else {
        let front = cases.drop_last();
        let last = cases.last();
        let v = sort_cases(front);
        assert(names_distinct(front)) by {
            assert forall|i: int, j: int| 0 <= i < j < front.len() implies name_of(
                #[trigger] front[i],
            ) != name_of(#[trigger] front[j]) by {
                assert(front[i] == cases[i] && front[j] == cases[j]);
            }
        }
        lemma_sort_cases_same(front);
        let i = rank(v, name_of(last));
        lemma_rank(v, name_of(last));
        if i < v.len() && name_of(v[i]) == name_of(last) {
            assert(v.contains(v[i]));
            assert(front.contains(v[i]));
            let k = choose|k: int| 0 <= k < front.len() && front[k] == v[i];
            assert(cases[k] == front[k]);
            assert(name_of(cases[k]) != name_of(cases[cases.len() - 1]));
            assert(false);
        }
        assert(sorted == v.insert(i, last));
        assert forall|c: Case| sorted.contains(c) <==> cases.contains(c) by {
            if sorted.contains(c) {
                let k = choose|k: int| 0 <= k < sorted.len() && sorted[k] == c;
                if k < i {
                    assert(v[k] == c);
                    assert(v.contains(c));
                } else if k > i {
                    assert(v[k - 1] == c);
                    assert(v.contains(c));
                }
                if v.contains(c) {
                    assert(front.contains(c));
                    let m = choose|m: int| 0 <= m < front.len() && front[m] == c;
                    assert(cases[m] == c);
                } else {
                    assert(cases[cases.len() - 1] == c);
                }
                assert(cases.contains(c));
            }
            if cases.contains(c) {
                let m = choose|m: int| 0 <= m < cases.len() && cases[m] == c;
                if m < cases.len() - 1 {
                    assert(front[m] == c);
                    assert(front.contains(c));
                    assert(v.contains(c));
                    let k = choose|k: int| 0 <= k < v.len() && v[k] == c;
                    if k < i {
                        assert(sorted[k] == c);
                    } else {
                        assert(sorted[k + 1] == c);
                    }
                } else {
                    assert(sorted[i] == c);
                }
                assert(sorted.contains(c));
            }
        }
    }
}

/// Two lists of cases whose names go up and that hold the same cases are
/// the same list.
pub proof fn lemma_sorted_unique(a: Seq<Case>, b: Seq<Case>)
    requires
        strictly_sorted(a),
        strictly_sorted(b),
        forall|c: Case| a.contains(c) <==> b.contains(c),
    ensures
        a == b,
    decreases a.len(),
{
    if a.len() == 0 {
        if b.len() > 0 {
            assert(b.contains(b[0]));
            assert(a.contains(b[0]));
        }
        assert(a =~= b);
    } else {
        assert(a.contains(a[0]));
        assert(b.contains(a[0]));
        let j = choose|j: int| 0 <= j < b.len() && b[j] == a[0];
        assert(b.contains(b[0]));
        assert(a.contains(b[0]));
        let i = choose|i: int| 0 <= i < a.len() && a[i] == b[0];
        lemma_lt_irreflexive(name_of(a[0]));
        if j > 0 {
            assert(bytes_lt(name_of(b[0]), name_of(b[j])));
            if i > 0 {
                assert(bytes_lt(name_of(a[0]), name_of(a[i])));
                lemma_lt_transitive(name_of(a[0]), name_of(b[0]), name_of(a[0]));
            }
            assert(false);
        }
        assert(a[0] == b[0]);
        let ta = a.drop_first();
        let tb = b.drop_first();
        assert(strictly_sorted(ta)) by {
            assert forall|x: int, y: int| 0 <= x < y < ta.len() implies bytes_lt(
                name_of(#[trigger] ta[x]),
                name_of(#[trigger] ta[y]),
            ) by {
                assert(ta[x] == a[x + 1] && ta[y] == a[y + 1]);
            }
        }
        assert(strictly_sorted(tb)) by {
            assert forall|x: int, y: int| 0 <= x < y < tb.len() implies bytes_lt(
                name_of(#[trigger] tb[x]),
                name_of(#[trigger] tb[y]),
            ) by {
                assert(tb[x] == b[x + 1] && tb[y] == b[y + 1]);
            }
        }
        assert forall|c: Case| ta.contains(c) <==> tb.contains(c) by {
            if ta.contains(c) {
                let m = choose|m: int| 0 <= m < ta.len() && ta[m] == c;
                assert(a[m + 1] == c);
                assert(a.contains(c));
                assert(b.contains(c));
                let k = choose|k: int| 0 <= k < b.len() && b[k] == c;
                if k == 0 {
                    assert(bytes_lt(name_of(a[0]), name_of(a[m + 1])));
                    assert(false);
                }
                assert(tb[k - 1] == c);
                assert(tb.contains(c));
            }
            if tb.contains(c) {
                let m = choose|m: int| 0 <= m < tb.len() && tb[m] == c;
                assert(b[m + 1] == c);
                assert(b.contains(c));
                assert(a.contains(c));
                let k = choose|k: int| 0 <= k < a.len() && a[k] == c;
                if k == 0 {
                    assert(bytes_lt(name_of(b[0]), name_of(b[m + 1])));
                    assert(false);
                }
                assert(ta[k - 1] == c);
                assert(ta.contains(c));
            }
        }
        lemma_sorted_unique(ta, tb);
        assert(a =~= seq![a[0]] + ta);
        assert(b =~= seq![b[0]] + tb);
    }
}

/// Two declarations of the same cases, each name once, give the same list
/// whatever the order in which they declare them.
pub proof fn lemma_order_of_declaration(a: Seq<Case>, b: Seq<Case>)
    requires
        names_distinct(a),
        names_distinct(b),
        forall|c: Case| a.contains(c) <==> b.contains(c),
    ensures
        sort_cases(a) == sort_cases(b),
{
    lemma_sort_cases_sorted(a);
    lemma_sort_cases_sorted(b);
    lemma_sort_cases_same(a);
    lemma_sort_cases_same(b);
    assert forall|c: Case| sort_cases(a).contains(c) <==> sort_cases(b).contains(c) by {
        assert(sort_cases(a).contains(c) <==> a.contains(c));
        assert(sort_cases(b).contains(c) <==> b.contains(c));
    }
    lemma_sorted_unique(sort_cases(a), sort_cases(b));
}

/// The names of the cases `v`, in their order.
pub open spec fn names_of(v: Seq<Case>) -> Seq<Seq<u8>> {
    Seq::new(v.len(), |i: int| name_of(v[i]))
}

/// Whether each case of `a` has its like in `b`: a case of the same name,
/// with an argument of the same structure.
pub open spec fn cases_within(a: Seq<Case>, b: Seq<Case>) -> bool {
    forall|i: int|
        0 <= i < a.len() ==> exists|j: int|
            0 <= j < b.len() && name_of(#[trigger] a[i]) == name_of(#[trigger] b[j])
                && same_payload(a[i].1, b[j].1)
}

/// Whether the strings of `v` go up from each to the next.
pub open spec fn increasing(v: Seq<Seq<u8>>) -> bool {
    forall|i: int, j: int| 0 <= i < j < v.len() ==> bytes_lt(#[trigger] v[i], #[trigger] v[j])
}

/// Two lists of strings that go up and hold the same strings are the same
/// list.
pub proof fn lemma_increasing_unique(a: Seq<Seq<u8>>, b: Seq<Seq<u8>>)
    requires
        increasing(a),
        increasing(b),
        forall|x: Seq<u8>| a.contains(x) <==> b.contains(x),
    ensures
        a == b,
    decreases a.len(),
{
    if a.len() == 0 {
        if b.len() > 0 {
            assert(b.contains(b[0]));
            assert(a.contains(b[0]));
        }
        assert(a =~= b);
    } else {
        assert(a.contains(a[0]));
        assert(b.contains(a[0]));
        let j = choose|j: int| 0 <= j < b.len() && b[j] == a[0];
        assert(b.contains(b[0]));
        assert(a.contains(b[0]));
        let i = choose|i: int| 0 <= i < a.len() && a[i] == b[0];
        lemma_lt_irreflexive(a[0]);
        if j > 0 {
            assert(bytes_lt(b[0], b[j]));
            if i > 0 {
                assert(bytes_lt(a[0], a[i]));
                lemma_lt_transitive(a[0], b[0], a[0]);
            }
            assert(false);
        }
        let ta = a.drop_first();
        let tb = b.drop_first();
        assert(increasing(ta)) by {
            assert forall|x: int, y: int| 0 <= x < y < ta.len() implies bytes_lt(
                #[trigger] ta[x],
                #[trigger] ta[y],
            ) by {
                assert(ta[x] == a[x + 1] && ta[y] == a[y + 1]);
            }
        }
        assert(increasing(tb)) by {
            assert forall|x: int, y: int| 0 <= x < y < tb.len() implies bytes_lt(
                #[trigger] tb[x],
                #[trigger] tb[y],
            ) by {
                assert(tb[x] == b[x + 1] && tb[y] == b[y + 1]);
            }
        }
        assert forall|c: Seq<u8>| ta.contains(c) <==> tb.contains(c) by {
            if ta.contains(c) {
                let m = choose|m: int| 0 <= m < ta.len() && ta[m] == c;
                assert(a[m + 1] == c);
                assert(a.contains(c));
                assert(b.contains(c));
                let k = choose|k: int| 0 <= k < b.len() && b[k] == c;
                if k == 0 {
                    assert(bytes_lt(a[0], a[m + 1]));
                    assert(false);
                }
                assert(tb[k - 1] == c);
                assert(tb.contains(c));
            }
            if tb.contains(c) {
                let m = choose|m: int| 0 <= m < tb.len() && tb[m] == c;
                assert(b[m + 1] == c);
                assert(b.contains(c));
                assert(a.contains(c));
                let k = choose|k: int| 0 <= k < a.len() && a[k] == c;
                if k == 0 {
                    assert(bytes_lt(b[0], b[m + 1]));
                    assert(false);
                }
                assert(ta[k - 1] == c);
                assert(ta.contains(c));
            }
        }
        lemma_increasing_unique(ta, tb);
        assert(a =~= seq![a[0]] + ta);
        assert(b =~= seq![b[0]] + tb);
    }
}

/// Lists of cases that agree name by name and argument by argument have
/// the same structure.
pub proof fn lemma_same_poly(a: Seq<Case>, b: Seq<Case>)
    requires
        a.len() == b.len(),
        forall|i: int|
            0 <= i < a.len() ==> name_of(#[trigger] a[i]) == name_of(b[i]) && same_payload(
                a[i].1,
                b[i].1,
            ),
    ensures
        same_poly(a, b),
    decreases a.len(),
{
    if a.len() > 0 {
        let fa = a.drop_last();
        let fb = b.drop_last();
        assert forall|i: int| 0 <= i < fa.len() implies name_of(#[trigger] fa[i]) == name_of(
            fb[i],
        ) && same_payload(fa[i].1, fb[i].1) by {
            assert(fa[i] == a[i] && fb[i] == b[i]);
        }
        lemma_same_poly(fa, fb);
        let last = a.len() - 1;
        assert(name_of(a[last]) == name_of(b[last]));
        vstd::utf8::encode_utf8_decode_utf8(a[last].0@);
        vstd::utf8::encode_utf8_decode_utf8(b[last].0@);
    }
}

/// Two declarations of like cases, each name once, give lists of the same
/// structure, whatever the order in which they declare them.
pub proof fn lemma_order_of_like_cases(a: Seq<Case>, b: Seq<Case>)
    requires
        names_distinct(a),
        names_distinct(b),
        cases_within(a, b),
        cases_within(b, a),
    ensures
        same_poly(sort_cases(a), sort_cases(b)),
{
    let sa = sort_cases(a);
    let sb = sort_cases(b);
    lemma_sort_cases_sorted(a);
    lemma_sort_cases_sorted(b);
    lemma_sort_cases_same(a);
    lemma_sort_cases_same(b);
    let na = names_of(sa);
    let nb = names_of(sb);
    assert(increasing(na)) by {
        assert forall|i: int, j: int| 0 <= i < j < na.len() implies bytes_lt(
            #[trigger] na[i],
            #[trigger] na[j],
        ) by {
            assert(bytes_lt(name_of(sa[i]), name_of(sa[j])));
        }
    }
    assert(increasing(nb)) by {
        assert forall|i: int, j: int| 0 <= i < j < nb.len() implies bytes_lt(
            #[trigger] nb[i],
            #[trigger] nb[j],
        ) by {
            assert(bytes_lt(name_of(sb[i]), name_of(sb[j])));
        }
    }
    assert forall|x: Seq<u8>| na.contains(x) <==> nb.contains(x) by {
        if na.contains(x) {
            let i = choose|i: int| 0 <= i < na.len() && na[i] == x;
            lemma_name_carried(a, b, sa, sb, i);
        }
        if nb.contains(x) {
            let i = choose|i: int| 0 <= i < nb.len() && nb[i] == x;
            lemma_name_carried(b, a, sb, sa, i);
        }
    }
    lemma_increasing_unique(na, nb);
    assert(sa.len() == sb.len()) by {
        assert(na.len() == nb.len());
    }
    assert forall|i: int| 0 <= i < sa.len() implies name_of(#[trigger] sa[i]) == name_of(sb[i])
        && same_payload(sa[i].1, sb[i].1) by {
        assert(na[i] == nb[i]);
        // The case at `i` came from `a`, and has its like in `b`.
        assert(sa.contains(sa[i]));
        assert(a.contains(sa[i]));
        let k = choose|k: int| 0 <= k < a.len() && a[k] == sa[i];
        let j = choose|j: int|
            0 <= j < b.len() && name_of(#[trigger] a[k]) == name_of(#[trigger] b[j])
                && same_payload(a[k].1, b[j].1);
        // The case at `i` on the other side came from `b`, under the same name.
        assert(sb.contains(sb[i]));
        assert(b.contains(sb[i]));
        let m = choose|m: int| 0 <= m < b.len() && b[m] == sb[i];
        if m < j {
            assert(name_of(b[m]) != name_of(b[j]));
        } else if j < m {
            assert(name_of(b[j]) != name_of(b[m]));
        }
    }
    lemma_same_poly(sa, sb);
}

/// The name at `i` among the cases of `a` in order is a name among those
/// of `b` in order, where each case of `a` has its like in `b`.
proof fn lemma_name_carried(a: Seq<Case>, b: Seq<Case>, sa: Seq<Case>, sb: Seq<Case>, i: int)
    requires
        0 <= i < sa.len(),
        cases_within(a, b),
        forall|c: Case| sa.contains(c) <==> a.contains(c),
        forall|c: Case| sb.contains(c) <==> b.contains(c),
    ensures
        names_of(sb).contains(name_of(sa[i])),
{
    assert(sa.contains(sa[i]));
    assert(a.contains(sa[i]));
    let k = choose|k: int| 0 <= k < a.len() && a[k] == sa[i];
    let j = choose|j: int|
        0 <= j < b.len() && name_of(#[trigger] a[k]) == name_of(#[trigger] b[j]) && same_payload(
            a[k].1,
            b[j].1,
        );
    assert(b.contains(b[j]));
    assert(sb.contains(b[j]));
    let m = choose|m: int| 0 <= m < sb.len() && sb[m] == b[j];
    assert(names_of(sb)[m] == name_of(sa[i]));
}

/// Adds the case `c` to `sorted` in its place. Where `sorted` has a case
/// of that name already, that case takes the argument of `c`.
pub fn insert_case(sorted: &mut Vec<Case>, c: Case)
    ensures
        final(sorted)@ == insert_sorted(old(sorted)@, c),
{
    let ghost key = name_of(c);
    let ghost v = sorted@;
    let mut i: usize = 0;
    assert(v.skip(0) =~= v);
    while i < sorted.len() && bytes_before(sorted[i].0.as_bytes(), c.0.as_bytes())
        invariant
            i <= sorted.len(),
            sorted@ == v,
            key == name_of(c),
            rank(v, key) == i + rank(v.skip(i as int), key),
        decreases sorted.len() - i,
    {
        assert(v.skip(i as int).drop_first() =~= v.skip(i + 1));
        i = i + 1;
    }
    assert(rank(v, key) == i) by {
        if i < v.len() {
            assert(v.skip(i as int)[0] == v[i as int]);
        }
    }
    if i < sorted.len() && bytes_same(sorted[i].0.as_bytes(), c.0.as_bytes()) {
        let kept = sorted.remove(i);
        sorted.insert(i, (kept.0, c.1));
        assert(sorted@ =~= v.update(i as int, (v[i as int].0, c.1)));
    } else {
        sorted.insert(i, c);
    }
}

/// The items of `v` from the last to the first.
pub fn reversed<T>(v: Vec<T>) -> (r: Vec<T>)
    ensures
        r@ == v@.reverse(),
{
    let ghost all = v@;
    let mut v = v;
    let mut r: Vec<T> = Vec::new();
    while v.len() > 0
        invariant
            v@.len() <= all.len(),
            v@ == all.take(v@.len() as int),
            r@ == all.reverse().take(all.len() - v@.len()),
        decreases v.len(),
    {
        let ghost before = v@;
        match v.pop() {
            Some(x) => {
                assert(x == all[before.len() - 1]);
                r.push(x);
                assert(v@ =~= all.take(v@.len() as int));
                assert(r@ =~= all.reverse().take(all.len() - v@.len()));
            },
            None => {},
        }
    }
    assert(r@ =~= all.reverse());
    r
}

/// The cases `cases` in the order of their names.
pub fn sorted_cases(cases: Vec<Case>) -> (sorted: Vec<Case>)
    ensures
        sorted@ == sort_cases(cases@),
        strictly_sorted(sorted@),
{
    proof {
        lemma_sort_cases_sorted(cases@);
    }
    let ghost all = cases@;
    let mut left = reversed(cases);
    let mut sorted: Vec<Case> = Vec::new();
    assert(all.take(0) =~= Seq::<Case>::empty());
    while left.len() > 0
        invariant
            left@.len() <= all.len(),
            left@ == all.reverse().take(left@.len() as int),
            sorted@ == sort_cases(all.take(all.len() - left@.len())),
        decreases left.len(),
    {
        let ghost done = all.len() - left@.len();
        match left.pop() {
            Some(c) => {
                assert(c == all[done]);
                assert(all.take(done + 1).drop_last() =~= all.take(done));
                insert_case(&mut sorted, c);
                assert(left@ =~= all.reverse().take(left@.len() as int));
            },
            None => {},
        }
    }
    assert(all.take(all.len() as int) =~= all);
    sorted
}

} // verus!
