//! Dictionaries as the runtime keeps them: fields in the order of their
//! names, each name once, as a `BTreeMap<String, _>` keeps them; and the
//! order of names that this rests on.

use vstd::prelude::*;

use crate::text::chars_of;

verus! {

/// `a` comes before `b` in the order of `String`: code point by code point,
/// a proper prefix first.
pub open spec fn text_lt(a: Seq<char>, b: Seq<char>) -> bool
    decreases a.len(),
{
    if a.len() == 0 {
        b.len() > 0
    } else if b.len() == 0 {
        false
    } else if a[0] != b[0] {
        a[0] < b[0]
    } else {
        text_lt(a.drop_first(), b.drop_first())
    }
}

/// No name comes before itself.
pub proof fn lemma_text_lt_irreflexive(a: Seq<char>)
    ensures
        !text_lt(a, a),
    decreases a.len(),
{
    if a.len() > 0 {
        lemma_text_lt_irreflexive(a.drop_first());
    }
}

/// Of two names, at most one comes first.
pub proof fn lemma_text_lt_asymmetric(a: Seq<char>, b: Seq<char>)
    requires
        text_lt(a, b),
    ensures
        !text_lt(b, a),
    decreases a.len(),
{
    if a.len() > 0 && b.len() > 0 && a[0] == b[0] {
        lemma_text_lt_asymmetric(a.drop_first(), b.drop_first());
    }
}

/// The order of names is transitive.
pub proof fn lemma_text_lt_transitive(a: Seq<char>, b: Seq<char>, c: Seq<char>)
    requires
        text_lt(a, b),
        text_lt(b, c),
    ensures
        text_lt(a, c),
    decreases a.len(),
{
    if a.len() > 0 && a[0] == b[0] && b[0] == c[0] {
        lemma_text_lt_transitive(a.drop_first(), b.drop_first(), c.drop_first());
    }
}

/// Of two different names, one comes first.
pub proof fn lemma_text_lt_total(a: Seq<char>, b: Seq<char>)
    requires
        a != b,
    ensures
        text_lt(a, b) || text_lt(b, a),
    decreases a.len(),
{
    if a.len() == 0 && b.len() == 0 {
        assert(a =~= b);
    }
    if a.len() > 0 && b.len() > 0 && a[0] == b[0] {
        if a.drop_first() == b.drop_first() {
            assert(a =~= seq![a[0]] + a.drop_first());
            assert(b =~= seq![b[0]] + b.drop_first());
        }
        lemma_text_lt_total(a.drop_first(), b.drop_first());
    }
}

proof fn lemma_text_lt_skip(a: Seq<char>, b: Seq<char>, i: int)
    requires
        0 <= i <= a.len(),
        i <= b.len(),
        a.take(i) == b.take(i),
    ensures
        text_lt(a, b) == text_lt(a.skip(i), b.skip(i)),
    decreases i,
{
    if i > 0 {
        assert(a[0] == a.take(i)[0]);
        assert(b[0] == b.take(i)[0]);
        assert(a.drop_first().take(i - 1) =~= a.take(i).drop_first());
        assert(b.drop_first().take(i - 1) =~= b.take(i).drop_first());
        lemma_text_lt_skip(a.drop_first(), b.drop_first(), i - 1);
        assert(a.drop_first().skip(i - 1) =~= a.skip(i));
        assert(b.drop_first().skip(i - 1) =~= b.skip(i));
    } else {
        assert(a.skip(0) =~= a);
        assert(b.skip(0) =~= b);
    }
}

/// Whether `a` comes before `b` in the order of `String`.
pub fn text_less(a: &str, b: &str) -> (r: bool)
    ensures
        r == text_lt(a@, b@),
{
    let x = chars_of(a);
    let y = chars_of(b);
    let mut i: usize = 0;
    while i < x.len() && i < y.len() && x[i] == y[i]
        invariant
            0 <= i <= x@.len(),
            i <= y@.len(),
            x@ == a@,
            y@ == b@,
            x@.take(i as int) == y@.take(i as int),
        decreases x@.len() - i,
    {
        proof {
            assert(x@.take(i + 1) =~= x@.take(i as int).push(x@[i as int]));
            assert(y@.take(i + 1) =~= y@.take(i as int).push(y@[i as int]));
        }
        i += 1;
    }
    proof {
        lemma_text_lt_skip(x@, y@, i as int);
        if i < x@.len() && i < y@.len() {
            assert(x@.skip(i as int)[0] == x@[i as int]);
            assert(y@.skip(i as int)[0] == y@[i as int]);
        }
    }
    if i == x.len() {
        i < y.len()
    } else if i == y.len() {
        false
    } else {
        x[i] < y[i]
    }
}

/// The names of `d` strictly increase.
pub open spec fn keys_sorted<T>(d: Seq<(Seq<char>, T)>) -> bool {
    forall|i: int, j: int| 0 <= i < j < d.len() ==> text_lt(#[trigger] d[i].0, #[trigger] d[j].0)
}

/// `d` with the field `k` set to `v`: its value replaced where `d` has the
/// name, else the field added in name order.
pub open spec fn dict_insert<T>(d: Seq<(Seq<char>, T)>, k: Seq<char>, v: T) -> Seq<(Seq<char>, T)>
    decreases d.len(),
{
    if d.len() == 0 {
        seq![(k, v)]
    } else if d[0].0 == k {
        d.update(0, (k, v))
    } else if text_lt(k, d[0].0) {
        seq![(k, v)] + d
    } else {
        seq![d[0]] + dict_insert(d.drop_first(), k, v)
    }
}

/// The dictionary that the fields `pairs` make when set one after another,
/// as `BTreeMap::from_iter` makes it: a later field of the same name wins.
pub open spec fn dict_of<T>(pairs: Seq<(Seq<char>, T)>) -> Seq<(Seq<char>, T)>
    decreases pairs.len(),
{
    if pairs.len() == 0 {
        Seq::empty()
    } else {
        dict_insert(dict_of(pairs.drop_last()), pairs.last().0, pairs.last().1)
    }
}

/// The value of the field named `k` in `d`, if it has one.
pub open spec fn dict_get<T>(d: Seq<(Seq<char>, T)>, k: Seq<char>) -> Option<T>
    decreases d.len(),
{
    if d.len() == 0 {
        None
    } else if d[0].0 == k {
        Some(d[0].1)
    } else {
        dict_get(d.drop_first(), k)
    }
}

/// The value that the last of `pairs` named `k` carries, if any does.
pub open spec fn last_value<T>(pairs: Seq<(Seq<char>, T)>, k: Seq<char>) -> Option<T>
    decreases pairs.len(),
{
    if pairs.len() == 0 {
        None
    } else if pairs.last().0 == k {
        Some(pairs.last().1)
    } else {
        last_value(pairs.drop_last(), k)
    }
}

/// The names of a vector of fields.
pub open spec fn fields_view<T>(v: Seq<(String, T)>) -> Seq<(Seq<char>, T)> {
    v.map_values(|p: (String, T)| (p.0@, p.1))
}

proof fn lemma_insert_scan<T>(d: Seq<(Seq<char>, T)>, k: Seq<char>, v: T, i: int)
    requires
        0 <= i <= d.len(),
        forall|j: int| 0 <= j < i ==> text_lt(#[trigger] d[j].0, k),
    ensures
        dict_insert(d, k, v) == d.take(i) + dict_insert(d.skip(i), k, v),
    decreases i,
{
    if i == 0 {
        assert(d.skip(0) =~= d);
        assert(d.take(0) + dict_insert(d, k, v) =~= dict_insert(d, k, v));
    } else {
        lemma_text_lt_irreflexive(k);
        lemma_text_lt_asymmetric(d[0].0, k);
        assert(d[0].0 != k);
        assert forall|j: int| 0 <= j < i - 1 implies text_lt(#[trigger] d.drop_first()[j].0, k) by {
            assert(d.drop_first()[j] == d[j + 1]);
        }
        lemma_insert_scan(d.drop_first(), k, v, i - 1);
        assert(d.drop_first().skip(i - 1) =~= d.skip(i));
        assert(seq![d[0]] + (d.drop_first().take(i - 1) + dict_insert(d.skip(i), k, v)) =~= d.take(i) + dict_insert(d.skip(i), k, v));
    }
}

/// Sets the field `k` to `v` in the dictionary `d`, returning whether a field
/// of that name was there (and was replaced).
pub fn dict_insert_field<T>(d: &mut Vec<(String, T)>, k: String, v: T) -> (replaced: bool)
    ensures
        fields_view(final(d)@) == dict_insert(fields_view(old(d)@), k@, v),
        replaced == (final(d)@.len() == old(d)@.len()),
{
    let ghost dv = fields_view(d@);
    let mut i: usize = 0;
    while i < d.len() && text_less(d[i].0.as_str(), k.as_str())
        invariant
            0 <= i <= d@.len(),
            dv == fields_view(d@),
            forall|j: int| 0 <= j < i ==> text_lt(#[trigger] dv[j].0, k@),
        decreases d@.len() - i,
    {
        proof {
            assert(dv[i as int].0 == d@[i as int].0@);
        }
        i += 1;
    }
    proof {
        lemma_insert_scan(dv, k@, v, i as int);
    }
    if i < d.len() && crate::natives::same_text(d[i].0.as_str(), k.as_str()) {
        proof {
            let r = dv.skip(i as int);
            assert(r[0] == dv[i as int]);
            assert(r[0].0 == k@);
            assert(dict_insert(r, k@, v) == r.update(0, (k@, v)));
        }
        d.set(i, (k, v));
        proof {
            assert(fields_view(d@) =~= dv.take(i as int) + dv.skip(i as int).update(0, (k@, v)));
        }
        true
    } else {
        let ghost kv = k@;
        proof {
            let r = dv.skip(i as int);
            if i < dv.len() {
                assert(r[0] == dv[i as int]);
                assert(!text_lt(dv[i as int].0, kv));
                assert(dv[i as int].0 != kv);
                lemma_text_lt_total(dv[i as int].0, kv);
                assert(dict_insert(r, kv, v) == seq![(kv, v)] + r);
            } else {
                assert(r.len() == 0);
            }
        }
        d.insert(i, (k, v));
        proof {
            assert(fields_view(d@) =~= dv.take(i as int) + (seq![(kv, v)] + dv.skip(i as int)));
        }
        false
    }
}


/// Every name of `dict_insert(d, k, v)` is `k` or a name of `d`.
proof fn lemma_insert_names<T>(d: Seq<(Seq<char>, T)>, k: Seq<char>, v: T, i: int)
    requires
        0 <= i < dict_insert(d, k, v).len(),
    ensures
        dict_insert(d, k, v)[i].0 == k || exists|j: int| 0 <= j < d.len() && (#[trigger] d[j]).0 == dict_insert(d, k, v)[i].0,
    decreases d.len(),
{
    let r = dict_insert(d, k, v);
    if d.len() == 0 {
    } else if d[0].0 == k {
        if i > 0 {
            assert(r[i] == d[i]);
        }
    } else if text_lt(k, d[0].0) {
        if i > 0 {
            assert(r[i] == d[i - 1]);
        }
    } else {
        if i == 0 {
            assert(r[0] == d[0]);
        } else {
            lemma_insert_names(d.drop_first(), k, v, i - 1);
            assert(r[i] == dict_insert(d.drop_first(), k, v)[i - 1]);
            if r[i].0 != k {
                let j = choose|j: int| 0 <= j < d.drop_first().len() && (#[trigger] d.drop_first()[j]).0 == r[i].0;
                assert(d[j + 1] == d.drop_first()[j]);
            }
        }
    }
}

/// Setting a field keeps the names in order.
pub proof fn lemma_insert_sorted<T>(d: Seq<(Seq<char>, T)>, k: Seq<char>, v: T)
    requires
        keys_sorted(d),
    ensures
        keys_sorted(dict_insert(d, k, v)),
    decreases d.len(),
{
    let r = dict_insert(d, k, v);
    if d.len() == 0 {
    } else if d[0].0 == k {
        assert forall|i: int, j: int| 0 <= i < j < r.len() implies text_lt(#[trigger] r[i].0, #[trigger] r[j].0) by {
            assert(d[i].0 == r[i].0);
            assert(d[j].0 == r[j].0);
        }
    } else if text_lt(k, d[0].0) {
        assert forall|i: int, j: int| 0 <= i < j < r.len() implies text_lt(#[trigger] r[i].0, #[trigger] r[j].0) by {
            if i == 0 {
                if j > 1 {
                    lemma_text_lt_transitive(k, d[0].0, d[j - 1].0);
                }
            } else {
                assert(r[i] == d[i - 1] && r[j] == d[j - 1]);
            }
        }
    } else {
        let rest = d.drop_first();
        assert(keys_sorted(rest)) by {
            assert forall|i: int, j: int| 0 <= i < j < rest.len() implies text_lt(#[trigger] rest[i].0, #[trigger] rest[j].0) by {
                assert(rest[i] == d[i + 1] && rest[j] == d[j + 1]);
            }
        }
        lemma_insert_sorted(rest, k, v);
        lemma_text_lt_total(d[0].0, k);
        let ins = dict_insert(rest, k, v);
        assert forall|i: int, j: int| 0 <= i < j < r.len() implies text_lt(#[trigger] r[i].0, #[trigger] r[j].0) by {
            if i == 0 {
                assert(r[j] == ins[j - 1]);
                lemma_insert_names(rest, k, v, j - 1);
                if ins[j - 1].0 != k {
                    let m = choose|m: int| 0 <= m < rest.len() && (#[trigger] rest[m]).0 == ins[j - 1].0;
                    assert(rest[m] == d[m + 1]);
                }
            } else {
                assert(r[i] == ins[i - 1] && r[j] == ins[j - 1]);
            }
        }
    }
}

/// The field named `k2` after setting `k` to `v`: `v` for `k`, as before
/// for any other name.
pub proof fn lemma_get_insert<T>(d: Seq<(Seq<char>, T)>, k: Seq<char>, v: T, k2: Seq<char>)
    ensures
        dict_get(dict_insert(d, k, v), k2) == if k2 == k { Some(v) } else { dict_get(d, k2) },
    decreases d.len(),
{
    let r = dict_insert(d, k, v);
    if d.len() == 0 {
        assert(r[0] == (k, v));
        assert(r.drop_first() =~= Seq::<(Seq<char>, T)>::empty());
        assert(dict_get(r.drop_first(), k2) is None);
    } else if d[0].0 == k {
        assert(r[0] == (k, v));
        assert(r.drop_first() =~= d.drop_first());
    } else if text_lt(k, d[0].0) {
        assert(r[0] == (k, v));
        assert(r.drop_first() =~= d);
    } else {
        assert(r[0] == d[0]);
        assert(r.drop_first() =~= dict_insert(d.drop_first(), k, v));
        lemma_get_insert(d.drop_first(), k, v, k2);
    }
}

/// A dictionary made from fields keeps its names in strictly increasing
/// order, so that each name occurs once.
pub proof fn law_dict_of_sorted<T>(pairs: Seq<(Seq<char>, T)>)
    ensures
        keys_sorted(dict_of(pairs)),
    decreases pairs.len(),
{
    if pairs.len() > 0 {
        law_dict_of_sorted(pairs.drop_last());
        lemma_insert_sorted(dict_of(pairs.drop_last()), pairs.last().0, pairs.last().1);
    }
}

/// In a dictionary made from fields, a name holds the value of the last
/// field of that name, and a name that no field has is absent.
pub proof fn law_dict_of_lookup<T>(pairs: Seq<(Seq<char>, T)>, k: Seq<char>)
    ensures
        dict_get(dict_of(pairs), k) == last_value(pairs, k),
    decreases pairs.len(),
{
    if pairs.len() > 0 {
        law_dict_of_lookup(pairs.drop_last(), k);
        lemma_get_insert(dict_of(pairs.drop_last()), pairs.last().0, pairs.last().1, k);
    }
}


/// Every field of `dict_insert(d, k, v)` is `(k, v)` or a field of `d`.
pub proof fn lemma_insert_entries<T>(d: Seq<(Seq<char>, T)>, k: Seq<char>, v: T, i: int)
    requires
        0 <= i < dict_insert(d, k, v).len(),
    ensures
        dict_insert(d, k, v)[i] == (k, v) || exists|j: int| 0 <= j < d.len() && #[trigger] d[j] == dict_insert(d, k, v)[i],
    decreases d.len(),
{
    let r = dict_insert(d, k, v);
    if d.len() == 0 {
    } else if d[0].0 == k {
        if i > 0 {
            assert(r[i] == d[i]);
        }
    } else if text_lt(k, d[0].0) {
        if i > 0 {
            assert(r[i] == d[i - 1]);
        }
    } else {
        if i == 0 {
            assert(r[0] == d[0]);
        } else {
            lemma_insert_entries(d.drop_first(), k, v, i - 1);
            assert(r[i] == dict_insert(d.drop_first(), k, v)[i - 1]);
            if r[i] != (k, v) {
                let j = choose|j: int| 0 <= j < d.drop_first().len() && #[trigger] d.drop_first()[j] == r[i];
                assert(d[j + 1] == d.drop_first()[j]);
            }
        }
    }
}

/// Setting `k` in a table and then viewing it is viewing it and then
/// setting `k` to the viewed value.
pub proof fn lemma_insert_view<T, U>(d: Seq<(Seq<char>, T)>, k: Seq<char>, v: T, g: spec_fn(T) -> U)
    ensures
        dict_insert(d, k, v).map_values(|p: (Seq<char>, T)| (p.0, g(p.1))) == dict_insert(
            d.map_values(|p: (Seq<char>, T)| (p.0, g(p.1))),
            k,
            g(v),
        ),
    decreases d.len(),
{
    let m = d.map_values(|p: (Seq<char>, T)| (p.0, g(p.1)));
    if d.len() == 0 {
        assert(dict_insert(d, k, v).map_values(|p: (Seq<char>, T)| (p.0, g(p.1))) =~= seq![(k, g(v))]);
    } else if d[0].0 == k {
        assert(dict_insert(d, k, v).map_values(|p: (Seq<char>, T)| (p.0, g(p.1))) =~= m.update(0, (k, g(v))));
    } else if text_lt(k, d[0].0) {
        assert(dict_insert(d, k, v).map_values(|p: (Seq<char>, T)| (p.0, g(p.1))) =~= seq![(k, g(v))] + m);
    } else {
        lemma_insert_view(d.drop_first(), k, v, g);
        assert(m.drop_first() =~= d.drop_first().map_values(|p: (Seq<char>, T)| (p.0, g(p.1))));
        assert(dict_insert(d, k, v).map_values(|p: (Seq<char>, T)| (p.0, g(p.1))) =~= seq![m[0]] + dict_insert(
            m.drop_first(),
            k,
            g(v),
        ));
    }
}

/// Looking a name up in a table with its values mapped gives the mapped
/// value.
pub proof fn lemma_get_mapped<T, U>(d: Seq<(Seq<char>, T)>, k: Seq<char>, g: spec_fn(T) -> U)
    ensures
        dict_get(d.map_values(|p: (Seq<char>, T)| (p.0, g(p.1))), k) == match dict_get(d, k) {
            Some(v) => Some(g(v)),
            None => None,
        },
    decreases d.len(),
{
    if d.len() > 0 {
        let m = d.map_values(|p: (Seq<char>, T)| (p.0, g(p.1)));
        lemma_get_mapped(d.drop_first(), k, g);
        assert(m.drop_first() =~= d.drop_first().map_values(|p: (Seq<char>, T)| (p.0, g(p.1))));
    }
}

} // verus!
