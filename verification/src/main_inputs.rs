//! Matching the named inputs given to a compiled program's main function
//! against its signature.

use vstd::prelude::*;

use crate::dicts::{dict_get, dict_insert, dict_insert_field, fields_view, keys_sorted, text_lt};
use crate::error::EngineError;
use crate::natives::same_text;
use crate::value::Value;

verus! {

/// One named input of a main function, with its type `T`.
#[derive(Debug)]
pub struct MainInputSpec<T> {
    pub name: String,
    pub typ: T,
}

/// The inputs a compiled program's main function takes, in application
/// order, and the type of its result once all are applied.
#[derive(Debug)]
pub struct MainSignature<T> {
    pub inputs: Vec<MainInputSpec<T>>,
    pub result_type: T,
}

impl<T> MainSignature<T> {
    pub fn new(inputs: Vec<MainInputSpec<T>>, result_type: T) -> (s: Self)
        ensures
            s.inputs@ == inputs@,
            s.result_type == result_type,
    {
        MainSignature { inputs, result_type }
    }

    /// The inputs, in application order.
    pub fn inputs(&self) -> (r: &[MainInputSpec<T>])
        ensures
            r@ == self.inputs@,
    {
        self.inputs.as_slice()
    }

    /// The type of the result once all inputs are applied.
    pub fn result_type(&self) -> (r: &T)
        ensures
            *r == self.result_type,
    {
        &self.result_type
    }
}

/// The names of a signature's inputs.
pub open spec fn spec_names<T>(sig: Seq<MainInputSpec<T>>) -> Seq<Seq<char>> {
    sig.map_values(|s: MainInputSpec<T>| s.name@)
}

/// The names of given inputs.
pub open spec fn given_names(inputs: Seq<(String, Value)>) -> Seq<Seq<char>> {
    inputs.map_values(|f: (String, Value)| f.0@)
}

/// The names in `a` that `b` lacks.
pub open spec fn names_missing(a: Seq<Seq<char>>, b: Seq<Seq<char>>) -> Set<Seq<char>> {
    Set::new(|n: Seq<char>| a.contains(n) && !b.contains(n))
}

/// `r` lists the names of `s`, each once, in name order.
pub open spec fn lists_in_order(r: Seq<Seq<char>>, s: Set<Seq<char>>) -> bool {
    &&& forall|i: int, j: int| 0 <= i < j < r.len() ==> text_lt(#[trigger] r[i], #[trigger] r[j])
    &&& forall|n: Seq<char>| r.contains(n) <==> s.contains(n)
}

/// No name occurs twice in `s`.
pub open spec fn names_distinct(s: Seq<Seq<char>>) -> bool {
    forall|i: int, j: int| 0 <= i < j < s.len() ==> s[i] != s[j]
}

/// The names of a dictionary of unit fields.
pub open spec fn unit_keys(d: Seq<(Seq<char>, ())>) -> Seq<Seq<char>> {
    d.map_values(|f: (Seq<char>, ())| f.0)
}

/// Whether some name of `names` equals `n`.
fn has_name(names: &Vec<String>, n: &str) -> (b: bool)
    ensures
        b == names@.map_values(|s: String| s@).contains(n@),
{
    let ghost view = names@.map_values(|s: String| s@);
    let mut i: usize = 0;
    while i < names.len()
        invariant
            0 <= i <= names@.len(),
            view == names@.map_values(|s: String| s@),
            forall|j: int| 0 <= j < i ==> view[j] != n@,
        decreases names@.len() - i,
    {
        if same_text(names[i].as_str(), n) {
            proof {
                assert(view[i as int] == n@);
            }
            return true;
        }
        i += 1;
    }
    false
}

/// The names of `d`, in order.
fn unit_key_names(d: Vec<(String, ())>) -> (r: Vec<String>)
    ensures
        r@.map_values(|s: String| s@) == unit_keys(fields_view(d@)),
{
    let ghost want = unit_keys(fields_view(d@));
    let n = d.len();
    let mut pending = d;
    let mut back: Vec<String> = Vec::new();
    while pending.len() > 0
        invariant
            pending@.len() + back@.len() == n,
            want.len() == n,
            forall|k: int| 0 <= k < pending@.len() ==> (#[trigger] pending@[k]).0@ == want[k],
            forall|k: int| 0 <= k < back@.len() ==> (#[trigger] back@[k])@ == want[n - 1 - k],
        decreases pending@.len(),
    {
        match pending.pop() {
            Some((name, _)) => back.push(name),
            None => {},
        }
    }
    let mut out: Vec<String> = Vec::new();
    while back.len() > 0
        invariant
            out@.len() + back@.len() == n,
            want.len() == n,
            forall|k: int| 0 <= k < back@.len() ==> (#[trigger] back@[k])@ == want[n - 1 - k],
            forall|k: int| 0 <= k < out@.len() ==> (#[trigger] out@[k])@ == want[k],
        decreases back@.len(),
    {
        match back.pop() {
            Some(name) => out.push(name),
            None => {},
        }
    }
    proof {
        assert(out@.map_values(|s: String| s@) =~= want);
    }
    out
}

/// A dictionary of unit fields made by inserting names into one that lists
/// a set in order lists that set with the name added.
proof fn lemma_unit_insert(d: Seq<(Seq<char>, ())>, s: Set<Seq<char>>, k: Seq<char>)
    requires
        keys_sorted(d),
        lists_in_order(unit_keys(d), s),
    ensures
        keys_sorted(dict_insert(d, k, ())),
        lists_in_order(unit_keys(dict_insert(d, k, ())), s.insert(k)),
{
    crate::dicts::lemma_insert_sorted(d, k, ());
    let r = dict_insert(d, k, ());
    assert forall|i: int, j: int| 0 <= i < j < unit_keys(r).len() implies text_lt(#[trigger] unit_keys(r)[i], #[trigger] unit_keys(r)[j]) by {
        assert(unit_keys(r)[i] == r[i].0 && unit_keys(r)[j] == r[j].0);
    }
    assert forall|n: Seq<char>| unit_keys(r).contains(n) <==> s.insert(k).contains(n) by {
        if unit_keys(r).contains(n) {
            let i = choose|i: int| 0 <= i < unit_keys(r).len() && #[trigger] unit_keys(r)[i] == n;
            crate::dicts::lemma_insert_entries(d, k, (), i);
            if r[i] != (k, ()) {
                let j = choose|j: int| 0 <= j < d.len() && #[trigger] d[j] == r[i];
                assert(unit_keys(d)[j] == n);
            }
        }
        if s.insert(k).contains(n) {
            if n == k {
                lemma_get_present(d, k);
            } else {
                assert(unit_keys(d).contains(n));
                let j = choose|j: int| 0 <= j < unit_keys(d).len() && #[trigger] unit_keys(d)[j] == n;
                lemma_key_kept(d, k, n, j);
            }
        }
    }
}

/// After setting `k`, the dictionary has a field named `k`.
proof fn lemma_get_present(d: Seq<(Seq<char>, ())>, k: Seq<char>)
    ensures
        unit_keys(dict_insert(d, k, ())).contains(k),
    decreases d.len(),
{
    let r = dict_insert(d, k, ());
    if d.len() == 0 || d[0].0 == k || text_lt(k, d[0].0) {
        assert(unit_keys(r)[0] == k);
    } else {
        lemma_get_present(d.drop_first(), k);
        let rest = dict_insert(d.drop_first(), k, ());
        let i = choose|i: int| 0 <= i < unit_keys(rest).len() && #[trigger] unit_keys(rest)[i] == k;
        assert(unit_keys(r)[i + 1] == k);
    }
}

/// Setting `k` keeps every other name of the dictionary.
proof fn lemma_key_kept(d: Seq<(Seq<char>, ())>, k: Seq<char>, n: Seq<char>, j: int)
    requires
        0 <= j < d.len(),
        d[j].0 == n,
    ensures
        unit_keys(dict_insert(d, k, ())).contains(n),
    decreases d.len(),
{
    let r = dict_insert(d, k, ());
    if d[0].0 == k {
        if j == 0 {
            assert(unit_keys(r)[0] == k);
            assert(n == k);
        } else {
            assert(unit_keys(r)[j] == n);
        }
    } else if text_lt(k, d[0].0) {
        assert(unit_keys(r)[j + 1] == n);
    } else if j == 0 {
        assert(unit_keys(r)[0] == n);
    } else {
        lemma_key_kept(d.drop_first(), k, n, j - 1);
        let rest = dict_insert(d.drop_first(), k, ());
        let i = choose|i: int| 0 <= i < unit_keys(rest).len() && #[trigger] unit_keys(rest)[i] == n;
        assert(unit_keys(r)[i + 1] == n);
    }
}

/// The names of `a` that `b` lacks, in name order, each once.
fn missing_names(a: &Vec<String>, b: &Vec<String>) -> (r: Vec<String>)
    ensures
        lists_in_order(r@.map_values(|s: String| s@), names_missing(a@.map_values(|s: String| s@), b@.map_values(|s: String| s@))),
{
    let ghost av = a@.map_values(|s: String| s@);
    let ghost bv = b@.map_values(|s: String| s@);
    let mut d: Vec<(String, ())> = Vec::new();
    let ghost mut s: Set<Seq<char>> = Set::empty();
    proof {
        assert(unit_keys(fields_view(d@)) =~= Seq::<Seq<char>>::empty());
    }
    let mut i: usize = 0;
    while i < a.len()
        invariant
            0 <= i <= a@.len(),
            av == a@.map_values(|s: String| s@),
            bv == b@.map_values(|s: String| s@),
            keys_sorted(fields_view(d@)),
            lists_in_order(unit_keys(fields_view(d@)), s),
            s == Set::new(|n: Seq<char>| av.take(i as int).contains(n) && !bv.contains(n)),
        decreases a@.len() - i,
    {
        let ghost before = fields_view(d@);
        if !has_name(b, a[i].as_str()) {
            dict_insert_field(&mut d, a[i].clone(), ());
            proof {
                lemma_unit_insert(before, s, av[i as int]);
                s = s.insert(av[i as int]);
            }
        }
        proof {
            let t0 = av.take(i as int);
            let t1 = av.take(i + 1);
            assert(t1 =~= t0.push(av[i as int]));
            let s2 = Set::new(|n: Seq<char>| t1.contains(n) && !bv.contains(n));
            assert forall|n: Seq<char>| s.contains(n) <==> s2.contains(n) by {
                if t1.contains(n) && n != av[i as int] {
                    let j = choose|j: int| 0 <= j < t1.len() && #[trigger] t1[j] == n;
                    assert(t0[j] == n);
                }
                if t0.contains(n) {
                    let j = choose|j: int| 0 <= j < t0.len() && #[trigger] t0[j] == n;
                    assert(t1[j] == n);
                }
                assert(t1[i as int] == av[i as int]);
            }
            assert(s =~= s2);
        }
        i += 1;
    }
    proof {
        assert(av.take(a@.len() as int) =~= av);
        assert(s =~= names_missing(av, bv));
    }
    unit_key_names(d)
}

/// The values of the given inputs `inputs` (a map from names, each once),
/// in the order of the signature's inputs, each with its type; an error names
/// the inputs missing and the ones not expected.
pub fn main_input_args<T: Copy>(signature: &MainSignature<T>, inputs: Vec<(String, Value)>) -> (res: Result<Vec<(Value, T)>, EngineError>)
    requires
        keys_sorted(fields_view(inputs@)),
    ensures
        ({
            let expected = spec_names(signature.inputs@);
            let actual = given_names(inputs@);
            if names_missing(expected, actual) != Set::<Seq<char>>::empty() || names_missing(actual, expected) != Set::<Seq<char>>::empty() {
                res matches Err(EngineError::MainInputMismatch { missing, extra })
                    && lists_in_order(missing@.map_values(|s: String| s@), names_missing(expected, actual))
                    && lists_in_order(extra@.map_values(|s: String| s@), names_missing(actual, expected))
            } else if !names_distinct(expected) {
                res matches Err(e) && e == EngineError::Internal("validated input map was incomplete")
            } else {
                res matches Ok(out) && out@.len() == signature.inputs@.len() && forall|k: int| 0 <= k < signature.inputs@.len() ==>
                    Some((#[trigger] out@[k]).0) == dict_get(fields_view(inputs@), signature.inputs@[k].name@) && out@[k].1 == signature.inputs@[k].typ
            }
        }),
{
    let sig = &signature.inputs;
    let ghost expected = spec_names(sig@);
    let ghost actual = given_names(inputs@);
    let mut sig_names: Vec<String> = Vec::new();
    let mut i: usize = 0;
    while i < sig.len()
        invariant
            0 <= i <= sig@.len(),
            expected == spec_names(sig@),
            sig_names@.len() == i,
            forall|j: int| 0 <= j < i ==> (#[trigger] sig_names@[j])@ == expected[j],
        decreases sig@.len() - i,
    {
        sig_names.push(sig[i].name.clone());
        i += 1;
    }
    proof {
        assert(sig_names@.map_values(|s: String| s@) =~= expected);
    }
    let ghost fv = fields_view(inputs@);
    let n = inputs.len();
    proof {
        assert forall|j: int| 0 <= j < n implies #[trigger] actual[j] == fv[j].0 by {
            assert(actual[j] == inputs@[j].0@);
        }
    }
    let mut pending = inputs;
    let mut back: Vec<(String, Value)> = Vec::new();
    while pending.len() > 0
        invariant
            pending@.len() + back@.len() == n,
            fv.len() == n,
            forall|k: int| 0 <= k < pending@.len() ==> (#[trigger] pending@[k]).0@ == fv[k].0 && pending@[k].1 == fv[k].1,
            forall|k: int| 0 <= k < back@.len() ==> (#[trigger] back@[k]).0@ == fv[n - 1 - k].0 && back@[k].1 == fv[n - 1 - k].1,
        decreases pending@.len(),
    {
        match pending.pop() {
            Some(f) => back.push(f),
            None => {},
        }
    }
    let mut names: Vec<String> = Vec::new();
    let mut slots: Vec<Option<Value>> = Vec::new();
    while back.len() > 0
        invariant
            names@.len() + back@.len() == n,
            slots@.len() == names@.len(),
            fv.len() == n,
            forall|k: int| 0 <= k < back@.len() ==> (#[trigger] back@[k]).0@ == fv[n - 1 - k].0 && back@[k].1 == fv[n - 1 - k].1,
            forall|k: int| 0 <= k < names@.len() ==> (#[trigger] names@[k])@ == fv[k].0 && slots@[k] == Some(fv[k].1),
        decreases back@.len(),
    {
        match back.pop() {
            Some((name, value)) => {
                names.push(name);
                slots.push(Some(value));
            },
            None => {},
        }
    }
    proof {
        assert(names@.map_values(|s: String| s@) =~= actual);
    }
    let missing = missing_names(&sig_names, &names);
    let extra = missing_names(&names, &sig_names);
    if missing.len() > 0 || extra.len() > 0 {
        proof {
            if missing.len() > 0 {
                assert(missing@.map_values(|s: String| s@)[0] == missing@[0]@);
                assert(names_missing(expected, actual).contains(missing@[0]@));
            } else {
                assert(extra@.map_values(|s: String| s@)[0] == extra@[0]@);
                assert(names_missing(actual, expected).contains(extra@[0]@));
            }
        }
        return Err(EngineError::MainInputMismatch { missing, extra });
    }
    proof {
        assert(names_missing(expected, actual) =~= Set::<Seq<char>>::empty()) by {
            assert forall|x: Seq<char>| !names_missing(expected, actual).contains(x) by {
                assert(!missing@.map_values(|s: String| s@).contains(x));
            }
        }
        assert(names_missing(actual, expected) =~= Set::<Seq<char>>::empty()) by {
            assert forall|x: Seq<char>| !names_missing(actual, expected).contains(x) by {
                assert(!extra@.map_values(|s: String| s@).contains(x));
            }
        }
    }
    proof {
        assert(expected.take(0) =~= Seq::<Seq<char>>::empty());
        assert(keys_sorted(fv));
        assert forall|j: int| 0 <= j < n implies #[trigger] slots@[j] == Some(fv[j].1) by {
            assert(names@[j]@ == fv[j].0);
        }
    }
    let mut out: Vec<(Value, T)> = Vec::new();
    let mut k: usize = 0;
    while k < sig.len()
        invariant
            0 <= k <= sig@.len(),
            names@.len() == n && slots@.len() == n,
            fv.len() == n && actual.len() == n,
            keys_sorted(fv),
            expected == spec_names(sig@),
            sig@ == signature.inputs@,
            names_missing(expected, actual) == Set::<Seq<char>>::empty(),
            names_missing(actual, expected) == Set::<Seq<char>>::empty(),
            actual == given_names(inputs@),
            forall|j: int| 0 <= j < n ==> #[trigger] actual[j] == fv[j].0,
            forall|j: int| 0 <= j < n ==> (#[trigger] names@[j])@ == fv[j].0,
            names_distinct(expected.take(k as int)),
            forall|j: int| 0 <= j < n ==> (slots@[j] is None <==> expected.take(k as int).contains(#[trigger] fv[j].0))
                && (slots@[j] is Some ==> slots@[j] == Some(fv[j].1)),
            out@.len() == k,
            forall|j: int| 0 <= j < k ==> Some((#[trigger] out@[j]).0) == dict_get(fv, sig@[j].name@) && out@[j].1 == sig@[j].typ,
        decreases sig@.len() - k,
    {
        let name = sig[k].name.as_str();
        let mut j: usize = 0;
        while j < names.len() && !same_text(names[j].as_str(), name)
            invariant
                0 <= j <= names@.len(),
                forall|m: int| 0 <= m < j ==> (#[trigger] names@[m])@ != name@,
            decreases names@.len() - j,
        {
            j += 1;
        }
        proof {
            assert(expected[k as int] == name@);
            assert(expected.contains(name@));
            if j >= names.len() {
                assert(!actual.contains(name@)) by {
                    if actual.contains(name@) {
                        let m = choose|m: int| 0 <= m < actual.len() && #[trigger] actual[m] == name@;
                        assert(names@[m]@ == name@);
                    }
                }
                assert(names_missing(expected, actual).contains(name@));
            }
        }
        if j >= names.len() {
            return Err(EngineError::Internal("validated input map was incomplete"));
        }
        let ghost before = slots@;
        let taken = slots.remove(j);
        slots.insert(j, None);
        proof {
            assert(slots@ =~= before.update(j as int, None));
            assert(names@[j as int]@ == name@);
        }
        let value = match taken {
            Some(v) => v,
            None => {
                proof {
                    assert(expected.take(k as int).contains(fv[j as int].0));
                    let m = choose|m: int| 0 <= m < k && #[trigger] expected.take(k as int)[m] == fv[j as int].0;
                    assert(expected[m] == expected[k as int]);
                    assert(!names_distinct(expected));
                }
                return Err(EngineError::Internal("validated input map was incomplete"));
            },
        };
        proof {
            assert(fv[j as int].0 == name@);
            lemma_dict_get_at(fv, j as int);
            assert(!expected.take(k as int).contains(name@));
            assert(names_distinct(expected.take(k + 1))) by {
                let e0 = expected.take(k as int);
                let e1 = expected.take(k + 1);
                assert forall|a: int, b: int| 0 <= a < b < e1.len() implies #[trigger] e1[a] != #[trigger] e1[b] by {
                    assert(e0[a] == e1[a]);
                    if b < k {
                        assert(e0[b] == e1[b]);
                    } else {
                        assert(e1[b] == name@);
                        assert(e0.contains(e1[a]));
                    }
                }
            }
            let e0 = expected.take(k as int);
            let e1 = expected.take(k + 1);
            assert(e1 =~= e0.push(name@));
            assert forall|m: int| 0 <= m < n implies (slots@[m] is None <==> e1.contains(#[trigger] fv[m].0))
                && (slots@[m] is Some ==> slots@[m] == Some(fv[m].1)) by {
                assert(slots@[m] == if m == j { None } else { before[m] });
                if m == j {
                    assert(e1[k as int] == name@);
                } else {
                    assert(fv[m].0 != name@) by {
                        if fv[m].0 == name@ {
                            if m < j {
                                assert(text_lt(fv[m].0, fv[j as int].0));
                            } else {
                                assert(text_lt(fv[j as int].0, fv[m].0));
                            }
                            crate::dicts::lemma_text_lt_irreflexive(name@);
                        }
                    }
                    if e0.contains(fv[m].0) {
                        let w = choose|w: int| 0 <= w < e0.len() && #[trigger] e0[w] == fv[m].0;
                        assert(e1[w] == fv[m].0);
                    }
                    if e1.contains(fv[m].0) {
                        let w = choose|w: int| 0 <= w < e1.len() && #[trigger] e1[w] == fv[m].0;
                        assert(w < k);
                        assert(e0[w] == fv[m].0);
                    }
                }
            }
        }
        out.push((value, sig[k].typ));
        k += 1;
    }
    proof {
        assert(expected.take(sig@.len() as int) =~= expected);
    }
    Ok(out)
}

/// In a dictionary with names in order, the field at `j` is the one its
/// name finds.
proof fn lemma_dict_get_at<V>(d: Seq<(Seq<char>, V)>, j: int)
    requires
        keys_sorted(d),
        0 <= j < d.len(),
    ensures
        dict_get(d, d[j].0) == Some(d[j].1),
    decreases j,
{
    if j > 0 {
        assert(text_lt(d[0].0, d[j].0));
        crate::dicts::lemma_text_lt_irreflexive(d[j].0);
        assert(d[0].0 != d[j].0);
        assert(keys_sorted(d.drop_first())) by {
            assert forall|a: int, b: int| 0 <= a < b < d.drop_first().len() implies text_lt(#[trigger] d.drop_first()[a].0, #[trigger] d.drop_first()[b].0) by {
                assert(d.drop_first()[a] == d[a + 1] && d.drop_first()[b] == d[b + 1]);
            }
        }
        lemma_dict_get_at(d.drop_first(), j - 1);
        assert(d.drop_first()[j - 1] == d[j]);
    }
}

} // verus!
