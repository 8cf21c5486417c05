//! Field projection on runtime values (`x.0` on tuples, `x.name` on
//! records), and the comparison of constructor names by their last path
//! segment.

use vstd::prelude::*;

use crate::cell::{type_name_of, CellView, InternalPtr, RootedPtr};
use crate::error::EngineError;
use crate::dicts::dict_of;
use crate::heap::{compose, evolves_except, identity_on, rooted_all, rooted_alloc, Heap};
use crate::natives::{rooted_only, same_text};
use crate::text::{ascii_digit, chars_of, is_ascii_digit};

verus! {

/// The value of the decimal digit `c`.
pub open spec fn digit_value(c: char) -> int {
    (c as u32) as int - 48
}

/// The value of the decimal numeral `s`.
pub open spec fn decimal_value(s: Seq<char>) -> int
    decreases s.len(),
{
    if s.len() == 0 {
        0
    } else {
        decimal_value(s.drop_last()) * 10 + digit_value(s.last())
    }
}

/// Every character of `s` is a decimal digit.
pub open spec fn all_digits(s: Seq<char>) -> bool {
    forall|i: int| 0 <= i < s.len() ==> is_ascii_digit(#[trigger] s[i])
}

/// `s` without a leading `+`.
pub open spec fn unsigned_digits(s: Seq<char>) -> Seq<char> {
    if s.len() > 0 && s[0] == '+' {
        s.drop_first()
    } else {
        s
    }
}

/// The `usize` that `s` spells, as the standard library reads one: an
/// optional `+` and then one or more decimal digits, with a value that
/// fits; anything else spells none.
pub open spec fn parsed_usize(s: Seq<char>) -> Option<int> {
    let d = unsigned_digits(s);
    if d.len() > 0 && all_digits(d) && decimal_value(d) <= usize::MAX {
        Some(decimal_value(d))
    } else {
        None
    }
}

/// A numeral only grows as digits are added.
proof fn lemma_decimal_prefix(s: Seq<char>, k: int)
    requires
        all_digits(s),
        0 <= k <= s.len(),
    ensures
        0 <= decimal_value(s.take(k)) <= decimal_value(s),
    decreases s.len(),
{
    if s.len() == 0 {
        assert(s.take(k) =~= s);
    } else if k == s.len() {
        assert(s.take(k) =~= s);
        lemma_decimal_prefix(s.drop_last(), k - 1);
    } else {
        assert(s.take(k) =~= s.drop_last().take(k));
        assert(all_digits(s.drop_last())) by {
            assert forall|i: int| 0 <= i < s.drop_last().len() implies is_ascii_digit(#[trigger] s.drop_last()[i]) by {
                assert(s.drop_last()[i] == s[i]);
            }
        }
        lemma_decimal_prefix(s.drop_last(), k);
        assert(is_ascii_digit(s[s.len() - 1]));
    }
}

/// Reads `s` as a `usize` the way `str::parse::<usize>` does.
pub fn parse_usize(s: &str) -> (res: Option<usize>)
    ensures
        match parsed_usize(s@) {
            Some(v) => res matches Some(x) && x == v,
            None => res is None,
        },
{
    let cs = chars_of(s);
    let start: usize = if cs.len() > 0 && cs[0] == '+' { 1 } else { 0 };
    let ghost d = unsigned_digits(s@);
    proof {
        assert(d =~= cs@.subrange(start as int, cs@.len() as int));
    }
    if start >= cs.len() {
        return None;
    }
    let mut acc: usize = 0;
    let mut i: usize = start;
    while i < cs.len()
        invariant
            start <= i <= cs@.len(),
            cs@ == s@,
            d == unsigned_digits(s@),
            d == cs@.subrange(start as int, cs@.len() as int),
            all_digits(d.take(i - start)),
            acc == decimal_value(d.take(i - start)),
        decreases cs@.len() - i,
    {
        let c = cs[i];
        proof {
            assert(d[i - start] == c);
        }
        if !ascii_digit(c) {
            proof {
                assert(!is_ascii_digit(d[i - start]));
                assert(!all_digits(d));
            }
            return None;
        }
        let dv: usize = (c as u32 - 48) as usize;
        proof {
            assert(d.take(i - start + 1).drop_last() =~= d.take(i - start));
            assert(d.take(i - start + 1).last() == c);
            assert(all_digits(d.take(i - start + 1))) by {
                assert forall|j: int| 0 <= j < d.take(i - start + 1).len() implies is_ascii_digit(#[trigger] d.take(i - start + 1)[j]) by {
                    if j < i - start {
                        assert(d.take(i - start + 1)[j] == d.take(i - start)[j]);
                    }
                }
            }
        }
        let next = match acc.checked_mul(10) {
            Some(m) => m.checked_add(dv),
            None => None,
        };
        match next {
            Some(n) => acc = n,
            None => {
                proof {
                    assert(dv == digit_value(c));
                    assert(decimal_value(d.take(i - start + 1)) == acc * 10 + dv);
                    assert(decimal_value(d.take(i - start + 1)) > usize::MAX);
                    if all_digits(d) {
                        lemma_decimal_prefix(d, i - start + 1);
                    }
                }
                return None;
            },
        }
        i += 1;
    }
    proof {
        assert(d.take(i - start) =~= d);
    }
    Some(acc)
}

/// The part of `s` after its last `.`, or all of `s` when it has none.
pub open spec fn last_segment(s: Seq<char>) -> Seq<char>
    decreases s.len(),
{
    if s.len() == 0 {
        s
    } else if s.last() == '.' {
        Seq::empty()
    } else {
        last_segment(s.drop_last()).push(s.last())
    }
}

/// Where the last segment of `s` starts: just after its last `.`.
proof fn lemma_last_segment(s: Seq<char>, k: int)
    requires
        0 <= k <= s.len(),
        k == 0 || s[k - 1] == '.',
        forall|j: int| k <= j < s.len() ==> s[j] != '.',
    ensures
        last_segment(s) == s.subrange(k, s.len() as int),
    decreases s.len(),
{
    if s.len() == k {
        if k > 0 {
            assert(s.last() == '.');
        }
        assert(s.subrange(k, s.len() as int) =~= Seq::<char>::empty());
    } else {
        lemma_last_segment(s.drop_last(), k);
        assert(s.subrange(k, s.len() as int) =~= s.drop_last().subrange(k, s.len() - 1).push(s.last()));
    }
}

/// The characters of `s` after its last `.`.
fn last_segment_chars(s: &str) -> (res: Vec<char>)
    ensures
        res@ == last_segment(s@),
{
    let cs = chars_of(s);
    let mut k: usize = cs.len();
    while k > 0 && cs[k - 1] != '.'
        invariant
            0 <= k <= cs@.len(),
            cs@ == s@,
            forall|j: int| k <= j < cs@.len() ==> cs@[j] != '.',
        decreases k,
    {
        k -= 1;
    }
    proof {
        lemma_last_segment(s@, k as int);
    }
    let mut out: Vec<char> = Vec::new();
    let mut i: usize = k;
    while i < cs.len()
        invariant
            k <= i <= cs@.len(),
            out@ == cs@.subrange(k as int, i as int),
        decreases cs@.len() - i,
    {
        out.push(cs[i]);
        i += 1;
        proof {
            assert(out@ =~= cs@.subrange(k as int, i as int));
        }
    }
    out
}

/// Whether two constructor names agree on their last path segment, so that
/// `Option.Some` matches `Some`.
pub fn runtime_ctor_matches(actual: &str, expected: &str) -> (b: bool)
    ensures
        b == (last_segment(actual@) == last_segment(expected@)),
{
    let a = last_segment_chars(actual);
    let e = last_segment_chars(expected);
    if a.len() != e.len() {
        return false;
    }
    let mut i: usize = 0;
    while i < a.len()
        invariant
            0 <= i <= a@.len(),
            a@.len() == e@.len(),
            a@ == last_segment(actual@),
            e@ == last_segment(expected@),
            forall|j: int| 0 <= j < i ==> a@[j] == e@[j],
        decreases a@.len() - i,
    {
        if a[i] != e[i] {
            return false;
        }
        i += 1;
    }
    proof {
        assert(a@ =~= e@);
    }
    true
}


/// The position of the last field of `e` named `key`, if any.
pub open spec fn last_key_index(e: Seq<(Seq<char>, InternalPtr)>, key: Seq<char>) -> Option<int>
    decreases e.len(),
{
    if e.len() == 0 {
        None
    } else if e.last().0 == key {
        Some(e.len() - 1)
    } else {
        last_key_index(e.drop_last(), key)
    }
}

proof fn lemma_last_key_index(e: Seq<(Seq<char>, InternalPtr)>, key: Seq<char>, k: int)
    requires
        0 <= k <= e.len(),
        forall|j: int| k <= j < e.len() ==> (#[trigger] e[j]).0 != key,
    ensures
        last_key_index(e, key) == last_key_index(e.take(k), key),
    decreases e.len() - k,
{
    if k < e.len() {
        assert(e.drop_last().take(k) =~= e.take(k));
        lemma_last_key_index(e.drop_last(), key, k);
    } else {
        assert(e.take(k) =~= e);
    }
}

/// The error for a projection of `field` on a value of kind `value`.
pub open spec fn unknown_field(res: Result<RootedPtr, EngineError>, field: Seq<char>, value: &'static str) -> bool {
    res matches Err(EngineError::UnknownField { field: f, value: v }) && f@ == field && v == value
}

/// What projecting `field` out of the object `p` of `h` gives: the element
/// at a numeric field of a tuple, or the named field of a record (a
/// constructor whose one argument is a dictionary); anything else is an
/// unknown field, named by what kind of value it was asked of.
pub open spec fn projected(h0: Heap, h1: Heap, field: Seq<char>, p: InternalPtr, res: Result<RootedPtr, EngineError>) -> bool {
    match parsed_usize(field) {
        Some(index) => match h0.cell_at(p) {
            CellView::Tuple(v) => if index < v.len() {
                res matches Ok(r) && h1.live_root(r) && h1.root_target(r) == v[index]
            } else {
                unknown_field(res, field, "tuple")
            },
            other => unknown_field(res, field, type_name_of(other)),
        },
        None => match h0.cell_at(p) {
            CellView::Adt(_, v) => if v.len() == 1 {
                match h0.cell_at(v[0]) {
                    CellView::Dict(e) => match last_key_index(e, field) {
                        Some(k) => res matches Ok(r) && h1.live_root(r) && h1.root_target(r) == e[k].1,
                        None => unknown_field(res, field, "record"),
                    },
                    other => unknown_field(res, field, type_name_of(other)),
                }
            } else {
                unknown_field(res, field, "adt")
            },
            other => unknown_field(res, field, type_name_of(other)),
        },
    }
}

/// Projects `field` out of the value `pointer` stands for: `x.0` on a
/// tuple, `x.name` on a record.
#[verifier::loop_isolation(false)]
pub fn project_pointer(heap: &mut Heap, field: &str, pointer: RootedPtr) -> (res: Result<RootedPtr, EngineError>)
    requires
        old(heap).wf(),
        old(heap).live_root(pointer),
    ensures
        final(heap).wf(),
        rooted_only(*old(heap), *final(heap)),
        projected(*old(heap), *final(heap), field@, old(heap).root_target(pointer), res),
{
    let ghost h0 = *heap;
    proof {
        crate::heap::lemma_evolves_refl(h0);
        assert(evolves_except(h0, h0, identity_on(h0), Set::empty()));
    }
    let kind = match heap.root_type_name(pointer) {
        Ok(k) => k,
        Err(e) => return Err(e),
    };
    match parse_usize(field) {
        Some(index) => {
            if !same_text(kind, "tuple") {
                return Err(EngineError::UnknownField { field: field.to_string(), value: kind });
            }
            let items = match heap.root_as_tuple(pointer) {
                Ok(items) => items,
                Err(_) => return Err(EngineError::UnknownField { field: field.to_string(), value: kind }),
            };
            proof {
                let v = h0.cell_at(h0.root_target(pointer))->Tuple_0;
                crate::natives::lemma_rooted_all_only(h0, *heap, v, items@);
                if (index as int) < items@.len() {
                    assert(crate::heap::targets(*heap, items@)[index as int] == heap.root_target(items@[index as int]));
                }
            }
            if index < items.len() {
                Ok(items[index])
            } else {
                Err(EngineError::UnknownField { field: field.to_string(), value: "tuple" })
            }
        },
        None => {
            if !same_text(kind, "adt") {
                return Err(EngineError::UnknownField { field: field.to_string(), value: kind });
            }
            let (_, args) = match heap.root_as_adt(pointer) {
                Ok(x) => x,
                Err(_) => return Err(EngineError::UnknownField { field: field.to_string(), value: kind }),
            };
            let ghost h1 = *heap;
            let ghost v = h0.cell_at(h0.root_target(pointer))->Adt_1;
            proof {
                crate::natives::lemma_rooted_all_only(h0, h1, v, args@);
            }
            if args.len() != 1 {
                return Err(EngineError::UnknownField { field: field.to_string(), value: "adt" });
            }
            let record = args[0];
            proof {
                assert(crate::heap::targets(h1, args@)[0] == h1.root_target(record));
                assert(h1.root_target(record) == v[0]);
                assert(h1.cell_at(v[0]) == h0.cell_at(v[0]));
            }
            let record_kind = match heap.root_type_name(record) {
                Ok(k) => k,
                Err(e) => return Err(e),
            };
            if !same_text(record_kind, "dict") {
                return Err(EngineError::UnknownField { field: field.to_string(), value: record_kind });
            }
            let fields = match heap.root_as_dict(record) {
                Ok(f) => f,
                Err(_) => return Err(EngineError::UnknownField { field: field.to_string(), value: record_kind }),
            };
            let ghost h2 = *heap;
            let ghost e = h1.cell_at(v[0])->Dict_0;
            proof {
                crate::natives::lemma_rooted_all_only(h1, h2, crate::cell::children(CellView::Dict(e)), fields@.map_values(|f: (String, RootedPtr)| f.1));
                crate::natives::lemma_rooted_only_trans(h0, h1, h2);
            }
            let mut k: usize = fields.len();
            while k > 0
                invariant
                    0 <= k <= fields@.len(),
                    fields@.len() == e.len(),
                    forall|j: int| 0 <= j < e.len() ==> (#[trigger] fields@[j]).0@ == e[j].0,
                    forall|j: int| k <= j < e.len() ==> (#[trigger] e[j]).0 != field@,
                decreases k,
            {
                if same_text(fields[k - 1].0.as_str(), field) {
                    proof {
                        lemma_last_key_index(e, field@, k as int);
                        assert(e.take(k as int).last() == e[k - 1]);
                        let vals = fields@.map_values(|f: (String, RootedPtr)| f.1);
                        assert(vals[k - 1] == fields@[k - 1].1);
                        assert(crate::heap::targets(h2, vals)[k - 1] == h2.root_target(vals[k - 1]));
                        assert(crate::cell::children(CellView::Dict(e))[k - 1] == e[k - 1].1);
                    }
                    return Ok(fields[k - 1].1);
                }
                k -= 1;
            }
            proof {
                lemma_last_key_index(e, field@, 0);
                assert(e.take(0) =~= Seq::<(Seq<char>, InternalPtr)>::empty());
            }
            Err(EngineError::UnknownField { field: field.to_string(), value: "record" })
        },
    }
}


/// The fields of a record `e` followed by the updates `updates`, their
/// values read as the objects that the tokens stand for in `h`.
pub open spec fn updated_fields(h: Heap, e: Seq<(Seq<char>, InternalPtr)>, updates: Seq<(String, RootedPtr)>) -> Seq<(Seq<char>, InternalPtr)> {
    e + updates.map_values(|u: (String, RootedPtr)| (u.0@, h.root_target(u.1)))
}

/// Every update token is live in `h`.
pub open spec fn updates_live(h: Heap, updates: Seq<(String, RootedPtr)>) -> bool {
    forall|k: int| 0 <= k < updates.len() ==> h.live_root(#[trigger] updates[k].1)
}

/// What a record update left: after rooting the fields (which moves
/// nothing), the dictionary of the record's fields with the updates set on
/// top; for a constructor around a dictionary, that constructor again
/// around the new dictionary.
pub open spec fn record_updated(
    h0: Heap,
    h1: Heap,
    base: InternalPtr,
    updates: Seq<(String, RootedPtr)>,
    res: Result<RootedPtr, EngineError>,
) -> bool {
    match h0.cell_at(base) {
        CellView::Dict(e) => exists|hm: Heap| #[trigger] rooted_only(h0, hm)
            && rooted_alloc(hm, h1, CellView::Dict(dict_of(updated_fields(h0, e, updates))), res),
        CellView::Adt(tag, v) => if v.len() == 1 && h0.cell_at(v[0]) is Dict {
            let e = h0.cell_at(v[0])->Dict_0;
            let d = CellView::Dict(dict_of(updated_fields(h0, e, updates)));
            exists|hm: Heap, hd: Heap, dr: Result<RootedPtr, EngineError>| #[trigger] rooted_only(h0, hm)
                && #[trigger] rooted_alloc(hm, hd, d, dr)
                && match dr {
                    Ok(r) => rooted_alloc(hd, h1, CellView::Adt(tag, seq![hd.root_target(r)]), res),
                    Err(x) => res matches Err(y) && y == x && h1 == hd,
                }
        } else {
            res matches Err(EngineError::UnsupportedExpr) && rooted_only(h0, h1)
        },
        _ => res matches Err(EngineError::UnsupportedExpr) && h1 == h0,
    }
}

impl Heap {
    /// Builds the dictionary of the rooted record fields `fields` with the
    /// updates set on top.
    fn updated_dict(&mut self, fields: &Vec<(String, RootedPtr)>, updates: &Vec<(String, RootedPtr)>) -> (res: Result<RootedPtr, EngineError>)
        requires
            old(self).wf(),
            forall|k: int| 0 <= k < fields@.len() ==> old(self).live_root(#[trigger] fields@[k].1),
            updates_live(*old(self), updates@),
        ensures
            final(self).wf(),
            rooted_alloc(
                *old(self),
                *final(self),
                CellView::Dict(dict_of(updated_fields(
                    *old(self),
                    fields@.map_values(|f: (String, RootedPtr)| (f.0@, old(self).root_target(f.1))),
                    updates@,
                ))),
                res,
            ),
    {
        let ghost h = *self;
        let ghost all = fields@ + updates@;
        let mut keys: Vec<String> = Vec::new();
        let mut vals: Vec<RootedPtr> = Vec::new();
        let mut i: usize = 0;
        while i < fields.len()
            invariant
                0 <= i <= fields@.len(),
                keys@.len() == i && vals@.len() == i,
                all == fields@ + updates@,
                forall|j: int| 0 <= j < i ==> (#[trigger] keys@[j])@ == all[j].0@ && vals@[j] == all[j].1,
            decreases fields@.len() - i,
        {
            keys.push(fields[i].0.clone());
            vals.push(fields[i].1);
            i += 1;
        }
        let mut j: usize = 0;
        while j < updates.len()
            invariant
                0 <= j <= updates@.len(),
                keys@.len() == fields@.len() + j && vals@.len() == fields@.len() + j,
                all == fields@ + updates@,
                forall|m: int| 0 <= m < fields@.len() + j ==> (#[trigger] keys@[m])@ == all[m].0@ && vals@[m] == all[m].1,
            decreases updates@.len() - j,
        {
            keys.push(updates[j].0.clone());
            vals.push(updates[j].1);
            proof {
                assert(all[fields@.len() + j] == updates@[j as int]);
            }
            j += 1;
        }
        proof {
            let n = all.len();
            assert forall|m: int| 0 <= m < vals@.len() implies h.live_root(#[trigger] vals@[m]) by {
                assert(keys@[m]@ == all[m].0@);
                if m < fields@.len() {
                    assert(all[m] == fields@[m]);
                } else {
                    assert(all[m] == updates@[m - fields@.len()]);
                }
            }
            let pairs = Seq::new(keys@.len(), |m: int| (keys@[m]@, h.root_target(vals@[m])));
            let want = updated_fields(h, fields@.map_values(|f: (String, RootedPtr)| (f.0@, h.root_target(f.1))), updates@);
            assert forall|m: int| 0 <= m < pairs.len() implies pairs[m] == want[m] by {
                assert(keys@[m]@ == all[m].0@);
                if m < fields@.len() {
                    assert(all[m] == fields@[m]);
                } else {
                    assert(all[m] == updates@[m - fields@.len()]);
                }
            }
            assert(pairs =~= want);
        }
        self.alloc_root_dict(keys, &vals)
    }
}

/// Updates the fields `updates` (set in the order given, a later one of a
/// name winning) of the record that `base` stands for: a dictionary, or a
/// constructor around one.
pub fn apply_record_update_values(heap: &mut Heap, base: RootedPtr, updates: &Vec<(String, RootedPtr)>) -> (res: Result<RootedPtr, EngineError>)
    requires
        old(heap).wf(),
        old(heap).live_root(base),
        updates_live(*old(heap), updates@),
    ensures
        final(heap).wf(),
        record_updated(*old(heap), *final(heap), old(heap).root_target(base), updates@, res),
{
    let ghost h0 = *heap;
    let kind = match heap.root_type_name(base) {
        Ok(k) => k,
        Err(e) => return Err(e),
    };
    if same_text(kind, "dict") {
        let fields = match heap.root_as_dict(base) {
            Ok(f) => f,
            Err(_) => {
                proof {
                    reveal_strlit("adt");
                    reveal_strlit("dict");
                    assert("adt"@.len() != "dict"@.len());
                    assert("adt"@ != "dict"@);
                }
                return Err(EngineError::UnsupportedExpr);
            },
        };
        let ghost hm = *heap;
        let ghost e = h0.cell_at(h0.root_target(base))->Dict_0;
        proof {
            crate::natives::lemma_rooted_all_only(h0, hm, crate::cell::children(CellView::Dict(e)), fields@.map_values(|f: (String, RootedPtr)| f.1));
            lemma_fields_rooted(h0, hm, e, fields@);
            lemma_updates_follow(h0, hm, updates@);
        }
        let made = heap.updated_dict(&fields, updates);
        proof {
            assert(updated_fields(hm, fields@.map_values(|f: (String, RootedPtr)| (f.0@, hm.root_target(f.1))), updates@)
                =~= updated_fields(h0, e, updates@));
            assert(rooted_only(h0, hm));
        }
        made
    } else if same_text(kind, "adt") {
        let (tag, args) = match heap.root_as_adt(base) {
            Ok(x) => x,
            Err(_) => return Err(EngineError::UnsupportedExpr),
        };
        let ghost h1 = *heap;
        let ghost v = h0.cell_at(h0.root_target(base))->Adt_1;
        proof {
            crate::natives::lemma_rooted_all_only(h0, h1, v, args@);
        }
        if args.len() != 1 {
            return Err(EngineError::UnsupportedExpr);
        }
        let record = args[0];
        proof {
            assert(crate::heap::targets(h1, args@)[0] == h1.root_target(record));
        }
        let record_kind = match heap.root_type_name(record) {
            Ok(k) => k,
            Err(e) => return Err(e),
        };
        if !same_text(record_kind, "dict") {
            return Err(EngineError::UnsupportedExpr);
        }
        let fields = match heap.root_as_dict(record) {
            Ok(f) => f,
            Err(_) => return Err(EngineError::UnsupportedExpr),
        };
        let ghost hm = *heap;
        let ghost e = h0.cell_at(v[0])->Dict_0;
        proof {
            crate::natives::lemma_rooted_all_only(h1, hm, crate::cell::children(CellView::Dict(e)), fields@.map_values(|f: (String, RootedPtr)| f.1));
            crate::natives::lemma_rooted_only_trans(h0, h1, hm);
            lemma_fields_rooted(h1, hm, e, fields@);
            lemma_updates_follow(h0, hm, updates@);
        }
        let made = heap.updated_dict(&fields, updates);
        let ghost hd = *heap;
        proof {
            assert(updated_fields(hm, fields@.map_values(|f: (String, RootedPtr)| (f.0@, hm.root_target(f.1))), updates@)
                =~= updated_fields(h0, e, updates@));
        }
        match made {
            Ok(d) => {
                let one: Vec<RootedPtr> = vec![d];
                proof {
                    assert(crate::heap::targets(*heap, one@) =~= seq![heap.root_target(d)]);
                }
                heap.alloc_root_adt(tag, &one)
            },
            Err(x) => Err(x),
        }
    } else {
        Err(EngineError::UnsupportedExpr)
    }
}

/// The rooted fields of a record stand for its field values, by name.
proof fn lemma_fields_rooted(h0: Heap, h1: Heap, e: Seq<(Seq<char>, InternalPtr)>, fields: Seq<(String, RootedPtr)>)
    requires
        fields.len() == e.len(),
        forall|k: int| 0 <= k < e.len() ==> (#[trigger] fields[k]).0@ == e[k].0,
        rooted_all(h0, h1, crate::cell::children(CellView::Dict(e)), fields.map_values(|f: (String, RootedPtr)| f.1)),
    ensures
        fields.map_values(|f: (String, RootedPtr)| (f.0@, h1.root_target(f.1))) == e,
        forall|k: int| 0 <= k < fields.len() ==> h1.live_root(#[trigger] fields[k].1),
{
    let rs = fields.map_values(|f: (String, RootedPtr)| f.1);
    assert forall|k: int| 0 <= k < fields.len() implies h1.live_root(#[trigger] fields[k].1) && h1.root_target(fields[k].1) == e[k].1 by {
        assert(rs[k] == fields[k].1);
        assert(crate::heap::targets(h1, rs)[k] == h1.root_target(rs[k]));
        assert(crate::cell::children(CellView::Dict(e))[k] == e[k].1);
    }
    assert(fields.map_values(|f: (String, RootedPtr)| (f.0@, h1.root_target(f.1))) =~= e);
}

/// Tokens live before an operation that only adds roots stand for the same
/// objects after it.
proof fn lemma_updates_follow(h0: Heap, h1: Heap, updates: Seq<(String, RootedPtr)>)
    requires
        rooted_only(h0, h1),
        updates_live(h0, updates),
    ensures
        updates_live(h1, updates),
        updates.map_values(|u: (String, RootedPtr)| (u.0@, h1.root_target(u.1)))
            == updates.map_values(|u: (String, RootedPtr)| (u.0@, h0.root_target(u.1))),
{
    let s = choose|s: Set<int>| #[trigger] evolves_except(h0, h1, identity_on(h0), s);
    assert forall|k: int| 0 <= k < updates.len() implies h1.live_root(#[trigger] updates[k].1)
        && h1.root_target(updates[k].1) == h0.root_target(updates[k].1) by {
        crate::heap::lemma_root_follows(h0, h1, identity_on(h0), s, updates[k].1);
        assert(h0.root_pointer(updates[k].1.slot as int) is Some);
    }
    assert(updates.map_values(|u: (String, RootedPtr)| (u.0@, h1.root_target(u.1)))
        =~= updates.map_values(|u: (String, RootedPtr)| (u.0@, h0.root_target(u.1))));
}

/// Where some field of `e` is named `key`, the search finds the last one:
/// a field with that name, after which no field has it.
proof fn lemma_last_key_found(e: Seq<(Seq<char>, InternalPtr)>, key: Seq<char>, i: int)
    requires
        0 <= i < e.len(),
        e[i].0 == key,
    ensures
        last_key_index(e, key) matches Some(k) && i <= k < e.len() && e[k].0 == key
            && forall|j: int| k < j < e.len() ==> (#[trigger] e[j]).0 != key,
    decreases e.len(),
{
    if e.last().0 != key {
        lemma_last_key_found(e.drop_last(), key, i);
        let k = last_key_index(e.drop_last(), key)->Some_0;
        assert forall|j: int| k < j < e.len() implies (#[trigger] e[j]).0 != key by {
            if j < e.len() - 1 {
                assert(e[j] == e.drop_last()[j]);
            }
        }
    }
}

/// Projecting a name out of a record (a constructor around one dictionary)
/// whose dictionary has a field of that name gives the value of that field:
/// of the last field with the name, wherever it stands.
pub proof fn law_record_field_projects_its_value(
    h0: Heap,
    h1: Heap,
    field: Seq<char>,
    p: InternalPtr,
    res: Result<RootedPtr, EngineError>,
    i: int,
)
    requires
        projected(h0, h1, field, p, res),
        parsed_usize(field) is None,
        h0.cell_at(p) is Adt,
        h0.cell_at(p)->Adt_1.len() == 1,
        h0.cell_at(h0.cell_at(p)->Adt_1[0]) is Dict,
        0 <= i < h0.cell_at(h0.cell_at(p)->Adt_1[0])->Dict_0.len(),
        h0.cell_at(h0.cell_at(p)->Adt_1[0])->Dict_0[i].0 == field,
    ensures
        ({
            let e = h0.cell_at(h0.cell_at(p)->Adt_1[0])->Dict_0;
            res matches Ok(r) && h1.live_root(r) && exists|k: int| i <= k < e.len() && #[trigger] e[k].0 == field
                && h1.root_target(r) == e[k].1 && forall|j: int| k < j < e.len() ==> (#[trigger] e[j]).0 != field
        }),
{
    let e = h0.cell_at(h0.cell_at(p)->Adt_1[0])->Dict_0;
    lemma_last_key_found(e, field, i);
    let k = last_key_index(e, field)->Some_0;
    assert(e[k].0 == field);
}

/// Projecting a name out of a record whose dictionary has no field of that
/// name is an unknown field of a record.
pub proof fn law_record_without_the_field(h0: Heap, h1: Heap, field: Seq<char>, p: InternalPtr, res: Result<RootedPtr, EngineError>)
    requires
        projected(h0, h1, field, p, res),
        parsed_usize(field) is None,
        h0.cell_at(p) is Adt,
        h0.cell_at(p)->Adt_1.len() == 1,
        h0.cell_at(h0.cell_at(p)->Adt_1[0]) is Dict,
        forall|j: int| 0 <= j < h0.cell_at(h0.cell_at(p)->Adt_1[0])->Dict_0.len()
            ==> (#[trigger] h0.cell_at(h0.cell_at(p)->Adt_1[0])->Dict_0[j]).0 != field,
    ensures
        unknown_field(res, field, "record"),
{
    let e = h0.cell_at(h0.cell_at(p)->Adt_1[0])->Dict_0;
    lemma_last_key_index(e, field, 0);
    assert(e.take(0) =~= Seq::<(Seq<char>, InternalPtr)>::empty());
}

/// Projecting a numeric field within a tuple's length gives the item at
/// that place; beyond it, an unknown field of a tuple.
pub proof fn law_tuple_field_projects_its_item(
    h0: Heap,
    h1: Heap,
    field: Seq<char>,
    p: InternalPtr,
    res: Result<RootedPtr, EngineError>,
    index: int,
)
    requires
        projected(h0, h1, field, p, res),
        parsed_usize(field) == Some(index),
        h0.cell_at(p) is Tuple,
    ensures
        index < h0.cell_at(p)->Tuple_0.len() ==> (res matches Ok(r) && h1.live_root(r)
            && h1.root_target(r) == h0.cell_at(p)->Tuple_0[index]),
        index >= h0.cell_at(p)->Tuple_0.len() ==> unknown_field(res, field, "tuple"),
{
}

} // verus!
