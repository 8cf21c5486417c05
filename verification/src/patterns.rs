//! Matching a heap value against a pattern, giving the bindings of the
//! pattern's variables.
//!
//! The match first reads the heap without changing it, binding each variable
//! to a heap object, a byte of binary list data, or the rest of a list slice.
//! The bindings of a match are then rooted: every bound object (and every
//! slice's backing data) is rooted first, then the bytes and slices are
//! stored as new objects, so a collection that an allocation runs moves the
//! bound objects along with their roots.

use vstd::prelude::*;

use crate::cell::{children, map_cell, dict_view, type_name_of, Cell, CellView, DictEntry, InternalPtr, RootedPtr};
use crate::dicts::{dict_get, dict_insert_field, dict_of, fields_view, lemma_insert_entries};
use crate::error::EngineError;
use crate::fields::{last_segment, runtime_ctor_matches};
use crate::heap::{compose, evolves_except, identity_on, lemma_evolves_compose, lemma_evolves_refl, lemma_map_cell_identity, lemma_root_follows, rooted_alloc_with, Heap};
use crate::natives::same_text;
use crate::lists::{backing_len, is_alloc_error, reached, lemma_list_walk, lemma_walk_valid, list_elements_from_cell, validate_list_slice_bounds, backing_error, bounds_error, list_walk, spine_ends, ListElement, ListWalk};

verus! {

/// A pattern of the language.
#[derive(Debug)]
pub enum Pattern {
    /// `_`: matches anything, binds nothing.
    Wildcard,
    /// A variable: matches anything and binds it.
    Var(String),
    /// A constructor applied to argument patterns; `Empty` and `Cons` also
    /// match lists.
    Named(String, Vec<Pattern>),
    Tuple(Vec<Pattern>),
    /// A list of exactly as many elements as patterns.
    List(Vec<Pattern>),
    /// A list's head and tail.
    Cons(Box<Pattern>, Box<Pattern>),
    /// A record or dictionary with at least the given fields.
    Dict(Vec<(String, Pattern)>),
}

/// The mathematical form of a pattern.
pub enum PatV {
    Wildcard,
    Var(Seq<char>),
    Named(Seq<char>, Seq<PatV>),
    Tuple(Seq<PatV>),
    List(Seq<PatV>),
    Cons(Box<PatV>, Box<PatV>),
    Dict(Seq<(Seq<char>, PatV)>),
}

pub open spec fn pat_view(p: Pattern) -> PatV
    decreases p,
{
    match p {
        Pattern::Wildcard => PatV::Wildcard,
        Pattern::Var(n) => PatV::Var(n@),
        Pattern::Named(n, ps) => PatV::Named(n@, pats_view(ps@)),
        Pattern::Tuple(ps) => PatV::Tuple(pats_view(ps@)),
        Pattern::List(ps) => PatV::List(pats_view(ps@)),
        Pattern::Cons(h, t) => PatV::Cons(Box::new(pat_view(*h)), Box::new(pat_view(*t))),
        Pattern::Dict(fs) => PatV::Dict(pat_fields_view(fs@)),
    }
}

pub open spec fn pats_view(s: Seq<Pattern>) -> Seq<PatV>
    decreases s,
{
    if s.len() == 0 {
        Seq::empty()
    } else {
        seq![pat_view(s[0])] + pats_view(s.drop_first())
    }
}

pub open spec fn pat_fields_view(s: Seq<(String, Pattern)>) -> Seq<(Seq<char>, PatV)>
    decreases s,
{
    if s.len() == 0 {
        Seq::empty()
    } else {
        seq![(s[0].0@, pat_view(s[0].1))] + pat_fields_view(s.drop_first())
    }
}

pub proof fn lemma_pats_view(s: Seq<Pattern>)
    ensures
        pats_view(s).len() == s.len(),
        forall|i: int| 0 <= i < s.len() ==> #[trigger] pats_view(s)[i] == pat_view(s[i]),
    decreases s.len(),
{
    if s.len() > 0 {
        lemma_pats_view(s.drop_first());
        assert forall|i: int| 0 <= i < s.len() implies #[trigger] pats_view(s)[i] == pat_view(s[i]) by {
            if i > 0 {
                assert(pats_view(s)[i] == pats_view(s.drop_first())[i - 1]);
            }
        }
    }
}

pub proof fn lemma_pat_fields_view(s: Seq<(String, Pattern)>)
    ensures
        pat_fields_view(s).len() == s.len(),
        forall|i: int| 0 <= i < s.len() ==> #[trigger] pat_fields_view(s)[i] == (s[i].0@, pat_view(s[i].1)),
    decreases s.len(),
{
    if s.len() > 0 {
        lemma_pat_fields_view(s.drop_first());
        assert forall|i: int| 0 <= i < s.len() implies #[trigger] pat_fields_view(s)[i] == (s[i].0@, pat_view(s[i].1)) by {
            if i > 0 {
                assert(pat_fields_view(s)[i] == pat_fields_view(s.drop_first())[i - 1]);
            }
        }
    }
}

/// What a variable is bound to before rooting: a heap object, a byte of
/// binary list data, the rest of a list slice, or the empty list that
/// follows the last element of a slice.
#[derive(Clone, Copy, Debug, PartialEq, Eq, Structural)]
pub enum MatchVal {
    Ptr(InternalPtr),
    Byte(u8),
    Slice { start: usize, end: usize, elements: InternalPtr },
    EmptyList,
}

/// The object that a bound value stands for.
pub open spec fn val_cell(h: Heap, v: MatchVal) -> CellView {
    match v {
        MatchVal::Ptr(p) => h.cell_at(p),
        MatchVal::Byte(x) => CellView::U8(x),
        MatchVal::Slice { start, end, elements } => CellView::ListSlice { start, end, elements },
        MatchVal::EmptyList => CellView::Empty,
    }
}

/// A bound value names live objects; a slice is non-empty and lies within
/// its backing data.
pub open spec fn val_valid(h: Heap, v: MatchVal) -> bool {
    match v {
        MatchVal::Ptr(p) => h.valid_ptr(p),
        MatchVal::Slice { start, end, elements } => {
            &&& h.valid_ptr(elements)
            &&& start < end
            &&& backing_len(h.cell_at(elements)) matches Some(n) && end <= n
        },
        _ => true,
    }
}

pub open spec fn elem_val(e: ListElement) -> MatchVal {
    match e {
        ListElement::InternalPtr(p) => MatchVal::Ptr(p),
        ListElement::U8(x) => MatchVal::Byte(x),
    }
}

/// The first element and the rest of a list, if it has one.
pub enum HeadTail {
    Empty,
    Split(MatchVal, MatchVal),
    Fail(EngineError),
}

/// Splitting the list `c` into its head and tail. The tail of a slice is the
/// slice that starts one element later, or the empty list after its last
/// element.
pub open spec fn head_tail(h: Heap, c: CellView) -> HeadTail {
    match c {
        CellView::Empty => HeadTail::Empty,
        CellView::Cons(a, b) => HeadTail::Split(MatchVal::Ptr(a), MatchVal::Ptr(b)),
        CellView::ListSlice { start, end, elements } => if start >= end {
            HeadTail::Empty
        } else {
            let tail = if start + 1 == end {
                MatchVal::EmptyList
            } else {
                MatchVal::Slice { start: (start + 1) as usize, end, elements }
            };
            match h.cell_at(elements) {
                CellView::Data(v) => match bounds_error(v.len() as int, start, end) {
                    Some(e) => HeadTail::Fail(e),
                    None => HeadTail::Split(MatchVal::Ptr(v[start as int]), tail),
                },
                CellView::BinaryData(v) => match bounds_error(v.len() as int, start, end) {
                    Some(e) => HeadTail::Fail(e),
                    None => HeadTail::Split(MatchVal::Byte(v[start as int]), tail),
                },
                other => HeadTail::Fail(backing_error(other)),
            }
        },
        other => HeadTail::Fail(EngineError::NativeType { expected: "list", got: type_name_of(other) }),
    }
}

/// The outcome of a match: no match, the bindings in the order the pattern
/// makes them, an error in reading the value, or a list whose spine never
/// ends.
pub enum MatchOut {
    No,
    Bound(Seq<(Seq<char>, MatchVal)>),
    Fail(EngineError),
    Diverges,
}

/// The characters of `Empty` and `Cons`.
pub open spec fn empty_name() -> Seq<char> {
    seq!['E', 'm', 'p', 't', 'y']
}

pub open spec fn cons_name() -> Seq<char> {
    seq!['C', 'o', 'n', 's']
}

/// Whether `c` is a list cell.
pub open spec fn is_list_cell(c: CellView) -> bool {
    c is Empty || c is Cons || c is ListSlice
}

/// Matching the value `v` against the pattern `p`.
pub open spec fn match_spec(h: Heap, p: PatV, v: MatchVal) -> MatchOut
    decreases p,
{
    let c = val_cell(h, v);
    match p {
        PatV::Wildcard => MatchOut::Bound(Seq::empty()),
        PatV::Var(n) => MatchOut::Bound(seq![(n, v)]),
        PatV::Named(name, ps) => match c {
            CellView::Adt(vn, args) => if last_segment(vn) == last_segment(name) && args.len() == ps.len() {
                match_seq(h, ps, args.map_values(|a: InternalPtr| MatchVal::Ptr(a)))
            } else {
                MatchOut::No
            },
            _ => if !is_list_cell(c) {
                MatchOut::No
            } else if last_segment(name) == empty_name() && ps.len() == 0 {
                if !spine_ends(h, c) {
                    MatchOut::Diverges
                } else {
                    match list_walk(h, c) {
                        ListWalk::Done(s) => if s.len() == 0 { MatchOut::Bound(Seq::empty()) } else { MatchOut::No },
                        ListWalk::Fail(e) => MatchOut::Fail(e),
                        ListWalk::Diverges => MatchOut::Diverges,
                    }
                }
            } else if last_segment(name) == cons_name() && ps.len() == 2 {
                match head_tail(h, c) {
                    HeadTail::Empty => MatchOut::No,
                    HeadTail::Split(a, b) => match_seq(h, ps, seq![a, b]),
                    HeadTail::Fail(e) => MatchOut::Fail(e),
                }
            } else {
                MatchOut::No
            },
        },
        PatV::Tuple(ps) => match c {
            CellView::Tuple(items) => if items.len() == ps.len() {
                match_seq(h, ps, items.map_values(|a: InternalPtr| MatchVal::Ptr(a)))
            } else {
                MatchOut::No
            },
            _ => MatchOut::No,
        },
        PatV::List(ps) => if !spine_ends(h, c) {
            MatchOut::Diverges
        } else {
            match list_walk(h, c) {
                ListWalk::Done(s) => if s.len() != ps.len() {
                    MatchOut::No
                } else {
                    match_seq(h, ps, s.map_values(|e: ListElement| elem_val(e)))
                },
                ListWalk::Fail(e) => MatchOut::Fail(e),
                ListWalk::Diverges => MatchOut::Diverges,
            }
        },
        PatV::Cons(hp, tp) => match head_tail(h, c) {
            HeadTail::Empty => MatchOut::No,
            HeadTail::Split(a, b) => match match_spec(h, *hp, a) {
                MatchOut::Bound(x) => match match_spec(h, *tp, b) {
                    MatchOut::Bound(y) => MatchOut::Bound(x + y),
                    other => other,
                },
                other => other,
            },
            HeadTail::Fail(e) => MatchOut::Fail(e),
        },
        PatV::Dict(fs) => match c {
            CellView::Dict(es) => if forall|i: int| 0 <= i < fs.len() ==> dict_get(es, #[trigger] fs[i].0) is Some {
                match_fields(h, fs, es)
            } else {
                MatchOut::No
            },
            _ => MatchOut::No,
        },
    }
}

/// Matching the values `vs` against the patterns `ps`, in order, stopping
/// at the first that does not match.
pub open spec fn match_seq(h: Heap, ps: Seq<PatV>, vs: Seq<MatchVal>) -> MatchOut
    decreases ps,
{
    if ps.len() == 0 || vs.len() == 0 {
        MatchOut::Bound(Seq::empty())
    } else {
        match match_spec(h, ps[0], vs[0]) {
            MatchOut::Bound(x) => match match_seq(h, ps.drop_first(), vs.drop_first()) {
                MatchOut::Bound(y) => MatchOut::Bound(x + y),
                other => other,
            },
            other => other,
        }
    }
}

/// Matching the fields `fs` of a dictionary pattern against the entries
/// `es` that they name, in order.
pub open spec fn match_fields(h: Heap, fs: Seq<(Seq<char>, PatV)>, es: Seq<(Seq<char>, InternalPtr)>) -> MatchOut
    decreases fs,
{
    if fs.len() == 0 {
        MatchOut::Bound(Seq::empty())
    } else {
        match match_spec(h, fs[0].1, MatchVal::Ptr(dict_get(es, fs[0].0).unwrap())) {
            MatchOut::Bound(x) => match match_fields(h, fs.drop_first(), es) {
                MatchOut::Bound(y) => MatchOut::Bound(x + y),
                other => other,
            },
            other => other,
        }
    }
}

/// The objects that splitting the list `c` into head and tail stores: for
/// a non-empty slice, the head when it is a byte of binary data, then the
/// tail.
pub open spec fn head_tail_allocs(h: Heap, c: CellView) -> Seq<MatchVal> {
    match head_tail(h, c) {
        HeadTail::Split(a, b) => if c is ListSlice {
            if a is Byte { seq![a, b] } else { seq![b] }
        } else {
            Seq::empty()
        },
        _ => Seq::empty(),
    }
}

/// The byte elements of `s`, in order.
pub open spec fn byte_vals(s: Seq<ListElement>) -> Seq<MatchVal>
    decreases s.len(),
{
    if s.len() == 0 {
        Seq::empty()
    } else {
        let rest = byte_vals(s.drop_last());
        match s.last() {
            ListElement::U8(x) => rest.push(MatchVal::Byte(x)),
            _ => rest,
        }
    }
}

proof fn lemma_byte_vals_contain(s: Seq<ListElement>, k: int)
    requires
        0 <= k < s.len(),
        s[k] is U8,
    ensures
        byte_vals(s).contains(MatchVal::Byte(s[k]->U8_0)),
    decreases s.len(),
{
    let b = byte_vals(s);
    if k == s.len() - 1 {
        assert(b[b.len() - 1] == MatchVal::Byte(s[k]->U8_0));
    } else {
        lemma_byte_vals_contain(s.drop_last(), k);
        let r = byte_vals(s.drop_last());
        let j = choose|j: int| 0 <= j < r.len() && r[j] == MatchVal::Byte(s[k]->U8_0);
        assert(b[j] == r[j]);
    }
}

/// A bound value that is not a heap object is one of the stored objects
/// `a`.
pub open spec fn in_allocs(a: Seq<MatchVal>, v: MatchVal) -> bool {
    v is Ptr || a.contains(v)
}

/// Every value of `a` is one to store (not a heap object already) and names
/// live objects.
pub open spec fn all_valid(h: Heap, a: Seq<MatchVal>) -> bool {
    forall|i: int| 0 <= i < a.len() ==> val_valid(h, #[trigger] a[i]) && !(a[i] is Ptr)
}

/// What the bindings `res` of a match owe to the stored objects `a`.
pub open spec fn bound_in(a: Seq<MatchVal>, res: Result<Option<Vec<(String, MatchVal)>>, EngineError>) -> bool {
    res matches Ok(Some(b)) ==> forall|i: int| 0 <= i < b@.len() ==> in_allocs(a, #[trigger] b@[i].1)
}

/// Whether every pattern of `ps` is a wildcard.
pub open spec fn all_wildcards(ps: Seq<PatV>) -> bool {
    forall|i: int| 0 <= i < ps.len() ==> #[trigger] ps[i] is Wildcard
}

/// The objects that matching `v` against `p` stores, in the order the
/// match reaches them, up to where it stops: the heads and tails that
/// splitting a slice gives, and the bytes of binary list data that a
/// pattern other than `_` looks at (all bytes of a list of `Cons` cells at
/// once).
pub open spec fn match_allocs(h: Heap, p: PatV, v: MatchVal) -> Seq<MatchVal>
    decreases p,
{
    let c = val_cell(h, v);
    match p {
        PatV::Named(name, ps) => match c {
            CellView::Adt(vn, args) => if last_segment(vn) == last_segment(name) && args.len() == ps.len() {
                seq_allocs(h, ps, args.map_values(|a: InternalPtr| MatchVal::Ptr(a)), false)
            } else {
                Seq::empty()
            },
            _ => if is_list_cell(c) && last_segment(name) == cons_name() && ps.len() == 2 {
                head_tail_allocs(h, c) + match head_tail(h, c) {
                    HeadTail::Split(a, b) => seq_allocs(h, ps, seq![a, b], false),
                    _ => Seq::empty(),
                }
            } else {
                Seq::empty()
            },
        },
        PatV::Tuple(ps) => match c {
            CellView::Tuple(items) => if items.len() == ps.len() {
                seq_allocs(h, ps, items.map_values(|a: InternalPtr| MatchVal::Ptr(a)), false)
            } else {
                Seq::empty()
            },
            _ => Seq::empty(),
        },
        PatV::List(ps) => match list_walk(h, c) {
            ListWalk::Done(s) => if s.len() != ps.len() || all_wildcards(ps) {
                Seq::empty()
            } else if c is Cons {
                (if exists|i: int| 0 <= i < s.len() && #[trigger] s[i] is U8 { byte_vals(s) } else { Seq::empty() })
                    + seq_allocs(h, ps, s.map_values(|e: ListElement| elem_val(e)), false)
            } else {
                seq_allocs(h, ps, s.map_values(|e: ListElement| elem_val(e)), true)
            },
            _ => Seq::empty(),
        },
        PatV::Cons(hp, tp) => head_tail_allocs(h, c) + match head_tail(h, c) {
            HeadTail::Split(a, b) => match_allocs(h, *hp, a) + if match_spec(h, *hp, a) is Bound {
                match_allocs(h, *tp, b)
            } else {
                Seq::empty()
            },
            _ => Seq::empty(),
        },
        PatV::Dict(fs) => match c {
            CellView::Dict(es) => if forall|i: int| 0 <= i < fs.len() ==> dict_get(es, #[trigger] fs[i].0) is Some {
                fields_allocs(h, fs, es)
            } else {
                Seq::empty()
            },
            _ => Seq::empty(),
        },
        _ => Seq::empty(),
    }
}

/// The objects that matching `vs` against `ps` in order stores; with
/// `each_byte`, a byte value is stored before a pattern other than `_`
/// looks at it.
pub open spec fn seq_allocs(h: Heap, ps: Seq<PatV>, vs: Seq<MatchVal>, each_byte: bool) -> Seq<MatchVal>
    decreases ps,
{
    if ps.len() == 0 || vs.len() == 0 {
        Seq::empty()
    } else if ps[0] is Wildcard {
        seq_allocs(h, ps.drop_first(), vs.drop_first(), each_byte)
    } else {
        (if each_byte && vs[0] is Byte { seq![vs[0]] } else { Seq::empty() }) + match_allocs(h, ps[0], vs[0])
            + if match_spec(h, ps[0], vs[0]) is Bound {
            seq_allocs(h, ps.drop_first(), vs.drop_first(), each_byte)
        } else {
            Seq::empty()
        }
    }
}

/// The objects that matching the fields `fs` against the entries `es`
/// stores.
pub open spec fn fields_allocs(h: Heap, fs: Seq<(Seq<char>, PatV)>, es: Seq<(Seq<char>, InternalPtr)>) -> Seq<MatchVal>
    decreases fs,
{
    if fs.len() == 0 {
        Seq::empty()
    } else {
        let v = MatchVal::Ptr(dict_get(es, fs[0].0).unwrap());
        match_allocs(h, fs[0].1, v) + if match_spec(h, fs[0].1, v) is Bound {
            fields_allocs(h, fs.drop_first(), es)
        } else {
            Seq::empty()
        }
    }
}

/// What a reading of the heap gives for the outcome `out`: the bindings of
/// a match, each naming live objects, no match, or the error.
pub open spec fn match_result(h: Heap, out: MatchOut, res: Result<Option<Vec<(String, MatchVal)>>, EngineError>) -> bool {
    match out {
        MatchOut::No => res matches Ok(None),
        MatchOut::Bound(s) => res matches Ok(Some(b)) && fields_view(b@) == s
            && forall|i: int| 0 <= i < b@.len() ==> val_valid(h, #[trigger] b@[i].1),
        MatchOut::Fail(e) => res matches Err(x) && x == e,
        MatchOut::Diverges => false,
    }
}

/// `r` with the bindings `x` put before its own.
pub open spec fn after(x: Seq<(Seq<char>, MatchVal)>, r: MatchOut) -> MatchOut {
    match r {
        MatchOut::Bound(y) => MatchOut::Bound(x + y),
        other => other,
    }
}

/// Splits a list cell into its head and tail.
fn head_tail_of(heap: &Heap, c: &Cell) -> (res: Result<Option<(MatchVal, MatchVal)>, EngineError>)
    requires
        heap.wf(),
        heap.holds_valid(c@),
    ensures
        match head_tail(*heap, c@) {
            HeadTail::Empty => res matches Ok(None),
            HeadTail::Split(a, b) => res matches Ok(Some(x)) && x == (a, b)
                && val_valid(*heap, a) && val_valid(*heap, b),
            HeadTail::Fail(e) => res matches Err(x) && x == e,
        },
{
    match c {
        Cell::Empty => Ok(None),
        Cell::Cons(a, b) => {
            proof {
                assert(heap.valid_ptr(children(c@)[0]));
                assert(heap.valid_ptr(children(c@)[1]));
            }
            Ok(Some((MatchVal::Ptr(*a), MatchVal::Ptr(*b))))
        },
        Cell::ListSlice { start, end, elements } => {
            if *start >= *end {
                return Ok(None);
            }
            proof {
                assert(heap.valid_ptr(children(c@)[0]));
            }
            let tail = if *start + 1 == *end {
                MatchVal::EmptyList
            } else {
                MatchVal::Slice { start: *start + 1, end: *end, elements: *elements }
            };
            let back = match heap.get_cell_from_pointer(elements) {
                Ok(b) => b,
                Err(e) => return Err(e),
            };
            match back {
                Cell::Data(v) => {
                    match validate_list_slice_bounds(v.len(), *start, *end) {
                        Ok(()) => {},
                        Err(e) => return Err(e),
                    }
                    proof {
                        assert(heap.valid_ptr(children(heap.slot_cell(elements.index as int))[*start as int]));
                    }
                    Ok(Some((MatchVal::Ptr(v[*start]), tail)))
                },
                Cell::BinaryData(v) => {
                    match validate_list_slice_bounds(v.len(), *start, *end) {
                        Ok(()) => {},
                        Err(e) => return Err(e),
                    }
                    Ok(Some((MatchVal::Byte(v[*start]), tail)))
                },
                other => Err(EngineError::NativeType { expected: "list slice backing data", got: other.cell_type_name() }),
            }
        },
        other => Err(EngineError::NativeType { expected: "list", got: other.cell_type_name() }),
    }
}

/// The value of the first entry named `key`.
fn entry_value(es: &Vec<DictEntry>, key: &str) -> (r: Option<InternalPtr>)
    ensures
        r == dict_get(dict_view(es@), key@),
        r matches Some(p) ==> exists|j: int| 0 <= j < es@.len() && (#[trigger] es@[j]).value == p,
{
    let ghost d = dict_view(es@);
    let mut j: usize = 0;
    assert(d.skip(0) =~= d);
    while j < es.len()
        invariant
            0 <= j <= es@.len(),
            d == dict_view(es@),
            dict_get(d, key@) == dict_get(d.skip(j as int), key@),
        decreases es@.len() - j,
    {
        assert(d.skip(j as int)[0] == d[j as int]);
        if same_text(es[j].key.as_str(), key) {
            return Some(es[j].value);
        }
        assert(d.skip(j as int).drop_first() =~= d.skip(j + 1));
        j += 1;
    }
    assert(d.skip(j as int).len() == 0);
    None
}

/// The characters of `name` after its last `.`, where it has none.
proof fn lemma_plain_segment(name: Seq<char>)
    requires
        forall|j: int| 0 <= j < name.len() ==> name[j] != '.',
    ensures
        last_segment(name) == name,
    decreases name.len(),
{
    if name.len() > 0 {
        lemma_plain_segment(name.drop_last());
        assert(name.drop_last().push(name.last()) =~= name);
    }
}

/// The values of a sequence of pointers.
fn ptr_vals(heap: &Heap, ptrs: &Vec<InternalPtr>) -> (vals: Vec<MatchVal>)
    requires
        forall|k: int| 0 <= k < ptrs@.len() ==> heap.valid_ptr(#[trigger] ptrs@[k]),
    ensures
        vals@ == ptrs@.map_values(|a: InternalPtr| MatchVal::Ptr(a)),
        forall|k: int| 0 <= k < vals@.len() ==> val_valid(*heap, #[trigger] vals@[k]),
{
    let mut vals: Vec<MatchVal> = Vec::new();
    let mut i: usize = 0;
    while i < ptrs.len()
        invariant
            0 <= i <= ptrs@.len(),
            forall|k: int| 0 <= k < ptrs@.len() ==> heap.valid_ptr(#[trigger] ptrs@[k]),
            vals@ == ptrs@.take(i as int).map_values(|a: InternalPtr| MatchVal::Ptr(a)),
        decreases ptrs@.len() - i,
    {
        vals.push(MatchVal::Ptr(ptrs[i]));
        i += 1;
        assert(vals@ =~= ptrs@.take(i as int).map_values(|a: InternalPtr| MatchVal::Ptr(a)));
    }
    assert(ptrs@.take(i as int) =~= ptrs@);
    vals
}

/// The values of the elements of a list.
fn elem_vals(heap: &Heap, items: &Vec<ListElement>) -> (vals: Vec<MatchVal>)
    requires
        forall|k: int| 0 <= k < items@.len() && (#[trigger] items@[k]) is InternalPtr ==> heap.valid_ptr(items@[k]->InternalPtr_0),
    ensures
        vals@ == items@.map_values(|e: ListElement| elem_val(e)),
        forall|k: int| 0 <= k < vals@.len() ==> val_valid(*heap, #[trigger] vals@[k]),
{
    let mut vals: Vec<MatchVal> = Vec::new();
    let mut i: usize = 0;
    while i < items.len()
        invariant
            0 <= i <= items@.len(),
            forall|k: int| 0 <= k < items@.len() && (#[trigger] items@[k]) is InternalPtr ==> heap.valid_ptr(items@[k]->InternalPtr_0),
            vals@ == items@.take(i as int).map_values(|e: ListElement| elem_val(e)),
        decreases items@.len() - i,
    {
        let v = match items[i] {
            ListElement::InternalPtr(p) => MatchVal::Ptr(p),
            ListElement::U8(x) => MatchVal::Byte(x),
        };
        vals.push(v);
        i += 1;
        assert(vals@ =~= items@.take(i as int).map_values(|e: ListElement| elem_val(e)));
    }
    assert(items@.take(i as int) =~= items@);
    vals
}

/// Matches the value `v` against `pat`, reading the heap only; the objects
/// that the match stores are logged in `allocs`.
fn match_value(heap: &Heap, pat: &Pattern, v: MatchVal, allocs: &mut Vec<MatchVal>) -> (res: Result<Option<Vec<(String, MatchVal)>>, EngineError>)
    requires
        heap.wf(),
        val_valid(*heap, v),
        in_allocs(old(allocs)@, v),
        all_valid(*heap, old(allocs)@),
        !(match_spec(*heap, pat_view(*pat), v) is Diverges),
    ensures
        match_result(*heap, match_spec(*heap, pat_view(*pat), v), res),
        final(allocs)@ == old(allocs)@ + match_allocs(*heap, pat_view(*pat), v),
        all_valid(*heap, final(allocs)@),
        bound_in(final(allocs)@, res),
    decreases pat, 2int,
{
    match v {
        MatchVal::Ptr(p) => {
            let c = match heap.get_cell_from_pointer(&p) {
                Ok(c) => c,
                Err(e) => {
                    proof {
                        assert(false);
                    }
                    return Err(e);
                },
            };
            proof {
                assert forall|k: int| 0 <= k < children(c@).len() implies heap.valid_ptr(#[trigger] children(c@)[k]) by {
                    assert(heap.valid_ptr(children(heap.slot_cell(p.index as int))[k]));
                }
            }
            match_cell(heap, pat, v, c, allocs)
        },
        MatchVal::Byte(x) => {
            let c = Cell::U8(x);
            proof {
                assert(children(c@).len() == 0);
            }
            match_cell(heap, pat, v, &c, allocs)
        },
        MatchVal::Slice { start, end, elements } => {
            let c = Cell::ListSlice { start, end, elements };
            proof {
                assert(children(c@) == seq![elements]);
            }
            match_cell(heap, pat, v, &c, allocs)
        },
        MatchVal::EmptyList => {
            let c = Cell::Empty;
            proof {
                assert(children(c@).len() == 0);
            }
            match_cell(heap, pat, v, &c, allocs)
        },
    }
}

/// Whether `p` is the pattern `_`.
fn is_wildcard(p: &Pattern) -> (b: bool)
    ensures
        b == (pat_view(*p) is Wildcard),
{
    match p {
        Pattern::Wildcard => true,
        _ => false,
    }
}

/// Matches the values `vals` against the patterns `ps`, in order; with
/// `each_byte`, a byte value is logged as stored before a pattern other
/// than `_` looks at it.
fn match_all(heap: &Heap, ps: &Vec<Pattern>, vals: &Vec<MatchVal>, each_byte: bool, allocs: &mut Vec<MatchVal>) -> (res: Result<Option<Vec<(String, MatchVal)>>, EngineError>)
    requires
        heap.wf(),
        ps@.len() == vals@.len(),
        forall|k: int| 0 <= k < vals@.len() ==> val_valid(*heap, #[trigger] vals@[k]),
        forall|k: int| 0 <= k < vals@.len() ==> each_byte || in_allocs(old(allocs)@, #[trigger] vals@[k]),
        forall|k: int| 0 <= k < vals@.len() ==> !each_byte || #[trigger] vals@[k] is Ptr || vals@[k] is Byte,
        all_valid(*heap, old(allocs)@),
        !(match_seq(*heap, pats_view(ps@), vals@) is Diverges),
    ensures
        match_result(*heap, match_seq(*heap, pats_view(ps@), vals@), res),
        final(allocs)@ == old(allocs)@ + seq_allocs(*heap, pats_view(ps@), vals@, each_byte),
        all_valid(*heap, final(allocs)@),
        bound_in(final(allocs)@, res),
    decreases ps, 3int,
{
    let ghost pv = pats_view(ps@);
    let ghost a0 = allocs@;
    proof {
        lemma_pats_view(ps@);
        assert(pv.skip(0) =~= pv);
        assert(vals@.skip(0) =~= vals@);
        assert(fields_view(Seq::<(String, MatchVal)>::empty()) + Seq::<(Seq<char>, MatchVal)>::empty() =~= Seq::<(Seq<char>, MatchVal)>::empty());
        assert(a0 + seq_allocs(*heap, pv, vals@, each_byte) == allocs@ + seq_allocs(*heap, pv.skip(0), vals@.skip(0), each_byte));
    }
    let mut acc: Vec<(String, MatchVal)> = Vec::new();
    let mut i: usize = 0;
    while i < ps.len()
        invariant
            0 <= i <= ps@.len(),
            ps@.len() == vals@.len(),
            heap.wf(),
            a0 == old(allocs)@,
            pv == pats_view(ps@),
            pv.len() == ps@.len(),
            forall|k: int| 0 <= k < ps@.len() ==> #[trigger] pv[k] == pat_view(ps@[k]),
            forall|k: int| 0 <= k < vals@.len() ==> val_valid(*heap, #[trigger] vals@[k]),
            forall|k: int| 0 <= k < vals@.len() ==> each_byte || in_allocs(a0, #[trigger] vals@[k]),
            forall|k: int| 0 <= k < vals@.len() ==> !each_byte || #[trigger] vals@[k] is Ptr || vals@[k] is Byte,
            forall|k: int| 0 <= k < acc@.len() ==> val_valid(*heap, #[trigger] acc@[k].1),
            forall|k: int| 0 <= k < acc@.len() ==> in_allocs(allocs@, #[trigger] acc@[k].1),
            allocs@.len() >= a0.len(),
            allocs@.subrange(0, a0.len() as int) == a0,
            all_valid(*heap, allocs@),
            !(match_seq(*heap, pv, vals@) is Diverges),
            match_seq(*heap, pv, vals@) == after(fields_view(acc@), match_seq(*heap, pv.skip(i as int), vals@.skip(i as int))),
            a0 + seq_allocs(*heap, pv, vals@, each_byte) == allocs@ + seq_allocs(*heap, pv.skip(i as int), vals@.skip(i as int), each_byte),
        decreases ps@.len() - i,
    {
        let ghost pre = allocs@;
        proof {
            assert(pv.skip(i as int)[0] == pv[i as int]);
            assert(vals@.skip(i as int)[0] == vals@[i as int]);
            assert(pv.skip(i as int).drop_first() =~= pv.skip(i + 1));
            assert(vals@.skip(i as int).drop_first() =~= vals@.skip(i + 1));
        }
        if is_wildcard(&ps[i]) {
            proof {
                let r = match_seq(*heap, pv.skip(i + 1), vals@.skip(i + 1));
                if let MatchOut::Bound(y) = r {
                    assert(fields_view(acc@) + (Seq::<(Seq<char>, MatchVal)>::empty() + y) =~= fields_view(acc@) + y);
                }
            }
            i += 1;
            continue;
        }
        let v = vals[i];
        proof {
            assert(v == vals@[i as int]);
            assert(!(pv[i as int] is Wildcard));
        }
        let pushed = each_byte && match v {
            MatchVal::Byte(_) => true,
            _ => false,
        };
        if pushed {
            allocs.push(v);
        }
        proof {
            assert(allocs@ == pre + (if each_byte && v is Byte { seq![v] } else { Seq::<MatchVal>::empty() }));
            if !pushed {
                assert(allocs@ =~= pre);
                if !(v is Ptr) {
                    assert(in_allocs(a0, v));
                    let j = choose|j: int| 0 <= j < a0.len() && a0[j] == v;
                    assert(pre[j] == a0[j]);
                }
            } else {
                assert(allocs@[allocs@.len() - 1] == v);
            }
        }
        let ghost mid = allocs@;
        let r = match_value(heap, &ps[i], v, allocs);
        proof {
            let rest = seq_allocs(*heap, pv.skip(i + 1), vals@.skip(i + 1), each_byte);
            let here = seq_allocs(*heap, pv.skip(i as int), vals@.skip(i as int), each_byte);
            let ma = match_allocs(*heap, pv[i as int], v);
            let pb = if each_byte && v is Byte { seq![v] } else { Seq::<MatchVal>::empty() };
            assert(here == pb + ma + (if match_spec(*heap, pv[i as int], v) is Bound { rest } else { Seq::<MatchVal>::empty() }));
            assert(allocs@ == pre + pb + ma);
            if match_spec(*heap, pv[i as int], v) is Bound {
                assert(pre + here =~= allocs@ + rest);
            } else {
                assert(pre + here =~= allocs@);
            }
            assert(allocs@.subrange(0, a0.len() as int) =~= a0);
            assert forall|k: int| 0 <= k < acc@.len() implies in_allocs(allocs@, #[trigger] acc@[k].1) by {
                if !(acc@[k].1 is Ptr) {
                    let j = choose|j: int| 0 <= j < pre.len() && pre[j] == acc@[k].1;
                    assert(allocs@[j] == pre[j]);
                }
            }
        }
        match r {
            Err(e) => {
                proof {
                    assert(!(match_spec(*heap, pv[i as int], v) is Bound));
                    assert(allocs@ == a0 + seq_allocs(*heap, pv, vals@, each_byte));
                }
                return Err(e);
            },
            Ok(None) => {
                proof {
                    assert(!(match_spec(*heap, pv[i as int], v) is Bound));
                    assert(allocs@ == a0 + seq_allocs(*heap, pv, vals@, each_byte));
                }
                return Ok(None);
            },
            Ok(Some(x)) => {
                let ghost a_before = acc@;
                let ghost x0 = x@;
                let mut x = x;
                acc.append(&mut x);
                proof {
                    lemma_after_append(a_before, x0, acc@, match_seq(*heap, pv.skip(i + 1), vals@.skip(i + 1)));
                    assert forall|k: int| 0 <= k < acc@.len() implies val_valid(*heap, #[trigger] acc@[k].1)
                        && in_allocs(allocs@, acc@[k].1) by {
                        if k >= a_before.len() {
                            assert(acc@[k] == x0[k - a_before.len()]);
                        } else {
                            assert(acc@[k] == a_before[k]);
                        }
                    }
                }
            },
        }
        i += 1;
    }
    proof {
        assert(pv.skip(i as int).len() == 0);
        assert(fields_view(acc@) + Seq::<(Seq<char>, MatchVal)>::empty() =~= fields_view(acc@));
        assert(allocs@ + Seq::<MatchVal>::empty() =~= allocs@);
    }
    Ok(Some(acc))
}

/// Bindings gathered in two steps, then a rest.
proof fn lemma_after_append(a: Seq<(String, MatchVal)>, x: Seq<(String, MatchVal)>, ax: Seq<(String, MatchVal)>, r: MatchOut)
    requires
        ax == a + x,
    ensures
        after(fields_view(a), after(fields_view(x), r)) == after(fields_view(ax), r),
{
    assert(fields_view(ax) =~= fields_view(a) + fields_view(x));
    if let MatchOut::Bound(y) = r {
        assert(fields_view(a) + (fields_view(x) + y) =~= fields_view(ax) + y);
    }
}

proof fn lemma_wildcards_bind_nothing(h: Heap, pv: Seq<PatV>, vs: Seq<MatchVal>, k: int)
    requires
        all_wildcards(pv),
        pv.len() == vs.len(),
        0 <= k <= pv.len(),
    ensures
        match_seq(h, pv.skip(k), vs.skip(k)) == MatchOut::Bound(Seq::empty()),
    decreases pv.len() - k,
{
    if k < pv.len() {
        lemma_wildcards_bind_nothing(h, pv, vs, k + 1);
        assert(pv.skip(k).drop_first() =~= pv.skip(k + 1));
        assert(vs.skip(k).drop_first() =~= vs.skip(k + 1));
        assert(pv.skip(k)[0] == pv[k]);
        assert(pv[k] is Wildcard);
        assert(match_spec(h, pv[k], vs.skip(k)[0]) == MatchOut::Bound(Seq::empty()));
        assert(Seq::<(Seq<char>, MatchVal)>::empty() + Seq::<(Seq<char>, MatchVal)>::empty() =~= Seq::<(Seq<char>, MatchVal)>::empty());
    }
}

/// Logs the objects that splitting the list `c` into `a` and `b` stores.
fn log_head_tail(heap: &Heap, c: &Cell, a: MatchVal, b: MatchVal, allocs: &mut Vec<MatchVal>)
    requires
        head_tail(*heap, c@) == HeadTail::Split(a, b),
        val_valid(*heap, a),
        val_valid(*heap, b),
        all_valid(*heap, old(allocs)@),
    ensures
        final(allocs)@ == old(allocs)@ + head_tail_allocs(*heap, c@),
        in_allocs(final(allocs)@, a),
        in_allocs(final(allocs)@, b),
        all_valid(*heap, final(allocs)@),
{
    let ghost a0 = allocs@;
    match c {
        Cell::ListSlice { .. } => {
            let is_byte = match a {
                MatchVal::Byte(_) => true,
                _ => false,
            };
            if is_byte {
                allocs.push(a);
            }
            allocs.push(b);
            proof {
                if is_byte {
                    assert(allocs@ =~= a0 + seq![a, b]);
                    assert(allocs@[a0.len() as int] == a);
                } else {
                    assert(allocs@ =~= a0 + seq![b]);
                }
                assert(allocs@[allocs@.len() - 1] == b);
            }
        },
        _ => {
            proof {
                assert(allocs@ =~= a0 + head_tail_allocs(*heap, c@));
            }
        },
    }
}

/// Logs the byte elements of `items`, in order.
fn log_bytes(items: &Vec<ListElement>, allocs: &mut Vec<MatchVal>)
    ensures
        final(allocs)@ == old(allocs)@ + byte_vals(items@),
{
    let ghost a0 = allocs@;
    let mut i: usize = 0;
    proof {
        assert(items@.take(0) =~= Seq::<ListElement>::empty());
        assert(a0 + byte_vals(items@.take(0)) =~= a0);
    }
    while i < items.len()
        invariant
            0 <= i <= items@.len(),
            allocs@ == a0 + byte_vals(items@.take(i as int)),
        decreases items@.len() - i,
    {
        proof {
            assert(items@.take(i + 1).drop_last() =~= items@.take(i as int));
            assert(items@.take(i + 1).last() == items@[i as int]);
        }
        match items[i] {
            ListElement::U8(x) => {
                allocs.push(MatchVal::Byte(x));
            },
            _ => {},
        }
        proof {
            assert(allocs@ =~= a0 + byte_vals(items@.take(i + 1)));
        }
        i += 1;
    }
    proof {
        assert(items@.take(i as int) =~= items@);
    }
}

proof fn lemma_byte_vals_are_bytes(s: Seq<ListElement>, t: int)
    requires
        0 <= t < byte_vals(s).len(),
    ensures
        byte_vals(s)[t] is Byte,
    decreases s.len(),
{
    if s.len() > 0 {
        let r = byte_vals(s.drop_last());
        if t < r.len() {
            lemma_byte_vals_are_bytes(s.drop_last(), t);
        }
    }
}

/// Whether every pattern of `ps` is `_`.
fn all_wildcard_patterns(ps: &Vec<Pattern>) -> (b: bool)
    ensures
        b == all_wildcards(pats_view(ps@)),
{
    proof {
        lemma_pats_view(ps@);
    }
    let mut i: usize = 0;
    while i < ps.len()
        invariant
            0 <= i <= ps@.len(),
            pats_view(ps@).len() == ps@.len(),
            forall|k: int| 0 <= k < ps@.len() ==> #[trigger] pats_view(ps@)[k] == pat_view(ps@[k]),
            forall|k: int| 0 <= k < i ==> (#[trigger] pats_view(ps@)[k]) is Wildcard,
        decreases ps@.len() - i,
    {
        if !is_wildcard(&ps[i]) {
            proof {
                assert(!(pats_view(ps@)[i as int] is Wildcard));
            }
            return false;
        }
        i += 1;
    }
    true
}

/// Whether some element of `items` is a byte.
fn has_byte(items: &Vec<ListElement>) -> (b: bool)
    ensures
        b == exists|i: int| 0 <= i < items@.len() && #[trigger] items@[i] is U8,
{
    let mut i: usize = 0;
    while i < items.len()
        invariant
            0 <= i <= items@.len(),
            forall|k: int| 0 <= k < i ==> !(#[trigger] items@[k] is U8),
        decreases items@.len() - i,
    {
        match items[i] {
            ListElement::U8(_) => return true,
            _ => {},
        }
        i += 1;
    }
    false
}

/// Matches the dictionary `v`, whose object is `c` with entries `es`,
/// against the dictionary pattern `pat` with fields `fs`.
fn match_dict(
    heap: &Heap,
    pat: &Pattern,
    v: MatchVal,
    c: &Cell,
    fs: &Vec<(String, Pattern)>,
    es: &Vec<DictEntry>,
    allocs: &mut Vec<MatchVal>,
) -> (res: Result<Option<Vec<(String, MatchVal)>>, EngineError>)
    requires
        heap.wf(),
        *pat == Pattern::Dict(*fs),
        *c == Cell::Dict(*es),
        all_valid(*heap, old(allocs)@),
        c@ == val_cell(*heap, v),
        heap.holds_valid(c@),
        !(match_spec(*heap, pat_view(*pat), v) is Diverges),
    ensures
        match_result(*heap, match_spec(*heap, pat_view(*pat), v), res),
        final(allocs)@ == old(allocs)@ + match_allocs(*heap, pat_view(*pat), v),
        all_valid(*heap, final(allocs)@),
        bound_in(final(allocs)@, res),
    decreases pat, 0int,
{
    let ghost a0 = allocs@;
    let ghost ev = dict_view(es@);
    let ghost fv = pat_fields_view(fs@);
    proof {
        lemma_pat_fields_view(fs@);
        assert(pat_view(*pat) == PatV::Dict(fv));
        assert(c@ == CellView::Dict(ev));
        assert(decreases_to!(*pat => fs));
        assert(fields_view(Seq::<(String, MatchVal)>::empty()) =~= Seq::<(Seq<char>, MatchVal)>::empty());
        assert(a0 + Seq::<MatchVal>::empty() =~= a0);
    }
    let ghost out = match_spec(*heap, pat_view(*pat), v);
    let ghost all_there = forall|k: int| 0 <= k < fv.len() ==> dict_get(ev, #[trigger] fv[k].0) is Some;
    assert(out == if all_there { match_fields(*heap, fv, ev) } else { MatchOut::No });
    assert(match_allocs(*heap, pat_view(*pat), v) == if all_there { fields_allocs(*heap, fv, ev) } else { Seq::<MatchVal>::empty() });
    let mut ptrs: Vec<InternalPtr> = Vec::new();
    let mut i: usize = 0;
    while i < fs.len()
        invariant
            0 <= i <= fs@.len(),
            ptrs@.len() == i,
            ev == dict_view(es@),
            fv == pat_fields_view(fs@),
            fv.len() == fs@.len(),
            forall|k: int| 0 <= k < fs@.len() ==> #[trigger] fv[k] == (fs@[k].0@, pat_view(fs@[k].1)),
            out == match_spec(*heap, pat_view(*pat), v),
            out == if all_there { match_fields(*heap, fv, ev) } else { MatchOut::No },
            all_there == forall|k: int| 0 <= k < fv.len() ==> dict_get(ev, #[trigger] fv[k].0) is Some,
            heap.holds_valid(CellView::Dict(ev)),
            allocs@ == a0,
            all_valid(*heap, a0),
            match_allocs(*heap, pat_view(*pat), v) == if all_there { fields_allocs(*heap, fv, ev) } else { Seq::<MatchVal>::empty() },
            forall|k: int| 0 <= k < i ==> dict_get(ev, fs@[k].0@) == Some(#[trigger] ptrs@[k]) && heap.valid_ptr(ptrs@[k]),
        decreases fs@.len() - i,
    {
        match entry_value(es, fs[i].0.as_str()) {
            Some(p) => {
                proof {
                    let j = choose|j: int| 0 <= j < es@.len() && (#[trigger] es@[j]).value == p;
                    assert(children(CellView::Dict(ev))[j] == p);
                }
                ptrs.push(p);
            },
            None => {
                proof {
                    assert(fv[i as int].0 == fs@[i as int].0@);
                    assert(dict_get(ev, fv[i as int].0) is None);
                    assert(!all_there);
                }
                return Ok(None);
            },
        }
        i += 1;
    }
    proof {
        assert forall|k: int| 0 <= k < fv.len() implies dict_get(ev, #[trigger] fv[k].0) is Some by {
            assert(fv[k].0 == fs@[k].0@);
            assert(dict_get(ev, fs@[k].0@) == Some(ptrs@[k]));
        }
        assert(fv.skip(0) =~= fv);
        assert(match_allocs(*heap, pat_view(*pat), v) == fields_allocs(*heap, fv, ev));
    }
    let mut acc: Vec<(String, MatchVal)> = Vec::new();
    let mut i: usize = 0;
    while i < fs.len()
        invariant
            0 <= i <= fs@.len(),
            heap.wf(),
            a0 == old(allocs)@,
            decreases_to!(*pat => fs),
            out == match_spec(*heap, pat_view(*pat), v),
            out == match_fields(*heap, fv, ev),
            match_allocs(*heap, pat_view(*pat), v) == fields_allocs(*heap, fv, ev),
            ptrs@.len() == fs@.len(),
            ev == dict_view(es@),
            fv == pat_fields_view(fs@),
            fv.len() == fs@.len(),
            forall|k: int| 0 <= k < fs@.len() ==> #[trigger] fv[k] == (fs@[k].0@, pat_view(fs@[k].1)),
            forall|k: int| 0 <= k < fs@.len() ==> dict_get(ev, fs@[k].0@) == Some(#[trigger] ptrs@[k]) && heap.valid_ptr(ptrs@[k]),
            forall|k: int| 0 <= k < acc@.len() ==> val_valid(*heap, #[trigger] acc@[k].1),
            forall|k: int| 0 <= k < acc@.len() ==> in_allocs(allocs@, #[trigger] acc@[k].1),
            all_valid(*heap, allocs@),
            !(match_fields(*heap, fv, ev) is Diverges),
            match_fields(*heap, fv, ev) == after(fields_view(acc@), match_fields(*heap, fv.skip(i as int), ev)),
            a0 + fields_allocs(*heap, fv, ev) == allocs@ + fields_allocs(*heap, fv.skip(i as int), ev),
        decreases fs@.len() - i,
    {
        let ghost pre = allocs@;
        proof {
            assert(fv.skip(i as int)[0] == fv[i as int]);
            assert(fv.skip(i as int).drop_first() =~= fv.skip(i + 1));
            assert(decreases_to!(fs => fs[i as int]));
            assert(decreases_to!(fs[i as int] => fs[i as int].1));
        }
        proof {
            assert(dict_get(ev, fs@[i as int].0@) == Some(ptrs@[i as int]));
            assert(fv[i as int].0 == fs@[i as int].0@);
            assert(fv[i as int].1 == pat_view(fs@[i as int].1));
        }
        let r = match_value(heap, &fs[i].1, MatchVal::Ptr(ptrs[i]), allocs);
        proof {
            let vi = MatchVal::Ptr(ptrs@[i as int]);
            let rest = fields_allocs(*heap, fv.skip(i + 1), ev);
            let ma = match_allocs(*heap, fv[i as int].1, vi);
            assert(allocs@ == pre + ma);
            if match_spec(*heap, fv[i as int].1, vi) is Bound {
                assert(pre + fields_allocs(*heap, fv.skip(i as int), ev) =~= allocs@ + rest);
            } else {
                assert(pre + fields_allocs(*heap, fv.skip(i as int), ev) =~= allocs@);
            }
            assert forall|k: int| 0 <= k < acc@.len() implies in_allocs(allocs@, #[trigger] acc@[k].1) by {
                if !(acc@[k].1 is Ptr) {
                    let j = choose|j: int| 0 <= j < pre.len() && pre[j] == acc@[k].1;
                    assert(allocs@[j] == pre[j]);
                }
            }
        }
        match r {
            Err(e) => {
                proof {
                    assert(!(match_spec(*heap, fv[i as int].1, MatchVal::Ptr(ptrs@[i as int])) is Bound));
                    assert(allocs@ == a0 + fields_allocs(*heap, fv, ev));
                }
                return Err(e);
            },
            Ok(None) => {
                proof {
                    assert(!(match_spec(*heap, fv[i as int].1, MatchVal::Ptr(ptrs@[i as int])) is Bound));
                    assert(allocs@ == a0 + fields_allocs(*heap, fv, ev));
                }
                return Ok(None);
            },
            Ok(Some(x)) => {
                let ghost a_before = acc@;
                let ghost x0 = x@;
                let mut x = x;
                acc.append(&mut x);
                proof {
                    lemma_after_append(a_before, x0, acc@, match_fields(*heap, fv.skip(i + 1), ev));
                    assert forall|k: int| 0 <= k < acc@.len() implies val_valid(*heap, #[trigger] acc@[k].1)
                        && in_allocs(allocs@, acc@[k].1) by {
                        if k >= a_before.len() {
                            assert(acc@[k] == x0[k - a_before.len()]);
                        } else {
                            assert(acc@[k] == a_before[k]);
                        }
                    }
                }
            },
        }
        i += 1;
    }
    proof {
        assert(fv.skip(i as int).len() == 0);
        assert(fields_view(acc@) + Seq::<(Seq<char>, MatchVal)>::empty() =~= fields_view(acc@));
        assert(allocs@ + Seq::<MatchVal>::empty() =~= allocs@);
        assert(out == MatchOut::Bound(fields_view(acc@)));
    }
    Ok(Some(acc))
}

/// Matches the value `v`, whose object is `c`, against `pat`.
fn match_cell(heap: &Heap, pat: &Pattern, v: MatchVal, c: &Cell, allocs: &mut Vec<MatchVal>) -> (res: Result<Option<Vec<(String, MatchVal)>>, EngineError>)
    requires
        heap.wf(),
        val_valid(*heap, v),
        in_allocs(old(allocs)@, v),
        all_valid(*heap, old(allocs)@),
        c@ == val_cell(*heap, v),
        heap.holds_valid(c@),
        !(match_spec(*heap, pat_view(*pat), v) is Diverges),
    ensures
        match_result(*heap, match_spec(*heap, pat_view(*pat), v), res),
        final(allocs)@ == old(allocs)@ + match_allocs(*heap, pat_view(*pat), v),
        all_valid(*heap, final(allocs)@),
        bound_in(final(allocs)@, res),
    decreases pat, 1int,
{
    let ghost a0 = allocs@;
    proof {
        assert(fields_view(Seq::<(String, MatchVal)>::empty()) =~= Seq::<(Seq<char>, MatchVal)>::empty());
        assert(a0 + Seq::<MatchVal>::empty() =~= a0);
    }
    match pat {
        Pattern::Wildcard => Ok(Some(Vec::new())),
        Pattern::Var(n) => {
            let mut b: Vec<(String, MatchVal)> = Vec::new();
            b.push((n.clone(), v));
            proof {
                assert(fields_view(b@) =~= seq![(n@, v)]);
            }
            Ok(Some(b))
        },
        Pattern::Named(name, ps) => {
            proof {
                lemma_pats_view(ps@);
            }
            match c {
                Cell::Adt(vn, args) => {
                    if runtime_ctor_matches(vn.as_str(), name.as_str()) && args.len() == ps.len() {
                        proof {
                            assert forall|k: int| 0 <= k < args@.len() implies heap.valid_ptr(#[trigger] args@[k]) by {
                                assert(children(c@)[k] == args@[k]);
                            }
                        }
                        let vals = ptr_vals(heap, args);
                        match_all(heap, ps, &vals, false, allocs)
                    } else {
                        Ok(None)
                    }
                },
                Cell::Empty | Cell::Cons(..) | Cell::ListSlice { .. } => {
                    proof {
                        reveal_strlit("Empty");
                        reveal_strlit("Cons");
                        lemma_plain_segment("Empty"@);
                        lemma_plain_segment("Cons"@);
                        assert("Empty"@ =~= empty_name());
                        assert("Cons"@ =~= cons_name());
                    }
                    if ps.len() == 0 && runtime_ctor_matches(name.as_str(), "Empty") {
                        proof {
                            if !spine_ends(*heap, c@) {
                                assert(match_spec(*heap, pat_view(*pat), v) is Diverges);
                            }
                        }
                        let items = match list_elements_from_cell(heap, c) {
                            Ok(items) => items,
                            Err(e) => return Err(e),
                        };
                        if items.len() == 0 {
                            Ok(Some(Vec::new()))
                        } else {
                            Ok(None)
                        }
                    } else if ps.len() == 2 && runtime_ctor_matches(name.as_str(), "Cons") {
                        match head_tail_of(heap, c) {
                            Err(e) => Err(e),
                            Ok(None) => Ok(None),
                            Ok(Some((a, b))) => {
                                log_head_tail(heap, c, a, b, allocs);
                                let mut vals: Vec<MatchVal> = Vec::new();
                                vals.push(a);
                                vals.push(b);
                                proof {
                                    assert(vals@ =~= seq![a, b]);
                                }
                                let ghost mid = allocs@;
                                let r = match_all(heap, ps, &vals, false, allocs);
                                proof {
                                    assert(allocs@ =~= a0 + match_allocs(*heap, pat_view(*pat), v));
                                }
                                r
                            },
                        }
                    } else {
                        Ok(None)
                    }
                },
                _ => Ok(None),
            }
        },
        Pattern::Tuple(ps) => {
            proof {
                lemma_pats_view(ps@);
            }
            match c {
                Cell::Tuple(items) => {
                    if items.len() == ps.len() {
                        proof {
                            assert forall|k: int| 0 <= k < items@.len() implies heap.valid_ptr(#[trigger] items@[k]) by {
                                assert(children(c@)[k] == items@[k]);
                            }
                        }
                        let vals = ptr_vals(heap, items);
                        match_all(heap, ps, &vals, false, allocs)
                    } else {
                        Ok(None)
                    }
                },
                _ => Ok(None),
            }
        },
        Pattern::List(ps) => {
            proof {
                lemma_pats_view(ps@);
                if !spine_ends(*heap, c@) {
                    assert(match_spec(*heap, pat_view(*pat), v) is Diverges);
                }
                let n = choose|n: nat| !(#[trigger] crate::lists::walk(*heap, c@, n) is Diverges);
                lemma_list_walk(*heap, c@, n);
                lemma_walk_valid(*heap, c@, n);
            }
            let items = match list_elements_from_cell(heap, c) {
                Ok(items) => items,
                Err(e) => return Err(e),
            };
            if items.len() != ps.len() {
                return Ok(None);
            }
            if all_wildcard_patterns(ps) {
                proof {
                    let pv = pats_view(ps@);
                    let vs = items@.map_values(|e: ListElement| elem_val(e));
                    lemma_wildcards_bind_nothing(*heap, pv, vs, 0);
                    assert(pv.skip(0) =~= pv);
                    assert(vs.skip(0) =~= vs);
                }
                return Ok(Some(Vec::new()));
            }
            let vals = elem_vals(heap, &items);
            let is_cons = match c {
                Cell::Cons(..) => true,
                _ => false,
            };
            if is_cons {
                let any_byte = has_byte(&items);
                if any_byte {
                    log_bytes(&items, allocs);
                }
                proof {
                    if !any_byte {
                        assert(allocs@ =~= a0 + Seq::<MatchVal>::empty());
                    }
                    assert forall|t: int| 0 <= t < allocs@.len() implies val_valid(*heap, #[trigger] allocs@[t]) && !(allocs@[t] is Ptr) by {
                        if t < a0.len() {
                            assert(allocs@[t] == a0[t]);
                        } else {
                            lemma_byte_vals_are_bytes(items@, t - a0.len());
                        }
                    }
                    assert forall|k: int| 0 <= k < vals@.len() implies in_allocs(allocs@, #[trigger] vals@[k]) by {
                        if items@[k] is U8 {
                            lemma_byte_vals_contain(items@, k);
                            let j = choose|j: int| 0 <= j < byte_vals(items@).len() && byte_vals(items@)[j] == vals@[k];
                            assert(allocs@[a0.len() + j] == vals@[k]);
                        }
                    }
                }
                let ghost mid = allocs@;
                let r = match_all(heap, ps, &vals, false, allocs);
                proof {
                    assert(allocs@ =~= a0 + match_allocs(*heap, pat_view(*pat), v));
                }
                r
            } else {
                let r = match_all(heap, ps, &vals, true, allocs);
                proof {
                    assert(allocs@ =~= a0 + match_allocs(*heap, pat_view(*pat), v));
                }
                r
            }
        },
        Pattern::Cons(hp, tp) => {
            match head_tail_of(heap, c) {
                Err(e) => Err(e),
                Ok(None) => Ok(None),
                Ok(Some((a, b))) => {
                    log_head_tail(heap, c, a, b, allocs);
                    let ghost a1 = allocs@;
                    let x = match match_value(heap, hp, a, allocs) {
                        Err(e) => {
                            proof {
                                assert(allocs@ =~= a0 + match_allocs(*heap, pat_view(*pat), v));
                            }
                            return Err(e);
                        },
                        Ok(None) => {
                            proof {
                                assert(allocs@ =~= a0 + match_allocs(*heap, pat_view(*pat), v));
                            }
                            return Ok(None);
                        },
                        Ok(Some(x)) => x,
                    };
                    let ghost a2 = allocs@;
                    proof {
                        if !(b is Ptr) {
                            let j = choose|j: int| 0 <= j < a1.len() && a1[j] == b;
                            assert(a2[j] == a1[j]);
                        }
                    }
                    let y = match match_value(heap, tp, b, allocs) {
                        Err(e) => {
                            proof {
                                assert(allocs@ =~= a0 + match_allocs(*heap, pat_view(*pat), v));
                            }
                            return Err(e);
                        },
                        Ok(None) => {
                            proof {
                                assert(allocs@ =~= a0 + match_allocs(*heap, pat_view(*pat), v));
                            }
                            return Ok(None);
                        },
                        Ok(Some(y)) => y,
                    };
                    let ghost x0 = x@;
                    let ghost y0 = y@;
                    let mut x = x;
                    let mut y = y;
                    x.append(&mut y);
                    proof {
                        assert(allocs@ =~= a0 + match_allocs(*heap, pat_view(*pat), v));
                        assert(fields_view(x@) =~= fields_view(x0) + fields_view(y0));
                        assert forall|k: int| 0 <= k < x@.len() implies val_valid(*heap, #[trigger] x@[k].1)
                            && in_allocs(allocs@, x@[k].1) by {
                            if k >= x0.len() {
                                assert(x@[k] == y0[k - x0.len()]);
                            } else {
                                assert(x@[k] == x0[k]);
                                if !(x0[k].1 is Ptr) {
                                    let j = choose|j: int| 0 <= j < a2.len() && a2[j] == x0[k].1;
                                    assert(allocs@[j] == a2[j]);
                                }
                            }
                        }
                    }
                    Ok(Some(x))
                },
            }
        },
        Pattern::Dict(fs) => {
            match c {
                Cell::Dict(es) => match_dict(heap, pat, v, c, fs, es, allocs),
                _ => Ok(None),
            }
        },
    }
}

/// The rooted token `r` of the heap `b` holds the bound value `v` of a match
/// in an earlier heap, whose objects `f` sends to their places in `b`.
pub open spec fn holds_bound(b: Heap, f: Map<InternalPtr, InternalPtr>, v: MatchVal, r: RootedPtr) -> bool {
    &&& b.live_root(r)
    &&& match v {
        MatchVal::Ptr(p) => f.contains_key(p) && b.root_target(r) == f[p],
        MatchVal::Byte(x) => b.cell_at(b.root_target(r)) == CellView::U8(x),
        MatchVal::Slice { start, end, elements } => f.contains_key(elements)
            && b.cell_at(b.root_target(r)) == CellView::ListSlice { start, end, elements: f[elements] },
        MatchVal::EmptyList => b.cell_at(b.root_target(r)) == CellView::Empty,
    }
}

/// The tokens `rs` hold the bindings `d`, in order and under their names.
pub open spec fn holds_bindings(
    b: Heap,
    f: Map<InternalPtr, InternalPtr>,
    d: Seq<(Seq<char>, MatchVal)>,
    rs: Seq<(String, RootedPtr)>,
) -> bool {
    &&& rs.len() == d.len()
    &&& forall|i: int| 0 <= i < d.len() ==> (#[trigger] rs[i]).0@ == d[i].0 && holds_bound(b, f, d[i].1, rs[i].1)
}

/// The object that keeps a bound value alive while the bindings are rooted:
/// the object itself, a slice's backing data, else the matched value.
pub open spec fn anchor(v: MatchVal, p: InternalPtr) -> InternalPtr {
    match v {
        MatchVal::Ptr(q) => q,
        MatchVal::Slice { elements, .. } => elements,
        _ => p,
    }
}

/// A token that holds a bound value still holds it after a further step.
proof fn lemma_bound_follows(
    b: Heap,
    c: Heap,
    f: Map<InternalPtr, InternalPtr>,
    g: Map<InternalPtr, InternalPtr>,
    fresh: Set<int>,
    v: MatchVal,
    r: RootedPtr,
)
    requires
        evolves_except(b, c, g, fresh),
        holds_bound(b, f, v, r),
    ensures
        holds_bound(c, compose(f, g), v, r),
        !fresh.contains(r.slot as int),
{
    lemma_root_follows(b, c, g, fresh, r);
    let t = b.root_target(r);
    let bc = b.cell_at(t);
    assert(c.cell_at(g[t]) == map_cell(bc, g));
    match v {
        MatchVal::Ptr(q) => {
            assert(compose(f, g).contains_key(q));
        },
        MatchVal::Slice { start, end, elements } => {
            assert(children(bc)[0] == f[elements]);
            assert(g.contains_key(f[elements]));
            assert(compose(f, g).contains_key(elements));
            assert(children(bc).map_values(|q: InternalPtr| g[q])[0] == g[f[elements]]);
        },
        _ => {
            lemma_map_cell_identity(bc, g);
        },
    }
}

/// An allocation step of rooting: the tokens of the objects stored so far
/// and the tokens of the anchors still needed keep holding their values,
/// through the composed forwarding map.
proof fn lemma_alloc_step(
    h0: Heap,
    b: Heap,
    c: Heap,
    f: Map<InternalPtr, InternalPtr>,
    fresh: Set<int>,
    g: Map<InternalPtr, InternalPtr>,
    fresh2: Set<int>,
    stored: Seq<MatchVal>,
    tokens: Seq<RootedPtr>,
    anchors: Seq<InternalPtr>,
    rs: Seq<RootedPtr>,
    k: int,
)
    requires
        reached(h0, b, f, fresh),
        evolves_except(b, c, g, fresh2),
        c.stress() == b.stress(),
        c.deferred() == b.deferred(),
        tokens.len() <= stored.len(),
        rs.len() == anchors.len(),
        forall|i: int| 0 <= i < tokens.len() ==> holds_bound(b, f, stored[i], #[trigger] tokens[i]),
        forall|j: int| k <= j < rs.len() ==> holds_bound(b, f, MatchVal::Ptr(anchors[j]), #[trigger] rs[j]),
    ensures
        reached(h0, c, compose(f, g), fresh + fresh2),
        forall|i: int| 0 <= i < tokens.len() ==> holds_bound(c, compose(f, g), stored[i], #[trigger] tokens[i]),
        forall|j: int| k <= j < rs.len() ==> holds_bound(c, compose(f, g), MatchVal::Ptr(anchors[j]), #[trigger] rs[j]),
{
    lemma_evolves_compose(h0, b, c, f, g, fresh, fresh2);
    assert forall|i: int| 0 <= i < tokens.len() implies holds_bound(c, compose(f, g), stored[i], #[trigger] tokens[i]) by {
        lemma_bound_follows(b, c, f, g, fresh2, stored[i], tokens[i]);
    }
    assert forall|j: int| k <= j < rs.len() implies holds_bound(c, compose(f, g), MatchVal::Ptr(anchors[j]), #[trigger] rs[j]) by {
        lemma_bound_follows(b, c, f, g, fresh2, MatchVal::Ptr(anchors[j]), rs[j]);
    }
}

/// An allocation failed with `e`.
pub open spec fn alloc_failed<T>(h: Heap, res: Result<T, EngineError>) -> bool {
    res matches Err(e) && is_alloc_error(h, e)
}

/// What matching the value `v` of the heap `a` against `p` leaves: the heap
/// `b` reached from `a` by storing the objects of the match in order, and
/// the outcome of the match, unless storing ran out.
pub open spec fn matched(a: Heap, b: Heap, p: PatV, v: MatchVal, res: Result<Option<Vec<(String, RootedPtr)>>, EngineError>) -> bool {
    let out = match_spec(a, p, v);
    let stored = match_allocs(a, p, v);
    &&& exists|f: Map<InternalPtr, InternalPtr>, fresh: Set<int>| #[trigger] reached(a, b, f, fresh) && match out {
        MatchOut::No => res matches Ok(None) || alloc_failed(b, res),
        MatchOut::Fail(e) => res matches Err(x) && (x == e || is_alloc_error(b, x)),
        MatchOut::Bound(s) => (res matches Ok(Some(bs)) && holds_bindings(b, f, dict_of(s), bs@)) || alloc_failed(b, res),
        MatchOut::Diverges => false,
    }
    &&& stored.len() == 0 && !(out matches MatchOut::Bound(s) && s.len() > 0) ==> b == a
    &&& !alloc_failed(b, res) ==> b.epoch() <= a.epoch() + stored.len()
    &&& a.stress() && !a.deferred() && !alloc_failed(b, res) ==> b.epoch() == a.epoch() + stored.len()
}

impl Heap {
    /// Matches the value that `value` stands for against `pat`.
    ///
    /// The match stores, in order, the objects that it reaches as it goes:
    /// the head (when it is a byte of binary data) and the tail of each list
    /// slice that it splits, and each byte of binary list data that a
    /// pattern other than `_` looks at (all bytes of a list of `Cons` cells
    /// at once). An allocation may run a collection; in stress mode each
    /// one does. On a match, the bindings come back as a dictionary (in name
    /// order, a later binding of a name winning), each bound value rooted.
    /// A match that stores nothing and binds nothing leaves the heap as it
    /// was.
    #[verifier::loop_isolation(false)]
    pub fn match_pattern_ptr(&mut self, pat: &Pattern, value: RootedPtr) -> (res: Result<Option<Vec<(String, RootedPtr)>>, EngineError>)
        requires
            old(self).wf(),
            old(self).live_root(value),
            !(match_spec(*old(self), pat_view(*pat), MatchVal::Ptr(old(self).root_target(value))) is Diverges),
        ensures
            final(self).wf(),
            matched(*old(self), *final(self), pat_view(*pat), MatchVal::Ptr(old(self).root_target(value)), res),
    {
        let ghost h0 = *self;
        let p = self.resolve_runtime_root(value);
        proof {
            assert(h0.root_pointer(value.slot as int) is Some);
            lemma_evolves_refl(h0);
            assert(reached(h0, h0, identity_on(h0), Set::empty()));
        }
        let ghost pv = pat_view(*pat);
        let ghost v0 = MatchVal::Ptr(p);
        let mut allocs: Vec<MatchVal> = Vec::new();
        let found = match_value(&*self, pat, MatchVal::Ptr(p), &mut allocs);
        proof {
            assert(allocs@ =~= match_allocs(h0, pv, v0));
        }
        let mut err: Option<EngineError> = None;
        let mut bound: Option<Vec<(String, MatchVal)>> = None;
        match found {
            Ok(None) => {},
            Ok(Some(b)) => {
                bound = Some(b);
            },
            Err(e) => {
                err = Some(e);
            },
        }
        let mut d: Vec<(String, MatchVal)> = Vec::new();
        let ghost mut s: Seq<(Seq<char>, MatchVal)> = Seq::empty();
        if let Some(bs) = &bound {
            proof {
                s = fields_view(bs@);
            }
            let mut i: usize = 0;
            proof {
                assert(s.take(0) =~= Seq::<(Seq<char>, MatchVal)>::empty());
                assert(fields_view(d@) =~= Seq::<(Seq<char>, MatchVal)>::empty());
            }
            while i < bs.len()
                invariant
                    0 <= i <= bs@.len(),
                    s == fields_view(bs@),
                    fields_view(d@) == dict_of(s.take(i as int)),
                    forall|k: int| 0 <= k < bs@.len() ==> val_valid(h0, #[trigger] bs@[k].1),
                    forall|k: int| 0 <= k < bs@.len() ==> in_allocs(allocs@, #[trigger] bs@[k].1),
                    forall|k: int| 0 <= k < d@.len() ==> val_valid(h0, #[trigger] d@[k].1) && in_allocs(allocs@, d@[k].1),
                decreases bs@.len() - i,
            {
                let ghost d0 = fields_view(d@);
                dict_insert_field(&mut d, bs[i].0.clone(), bs[i].1);
                proof {
                    assert(s.take(i + 1).drop_last() =~= s.take(i as int));
                    assert(s.take(i + 1).last() == s[i as int]);
                    assert forall|k: int| 0 <= k < d@.len() implies val_valid(h0, #[trigger] d@[k].1) && in_allocs(allocs@, d@[k].1) by {
                        assert(fields_view(d@)[k].1 == d@[k].1);
                        lemma_insert_entries(d0, bs@[i as int].0@, bs@[i as int].1, k);
                        if fields_view(d@)[k] != (bs@[i as int].0@, bs@[i as int].1) {
                            let j = choose|j: int| 0 <= j < d0.len() && #[trigger] d0[j] == fields_view(d@)[k];
                        }
                    }
                }
                i += 1;
            }
            proof {
                assert(s.take(i as int) =~= s);
            }
        }
        let ghost dv = fields_view(d@);
        proof {
            if bound is None {
                assert(dv =~= Seq::<(Seq<char>, MatchVal)>::empty());
            }
            if s.len() == 0 {
                assert(dict_of(s).len() == 0);
            }
        }
        if allocs.len() == 0 && d.len() == 0 {
            proof {
                assert(holds_bindings(h0, identity_on(h0), dv, Seq::empty()));
            }
            return match err {
                Some(e) => Err(e),
                None => match bound {
                    None => Ok(None),
                    Some(_) => Ok(Some(Vec::new())),
                },
            };
        }
        // Root the objects that the stored values and the bindings need.
        let mut anchors: Vec<InternalPtr> = Vec::new();
        let mut j: usize = 0;
        while j < allocs.len()
            invariant
                0 <= j <= allocs@.len(),
                h0 == *self,
                h0.valid_ptr(p),
                all_valid(h0, allocs@),
                anchors@.len() == j,
                forall|k: int| 0 <= k < j ==> #[trigger] anchors@[k] == anchor(allocs@[k], p) && h0.valid_ptr(anchors@[k]),
            decreases allocs@.len() - j,
        {
            let a = match allocs[j] {
                MatchVal::Ptr(q) => q,
                MatchVal::Slice { elements, .. } => elements,
                _ => p,
            };
            anchors.push(a);
            j += 1;
        }
        let na = allocs.len();
        let mut j: usize = 0;
        while j < d.len()
            invariant
                0 <= j <= d@.len(),
                h0 == *self,
                h0.valid_ptr(p),
                na == allocs@.len(),
                dv == fields_view(d@),
                forall|k: int| 0 <= k < d@.len() ==> val_valid(h0, #[trigger] d@[k].1) && in_allocs(allocs@, d@[k].1),
                anchors@.len() == na + j,
                forall|k: int| 0 <= k < na ==> #[trigger] anchors@[k] == anchor(allocs@[k], p) && h0.valid_ptr(anchors@[k]),
                forall|k: int| 0 <= k < j ==> #[trigger] anchors@[na + k] == anchor(dv[k].1, p) && h0.valid_ptr(anchors@[na + k]),
            decreases d@.len() - j,
        {
            let a = match d[j].1 {
                MatchVal::Ptr(q) => q,
                MatchVal::Slice { elements, .. } => elements,
                _ => p,
            };
            proof {
                assert(dv[j as int].1 == d@[j as int].1);
            }
            anchors.push(a);
            proof {
                assert(anchors@[na + j] == a);
                assert forall|k: int| 0 <= k < na implies #[trigger] anchors@[k] == anchor(allocs@[k], p) && h0.valid_ptr(anchors@[k]) by {}
            }
            j += 1;
        }
        proof {
            assert forall|k: int| 0 <= k < anchors@.len() implies h0.valid_ptr(#[trigger] anchors@[k]) by {
                if k >= na {
                    assert(anchors@[na + (k - na)] == anchors@[k]);
                }
            }
        }
        let rs = self.root_all(&anchors);
        let ghost mut f: Map<InternalPtr, InternalPtr> = identity_on(h0);
        let ghost mut fresh: Set<int> = crate::heap::token_slots(rs@);
        proof {
            assert(reached(h0, *self, f, fresh));
            assert forall|k: int| 0 <= k < rs@.len() implies holds_bound(*self, f, MatchVal::Ptr(anchors@[k]), #[trigger] rs@[k]) by {
                assert(crate::heap::targets(*self, rs@)[k] == anchors@[k]);
                assert(crate::heap::all_live(*self, rs@));
            }
        }
        // Store the objects, in order.
        let mut tokens: Vec<RootedPtr> = Vec::new();
        let mut k: usize = 0;
        while k < allocs.len()
            invariant
                0 <= k <= allocs@.len(),
                h0 == *old(self),
                p == h0.root_target(value),
                allocs@ == match_allocs(h0, pv, v0),
                all_valid(h0, allocs@),
                rs@.len() == anchors@.len(),
                anchors@.len() == na + d@.len(),
                na == allocs@.len(),
                forall|i: int| 0 <= i < na ==> #[trigger] anchors@[i] == anchor(allocs@[i], p),
                self.wf(),
                reached(h0, *self, f, fresh),
                tokens@.len() == k,
                forall|i: int| 0 <= i < tokens@.len() ==> holds_bound(*self, f, allocs@[i], #[trigger] tokens@[i]),
                forall|i: int| k <= i < rs@.len() ==> holds_bound(*self, f, MatchVal::Ptr(anchors@[i]), #[trigger] rs@[i]),
                self.epoch() <= h0.epoch() + k,
                h0.stress() && !h0.deferred() ==> self.epoch() == h0.epoch() + k,
            decreases allocs@.len() - k,
        {
            let ghost hb = *self;
            let v = allocs[k];
            proof {
                assert(holds_bound(hb, f, MatchVal::Ptr(anchors@[k as int]), rs@[k as int]));
            }
            let made = match v {
                MatchVal::Ptr(_) => {
                    proof {
                        assert(false);
                    }
                    Ok(rs[k])
                },
                MatchVal::Byte(x) => self.alloc_root_u8(x),
                MatchVal::EmptyList => self.alloc_root_empty(),
                MatchVal::Slice { start, end, elements } => {
                    proof {
                        let c0 = h0.cell_at(elements);
                        assert(val_valid(h0, allocs@[k as int]));
                        assert(hb.root_target(rs@[k as int]) == f[elements]);
                        assert(hb.cell_at(f[elements]) == map_cell(c0, f));
                        assert(backing_len(map_cell(c0, f)) == backing_len(c0));
                    }
                    self.alloc_root_list_slice(start, end, rs[k])
                },
            };
            let ghost c = val_cell(hb, v);
            let ghost cs = match v {
                MatchVal::Slice { start, end, elements } => CellView::ListSlice { start, end, elements: f[elements] },
                _ => c,
            };
            let ghost g = choose|g: Map<InternalPtr, InternalPtr>| #[trigger] rooted_alloc_with(hb, *self, g, cs, made);
            match made {
                Ok(r) => {
                    proof {
                        assert(rooted_alloc_with(hb, *self, g, cs, made));
                        lemma_alloc_step(h0, hb, *self, f, fresh, g, set![r.slot as int], allocs@, tokens@, anchors@, rs@, k + 1);
                        if let MatchVal::Slice { start, end, elements } = v {
                            assert(children(cs)[0] == f[elements]);
                            assert(children(cs).map_values(|q: InternalPtr| g[q])[0] == g[f[elements]]);
                        } else {
                            lemma_map_cell_identity(cs, g);
                        }
                        f = compose(f, g);
                        fresh = fresh + set![r.slot as int];
                    }
                    tokens.push(r);
                    proof {
                        assert forall|i: int| 0 <= i < tokens@.len() implies holds_bound(*self, f, allocs@[i], #[trigger] tokens@[i]) by {
                            if i < k {
                                assert(tokens@[i] == tokens@.drop_last()[i]);
                            }
                        }
                    }
                },
                Err(e) => {
                    proof {
                        assert(rooted_alloc_with(hb, *self, g, cs, made));
                        lemma_alloc_step(h0, hb, *self, f, fresh, g, Set::empty(), allocs@, tokens@, anchors@, rs@, k + 1);
                        assert(reached(h0, *self, compose(f, g), fresh + Set::empty()));
                        assert(alloc_failed(*self, Err::<Option<Vec<(String, RootedPtr)>>, EngineError>(e)));
                    }
                    return Err(e);
                },
            }
            k += 1;
        }
        if let Some(e) = err {
            return Err(e);
        }
        let bs = match bound {
            None => return Ok(None),
            Some(bs) => bs,
        };
        // Hand out a token for each binding.
        let mut out: Vec<(String, RootedPtr)> = Vec::new();
        let mut j: usize = 0;
        proof {
            assert(dv.take(0) =~= Seq::<(Seq<char>, MatchVal)>::empty());
        }
        while j < d.len()
            invariant
                0 <= j <= d@.len(),
                h0 == *old(self),
                dv == fields_view(d@),
                forall|i: int| 0 <= i < d@.len() ==> in_allocs(allocs@, #[trigger] d@[i].1),
                tokens@.len() == allocs@.len(),
                na == allocs@.len(),
                rs@.len() == anchors@.len(),
                anchors@.len() == na + d@.len(),
                forall|i: int| 0 <= i < d@.len() ==> #[trigger] anchors@[na + i] == anchor(dv[i].1, p),
                forall|i: int| 0 <= i < tokens@.len() ==> holds_bound(*self, f, allocs@[i], #[trigger] tokens@[i]),
                forall|i: int| na <= i < rs@.len() ==> holds_bound(*self, f, MatchVal::Ptr(anchors@[i]), #[trigger] rs@[i]),
                holds_bindings(*self, f, dv.take(j as int), out@),
            decreases d@.len() - j,
        {
            let v = d[j].1;
            proof {
                assert(dv[j as int] == (d@[j as int].0@, v));
            }
            let r = match v {
                MatchVal::Ptr(_) => {
                    let total = rs.len();
                    proof {
                        assert(na + j < total);
                        assert(holds_bound(*self, f, MatchVal::Ptr(anchors@[na + j]), rs@[na + j]));
                    }
                    rs[na + j]
                },
                _ => {
                    let mut i: usize = 0;
                    while i < allocs.len() && allocs[i] != v
                        invariant
                            0 <= i <= allocs@.len(),
                            forall|t: int| 0 <= t < i ==> allocs@[t] != v,
                        decreases allocs@.len() - i,
                    {
                        i += 1;
                    }
                    if i == allocs.len() {
                        proof {
                            assert(in_allocs(allocs@, v));
                            let t = choose|t: int| 0 <= t < allocs@.len() && allocs@[t] == v;
                            assert(false);
                        }
                        return Err(EngineError::HeapExhausted);
                    }
                    proof {
                        assert(holds_bound(*self, f, allocs@[i as int], tokens@[i as int]));
                    }
                    tokens[i]
                },
            };
            out.push((d[j].0.clone(), r));
            proof {
                assert(dv.take(j + 1).take(j as int) =~= dv.take(j as int));
                assert forall|t: int| 0 <= t < dv.take(j + 1).len() implies (#[trigger] out@[t]).0@ == dv.take(j + 1)[t].0
                    && holds_bound(*self, f, dv.take(j + 1)[t].1, out@[t].1) by {
                    if t < j {
                        assert(dv.take(j as int)[t] == dv.take(j + 1)[t]);
                    }
                }
            }
            j += 1;
        }
        proof {
            assert(dv.take(j as int) =~= dv);
        }
        Ok(Some(out))
    }
}

/// The variables of a pattern, in the order the pattern names them.
pub open spec fn pat_vars(p: PatV) -> Seq<Seq<char>>
    decreases p,
{
    match p {
        PatV::Wildcard => Seq::empty(),
        PatV::Var(n) => seq![n],
        PatV::Named(_, ps) => pats_vars(ps),
        PatV::Tuple(ps) => pats_vars(ps),
        PatV::List(ps) => pats_vars(ps),
        PatV::Cons(hp, tp) => pat_vars(*hp) + pat_vars(*tp),
        PatV::Dict(fs) => fields_vars(fs),
    }
}

pub open spec fn pats_vars(ps: Seq<PatV>) -> Seq<Seq<char>>
    decreases ps,
{
    if ps.len() == 0 {
        Seq::empty()
    } else {
        pat_vars(ps[0]) + pats_vars(ps.drop_first())
    }
}

pub open spec fn fields_vars(fs: Seq<(Seq<char>, PatV)>) -> Seq<Seq<char>>
    decreases fs,
{
    if fs.len() == 0 {
        Seq::empty()
    } else {
        pat_vars(fs[0].1) + fields_vars(fs.drop_first())
    }
}

/// The names of bindings, in order.
pub open spec fn bound_names(s: Seq<(Seq<char>, MatchVal)>) -> Seq<Seq<char>> {
    s.map_values(|x: (Seq<char>, MatchVal)| x.0)
}

proof fn lemma_bound_names_concat(x: Seq<(Seq<char>, MatchVal)>, y: Seq<(Seq<char>, MatchVal)>)
    ensures
        bound_names(x + y) == bound_names(x) + bound_names(y),
{
    assert(bound_names(x + y) =~= bound_names(x) + bound_names(y));
}

/// A match binds exactly the variables of the pattern, in the order the
/// pattern names them: no variable is left unbound, and nothing else is
/// bound.
pub proof fn law_match_binds_the_pattern_variables(h: Heap, p: PatV, v: MatchVal)
    ensures
        match_spec(h, p, v) matches MatchOut::Bound(s) ==> bound_names(s) == pat_vars(p),
    decreases p, 1nat,
{
    let c = val_cell(h, v);
    match p {
        PatV::Wildcard => {
            assert(bound_names(Seq::<(Seq<char>, MatchVal)>::empty()) =~= Seq::<Seq<char>>::empty());
        },
        PatV::Var(n) => {
            assert(bound_names(seq![(n, v)]) =~= seq![n]);
        },
        PatV::Named(name, ps) => {
            match c {
                CellView::Adt(vn, args) => {
                    lemma_seq_binds_the_pattern_variables(h, ps, args.map_values(|a: InternalPtr| MatchVal::Ptr(a)));
                },
                _ => {
                    if let HeadTail::Split(a, b) = head_tail(h, c) {
                        lemma_seq_binds_the_pattern_variables(h, ps, seq![a, b]);
                    }
                    assert(bound_names(Seq::<(Seq<char>, MatchVal)>::empty()) =~= Seq::<Seq<char>>::empty());
                    if ps.len() == 0 {
                        assert(pats_vars(ps) == Seq::<Seq<char>>::empty());
                    }
                },
            }
        },
        PatV::Tuple(ps) => {
            if let CellView::Tuple(items) = c {
                lemma_seq_binds_the_pattern_variables(h, ps, items.map_values(|a: InternalPtr| MatchVal::Ptr(a)));
            }
        },
        PatV::List(ps) => {
            if let ListWalk::Done(s) = list_walk(h, c) {
                lemma_seq_binds_the_pattern_variables(h, ps, s.map_values(|e: ListElement| elem_val(e)));
            }
        },
        PatV::Cons(hp, tp) => {
            if let HeadTail::Split(a, b) = head_tail(h, c) {
                law_match_binds_the_pattern_variables(h, *hp, a);
                law_match_binds_the_pattern_variables(h, *tp, b);
                if let MatchOut::Bound(x) = match_spec(h, *hp, a) {
                    if let MatchOut::Bound(y) = match_spec(h, *tp, b) {
                        lemma_bound_names_concat(x, y);
                    }
                }
            }
        },
        PatV::Dict(fs) => {
            if let CellView::Dict(es) = c {
                lemma_fields_bind_the_pattern_variables(h, fs, es);
            }
        },
    }
}

proof fn lemma_seq_binds_the_pattern_variables(h: Heap, ps: Seq<PatV>, vs: Seq<MatchVal>)
    ensures
        ps.len() == vs.len() ==> (match_seq(h, ps, vs) matches MatchOut::Bound(s) ==> bound_names(s) == pats_vars(ps)),
    decreases ps, 0nat,
{
    if ps.len() == 0 || vs.len() == 0 {
        assert(bound_names(Seq::<(Seq<char>, MatchVal)>::empty()) =~= Seq::<Seq<char>>::empty());
    } else {
        law_match_binds_the_pattern_variables(h, ps[0], vs[0]);
        lemma_seq_binds_the_pattern_variables(h, ps.drop_first(), vs.drop_first());
        if let MatchOut::Bound(x) = match_spec(h, ps[0], vs[0]) {
            if let MatchOut::Bound(y) = match_seq(h, ps.drop_first(), vs.drop_first()) {
                lemma_bound_names_concat(x, y);
            }
        }
    }
}

proof fn lemma_fields_bind_the_pattern_variables(h: Heap, fs: Seq<(Seq<char>, PatV)>, es: Seq<(Seq<char>, InternalPtr)>)
    ensures
        match_fields(h, fs, es) matches MatchOut::Bound(s) ==> bound_names(s) == fields_vars(fs),
    decreases fs, 0nat,
{
    if fs.len() == 0 {
        assert(bound_names(Seq::<(Seq<char>, MatchVal)>::empty()) =~= Seq::<Seq<char>>::empty());
    } else {
        let v = MatchVal::Ptr(dict_get(es, fs[0].0).unwrap());
        law_match_binds_the_pattern_variables(h, fs[0].1, v);
        lemma_fields_bind_the_pattern_variables(h, fs.drop_first(), es);
        if let MatchOut::Bound(x) = match_spec(h, fs[0].1, v) {
            if let MatchOut::Bound(y) = match_fields(h, fs.drop_first(), es) {
                lemma_bound_names_concat(x, y);
            }
        }
    }
}

} // verus!
