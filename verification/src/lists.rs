//! Rex list representations.
//!
//! A Rex list is a chain of `Cons` cells ending either in `Empty` or in a
//! `ListSlice`, a window `start..end` over `Data` (pointer elements) or
//! `BinaryData` (byte elements). These functions read lists without
//! allocating, except where a byte element must become a heap value.

use vstd::prelude::*;

use crate::cell::{type_name_of, Cell, CellView, InternalPtr};
use crate::error::EngineError;
use crate::heap::{
    all_live, compose, evolves_except, identity_on, lemma_evolves_compose, lemma_root_follows,
    rooted_all, rooted_alloc, rooted_alloc_with, targets, token_slots, Heap,
};
use crate::cell::{RootedPtr, children};

verus! {

/// One element of a list: a heap object, or a byte held inline by binary
/// backing data.
#[derive(Clone, Copy, Debug, PartialEq, Eq, Structural)]
pub enum ListElement {
    InternalPtr(InternalPtr),
    U8(u8),
}

/// The outcome of walking a list spine with a bounded number of steps.
#[verifier::ext_equal]
pub enum ListWalk {
    Done(Seq<ListElement>),
    Fail(EngineError),
    Diverges,
}

/// `index` as an `i32`, saturating at `i32::MAX`.
pub open spec fn saturate_i32(index: int) -> i32 {
    if index > i32::MAX { i32::MAX } else { index as i32 }
}

pub fn usize_to_i32_saturating(index: usize) -> (r: i32)
    ensures
        r == saturate_i32(index as int),
{
    if index > i32::MAX as usize {
        i32::MAX
    } else {
        index as i32
    }
}

/// What is wrong with the slice `start..end` of backing data of length
/// `len`, if anything.
pub open spec fn bounds_error(len: int, start: usize, end: usize) -> Option<EngineError> {
    if start > end {
        Some(EngineError::InvalidListSlice { start, end })
    } else if end > len {
        Some(EngineError::IndexOutOfBounds { index: saturate_i32(end as int), len: len as usize })
    } else {
        None
    }
}

/// Checks a slice range against the length of its backing data.
pub fn validate_list_slice_bounds(data_len: usize, start: usize, end: usize) -> (res: Result<(), EngineError>)
    ensures
        match bounds_error(data_len as int, start, end) {
            None => res is Ok,
            Some(e) => res matches Err(x) && x == e,
        },
{
    if start > end {
        return Err(EngineError::InvalidListSlice { start, end });
    }
    if end > data_len {
        return Err(EngineError::IndexOutOfBounds { index: usize_to_i32_saturating(end), len: data_len });
    }
    Ok(())
}

/// The error for a slice over something that is not backing data.
pub open spec fn backing_error(c: CellView) -> EngineError {
    EngineError::NativeType { expected: "list slice backing data", got: type_name_of(c) }
}

/// The length of list backing data.
pub fn list_slice_backing_len(cell: &Cell) -> (res: Result<usize, EngineError>)
    ensures
        match cell@ {
            CellView::Data(v) => res matches Ok(n) && n == v.len(),
            CellView::BinaryData(v) => res matches Ok(n) && n == v.len(),
            other => res matches Err(e) && e == backing_error(other),
        },
{
    match cell {
        Cell::Data(v) => Ok(v.len()),
        Cell::BinaryData(v) => Ok(v.len()),
        _ => Err(EngineError::NativeType { expected: "list slice backing data", got: cell.cell_type_name() }),
    }
}

pub open spec fn ptr_elements(v: Seq<InternalPtr>) -> Seq<ListElement> {
    v.map_values(|p: InternalPtr| ListElement::InternalPtr(p))
}

pub open spec fn byte_elements(v: Seq<u8>) -> Seq<ListElement> {
    v.map_values(|b: u8| ListElement::U8(b))
}

/// The elements of the slice `start..end` over the backing data `c`.
pub open spec fn slice_walk(c: CellView, start: usize, end: usize) -> ListWalk {
    match c {
        CellView::Data(v) => match bounds_error(v.len() as int, start, end) {
            Some(e) => ListWalk::Fail(e),
            None => ListWalk::Done(ptr_elements(v.subrange(start as int, end as int))),
        },
        CellView::BinaryData(v) => match bounds_error(v.len() as int, start, end) {
            Some(e) => ListWalk::Fail(e),
            None => ListWalk::Done(byte_elements(v.subrange(start as int, end as int))),
        },
        other => ListWalk::Fail(backing_error(other)),
    }
}

/// The elements of the list `c`, following at most `fuel` `Cons` cells.
pub open spec fn walk(h: Heap, c: CellView, fuel: nat) -> ListWalk
    decreases fuel,
{
    match c {
        CellView::Empty => ListWalk::Done(Seq::empty()),
        CellView::Cons(head, tail) => if fuel == 0 {
            ListWalk::Diverges
        } else {
            prepend(seq![ListElement::InternalPtr(head)], walk(h, h.cell_at(tail), (fuel - 1) as nat))
        },
        CellView::ListSlice { start, end, elements } => slice_walk(h.cell_at(elements), start, end),
        other => ListWalk::Fail(EngineError::NativeType { expected: "list", got: type_name_of(other) }),
    }
}

/// `w` with `front` put before its elements.
pub open spec fn prepend(front: Seq<ListElement>, w: ListWalk) -> ListWalk {
    match w {
        ListWalk::Done(s) => ListWalk::Done(front + s),
        other => other,
    }
}

/// The spine of the list `c` ends: it reaches `Empty`, a slice, or a
/// non-list after finitely many `Cons` cells.
pub open spec fn spine_ends(h: Heap, c: CellView) -> bool {
    exists|n: nat| !(#[trigger] walk(h, c, n) is Diverges)
}

/// The elements of the list `c`, or the error in reading it.
pub open spec fn list_walk(h: Heap, c: CellView) -> ListWalk {
    walk(h, c, choose|n: nat| !(#[trigger] walk(h, c, n) is Diverges))
}

pub proof fn lemma_walk_fuel(h: Heap, c: CellView, n: nat, m: nat)
    requires
        n <= m,
        !(walk(h, c, n) is Diverges),
    ensures
        walk(h, c, m) == walk(h, c, n),
    decreases n,
{
    match c {
        CellView::Cons(head, tail) => {
            lemma_walk_fuel(h, h.cell_at(tail), (n - 1) as nat, (m - 1) as nat);
        },
        _ => {},
    }
}

pub proof fn lemma_list_walk(h: Heap, c: CellView, n: nat)
    requires
        !(walk(h, c, n) is Diverges),
    ensures
        list_walk(h, c) == walk(h, c, n),
{
    let k = choose|k: nat| !(#[trigger] walk(h, c, k) is Diverges);
    if k <= n {
        lemma_walk_fuel(h, c, k, n);
    } else {
        lemma_walk_fuel(h, c, n, k);
    }
}

/// Every pointer element of a list of a consistent heap names a live object.
pub proof fn lemma_walk_valid(h: Heap, c: CellView, n: nat)
    requires
        h.wf(),
        h.holds_valid(c),
    ensures
        walk(h, c, n) matches ListWalk::Done(s) ==> forall|k: int| 0 <= k < s.len() && (#[trigger] s[k]) is InternalPtr ==> h.valid_ptr(s[k]->InternalPtr_0),
    decreases n,
{
    match c {
        CellView::Cons(head, tail) => {
            if n > 0 {
                assert(h.valid_ptr(crate::cell::children(c)[0]));
                assert(h.valid_ptr(crate::cell::children(c)[1]));
                let next = h.cell_at(tail);
                assert forall|k: int| 0 <= k < crate::cell::children(next).len() implies h.valid_ptr(#[trigger] crate::cell::children(next)[k]) by {
                    assert(h.valid_ptr(crate::cell::children(h.slot_cell(tail.index as int))[k]));
                }
                lemma_walk_valid(h, next, (n - 1) as nat);
                match walk(h, next, (n - 1) as nat) {
                    ListWalk::Done(rest) => {
                        let s = seq![ListElement::InternalPtr(head)] + rest;
                        assert forall|k: int| 0 <= k < s.len() && (#[trigger] s[k]) is InternalPtr implies h.valid_ptr(s[k]->InternalPtr_0) by {
                            if k > 0 {
                                assert(s[k] == rest[k - 1]);
                            }
                        }
                    },
                    _ => {},
                }
            }
        },
        CellView::ListSlice { start, end, elements } => {
            assert(h.valid_ptr(crate::cell::children(c)[0]));
            let b = h.cell_at(elements);
            match b {
                CellView::Data(v) => {
                    if start <= end && end <= v.len() {
                        let s = ptr_elements(v.subrange(start as int, end as int));
                        assert forall|k: int| 0 <= k < s.len() && (#[trigger] s[k]) is InternalPtr implies h.valid_ptr(s[k]->InternalPtr_0) by {
                            assert(crate::cell::children(h.slot_cell(elements.index as int))[start + k] == v[start + k]);
                            assert(h.valid_ptr(crate::cell::children(h.slot_cell(elements.index as int))[start + k]));
                        }
                    }
                },
                _ => {},
            }
        },
        _ => {},
    }
}

/// The result of reading a walk: its elements, or its error.
pub open spec fn walk_result(w: ListWalk) -> Result<Seq<ListElement>, EngineError> {
    match w {
        ListWalk::Done(s) => Ok(s),
        ListWalk::Fail(e) => Err(e),
        ListWalk::Diverges => Err(EngineError::ListLengthOverflow),
    }
}

fn append_list_slice_elements(heap: &Heap, elements: &InternalPtr, start: usize, end: usize, out: &mut Vec<ListElement>) -> (res: Result<(), EngineError>)
    requires
        heap.wf(),
        heap.valid_ptr(*elements),
    ensures
        match slice_walk(heap.cell_at(*elements), start, end) {
            ListWalk::Done(s) => res is Ok && final(out)@ == old(out)@ + s,
            ListWalk::Fail(e) => res matches Err(x) && x == e,
            ListWalk::Diverges => false,
        },
{
    let backing = match heap.get_cell_from_pointer(elements) {
        Ok(c) => c,
        Err(e) => return Err(e),
    };
    match backing {
        Cell::Data(values) => {
            match validate_list_slice_bounds(values.len(), start, end) {
                Ok(()) => {},
                Err(e) => return Err(e),
            }
            let ghost before = out@;
            let mut i = start;
            while i < end
                invariant
                    start <= i <= end <= values@.len(),
                    out@ == before + ptr_elements(values@.subrange(start as int, i as int)),
                decreases end - i,
            {
                out.push(ListElement::InternalPtr(values[i]));
                i += 1;
                assert(ptr_elements(values@.subrange(start as int, i as int)) =~= ptr_elements(
                    values@.subrange(start as int, i - 1 as int),
                ).push(ListElement::InternalPtr(values@[i - 1])));
            }
            Ok(())
        },
        Cell::BinaryData(values) => {
            match validate_list_slice_bounds(values.len(), start, end) {
                Ok(()) => {},
                Err(e) => return Err(e),
            }
            let ghost before = out@;
            let mut i = start;
            while i < end
                invariant
                    start <= i <= end <= values@.len(),
                    out@ == before + byte_elements(values@.subrange(start as int, i as int)),
                decreases end - i,
            {
                out.push(ListElement::U8(values[i]));
                i += 1;
                assert(byte_elements(values@.subrange(start as int, i as int)) =~= byte_elements(
                    values@.subrange(start as int, i - 1 as int),
                ).push(ListElement::U8(values@[i - 1])));
            }
            Ok(())
        },
        other => Err(EngineError::NativeType { expected: "list slice backing data", got: other.cell_type_name() }),
    }
}

/// The elements of a list whose first cell is `cell`, an object of `heap`.
pub fn list_elements_from_cell(heap: &Heap, cell: &Cell) -> (res: Result<Vec<ListElement>, EngineError>)
    requires
        heap.wf(),
        heap.holds_valid(cell@),
        spine_ends(*heap, cell@),
    ensures
        match list_walk(*heap, cell@) {
            ListWalk::Done(s) => res matches Ok(v) && v@ == s,
            ListWalk::Fail(e) => res matches Err(x) && x == e,
            ListWalk::Diverges => false,
        },
{
    let ghost n = choose|n: nat| !(#[trigger] walk(*heap, cell@, n) is Diverges);
    proof {
        lemma_list_walk(*heap, cell@, n);
    }
    let mut out: Vec<ListElement> = Vec::new();
    let mut cursor: &Cell = cell;
    let ghost mut fuel: nat = n;
    loop
        invariant
            heap.wf(),
            heap.holds_valid(cursor@),
            !(walk(*heap, cursor@, fuel) is Diverges),
            list_walk(*heap, cell@) == prepend(out@, walk(*heap, cursor@, fuel)),
        decreases fuel,
    {
        match cursor {
            Cell::Empty => {
                assert(out@ + Seq::<ListElement>::empty() =~= out@);
                return Ok(out);
            },
            Cell::Cons(head, tail) => {
                proof {
                    assert(heap.valid_ptr(crate::cell::children(cursor@)[1]));
                }
                let next = match heap.get_cell_from_pointer(tail) {
                    Ok(c) => c,
                    Err(e) => return Err(e),
                };
                let ghost old_out = out@;
                out.push(ListElement::InternalPtr(*head));
                proof {
                    let rest = walk(*heap, next@, (fuel - 1) as nat);
                    match rest {
                        ListWalk::Done(s) => {
                            assert(old_out + (seq![ListElement::InternalPtr(*head)] + s) =~= out@ + s);
                        },
                        _ => {},
                    }
                    assert forall|k: int| 0 <= k < crate::cell::children(next@).len() implies heap.valid_ptr(#[trigger] crate::cell::children(next@)[k]) by {
                        assert(heap.valid_ptr(crate::cell::children(heap.slot_cell(tail.index as int))[k]));
                    }
                    fuel = (fuel - 1) as nat;
                }
                cursor = next;
            },
            Cell::ListSlice { start, end, elements } => {
                proof {
                    assert(heap.valid_ptr(crate::cell::children(cursor@)[0]));
                }
                let ghost old_out = out@;
                match append_list_slice_elements(heap, elements, *start, *end, &mut out) {
                    Ok(()) => {},
                    Err(e) => return Err(e),
                }
                return Ok(out);
            },
            other => {
                return Err(EngineError::NativeType { expected: "list", got: other.cell_type_name() });
            },
        }
    }
}

/// The elements of the list that `pointer` names.
pub fn list_elements_from_pointer(heap: &Heap, pointer: InternalPtr) -> (res: Result<Vec<ListElement>, EngineError>)
    requires
        heap.wf(),
        heap.valid_ptr(pointer),
        spine_ends(*heap, heap.cell_at(pointer)),
    ensures
        match list_walk(*heap, heap.cell_at(pointer)) {
            ListWalk::Done(s) => res matches Ok(v) && v@ == s,
            ListWalk::Fail(e) => res matches Err(x) && x == e,
            ListWalk::Diverges => false,
        },
{
    let cell = match heap.get_cell_from_pointer(&pointer) {
        Ok(c) => c,
        Err(e) => return Err(e),
    };
    proof {
        assert forall|k: int| 0 <= k < crate::cell::children(cell@).len() implies heap.valid_ptr(#[trigger] crate::cell::children(cell@)[k]) by {
            assert(heap.valid_ptr(crate::cell::children(heap.slot_cell(pointer.index as int))[k]));
        }
    }
    list_elements_from_cell(heap, cell)
}

/// The length of the list `c`: the number of its elements, or the error in
/// reading it.
pub open spec fn list_len_spec(h: Heap, c: CellView) -> Result<usize, EngineError> {
    match list_walk(h, c) {
        ListWalk::Done(s) => if s.len() > usize::MAX {
            Err(EngineError::ListLengthOverflow)
        } else {
            Ok(s.len() as usize)
        },
        ListWalk::Fail(e) => Err(e),
        ListWalk::Diverges => Err(EngineError::ListLengthOverflow),
    }
}

/// The length of the list that `pointer` names.
///
/// When reading the list fails, the error is that failure, unless more
/// `Cons` cells than `usize` can count precede it, which gives
/// `ListLengthOverflow`.
pub fn list_len_from_pointer(heap: &Heap, pointer: InternalPtr) -> (res: Result<usize, EngineError>)
    requires
        heap.wf(),
        heap.valid_ptr(pointer),
        spine_ends(*heap, heap.cell_at(pointer)),
    ensures
        match list_walk(*heap, heap.cell_at(pointer)) {
            ListWalk::Done(s) => if s.len() > usize::MAX {
                res matches Err(e) && e is ListLengthOverflow
            } else {
                res matches Ok(n) && n == s.len()
            },
            ListWalk::Fail(e) => res matches Err(x) && (x == e || x is ListLengthOverflow),
            ListWalk::Diverges => false,
        },
{
    let cell = match heap.get_cell_from_pointer(&pointer) {
        Ok(c) => c,
        Err(e) => return Err(e),
    };
    let ghost n = choose|n: nat| !(#[trigger] walk(*heap, cell@, n) is Diverges);
    proof {
        lemma_list_walk(*heap, cell@, n);
        assert forall|k: int| 0 <= k < crate::cell::children(cell@).len() implies heap.valid_ptr(#[trigger] crate::cell::children(cell@)[k]) by {
            assert(heap.valid_ptr(crate::cell::children(heap.slot_cell(pointer.index as int))[k]));
        }
    }
    let mut len: usize = 0;
    let mut cursor: &Cell = cell;
    let ghost mut fuel: nat = n;
    let ghost mut seen: Seq<ListElement> = Seq::empty();
    loop
        invariant
            heap.wf(),
            heap.holds_valid(cursor@),
            !(walk(*heap, cursor@, fuel) is Diverges),
            list_walk(*heap, cell@) == prepend(seen, walk(*heap, cursor@, fuel)),
            len == seen.len(),
            cell@ == heap.cell_at(pointer),
        decreases fuel,
    {
        match cursor {
            Cell::Empty => {
                assert(seen + Seq::<ListElement>::empty() =~= seen);
                assert(list_walk(*heap, cell@) == ListWalk::Done(seen));
                return Ok(len);
            },
            Cell::Cons(head, tail) => {
                proof {
                    assert(heap.valid_ptr(crate::cell::children(cursor@)[1]));
                }
                if len == usize::MAX {
                    proof {
                        let w = walk(*heap, cursor@, fuel);
                        assert(w == prepend(seq![ListElement::InternalPtr(*head)], walk(*heap, heap.cell_at(*tail), (fuel - 1) as nat)));
                        match w {
                            ListWalk::Done(s) => {
                                assert(s.len() >= 1);
                                assert(list_walk(*heap, cell@) == ListWalk::Done(seen + s));
                                assert((seen + s).len() > usize::MAX);
                            },
                            _ => {},
                        }
                    }
                    return Err(EngineError::ListLengthOverflow);
                }
                len = len + 1;
                let next = match heap.get_cell_from_pointer(tail) {
                    Ok(c) => c,
                    Err(e) => return Err(e),
                };
                proof {
                    let old_seen = seen;
                    seen = seen.push(ListElement::InternalPtr(*head));
                    let rest = walk(*heap, next@, (fuel - 1) as nat);
                    match rest {
                        ListWalk::Done(s) => {
                            assert(old_seen + (seq![ListElement::InternalPtr(*head)] + s) =~= seen + s);
                        },
                        _ => {},
                    }
                    assert forall|k: int| 0 <= k < crate::cell::children(next@).len() implies heap.valid_ptr(#[trigger] crate::cell::children(next@)[k]) by {
                        assert(heap.valid_ptr(crate::cell::children(heap.slot_cell(tail.index as int))[k]));
                    }
                    fuel = (fuel - 1) as nat;
                }
                cursor = next;
            },
            Cell::ListSlice { start, end, elements } => {
                proof {
                    assert(heap.valid_ptr(crate::cell::children(cursor@)[0]));
                }
                proof {
                    assert(crate::cell::children(cursor@) == seq![*elements]);
                    assert(heap.valid_ptr(*elements));
                }
                let backing = match heap.get_cell_from_pointer(elements) {
                    Ok(c) => c,
                    Err(e) => return Err(e),
                };
                let backing_len = match list_slice_backing_len(backing) {
                    Ok(n) => n,
                    Err(e) => return Err(e),
                };
                match validate_list_slice_bounds(backing_len, *start, *end) {
                    Ok(()) => {},
                    Err(e) => return Err(e),
                }
                let count = *end - *start;
                proof {
                    match walk(*heap, cursor@, fuel) {
                        ListWalk::Done(s) => {
                            assert(s.len() == count);
                        },
                        _ => {},
                    }
                }
                if len > usize::MAX - count {
                    return Err(EngineError::ListLengthOverflow);
                }
                return Ok(len + count);
            },
            other => {
                return Err(EngineError::NativeType { expected: "list", got: other.cell_type_name() });
            },
        }
    }
}

/// The bytes of a list of `u8` elements, or the error for its first element
/// that is not a `u8` object.
pub open spec fn bytes_of(h: Heap, s: Seq<ListElement>) -> Result<Seq<u8>, EngineError>
    decreases s.len(),
{
    if s.len() == 0 {
        Ok(Seq::empty())
    } else {
        match bytes_of(h, s.drop_last()) {
            Err(e) => Err(e),
            Ok(b) => match s.last() {
                ListElement::U8(x) => Ok(b.push(x)),
                ListElement::InternalPtr(p) => match h.cell_at(p) {
                    CellView::U8(x) => Ok(b.push(x)),
                    other => Err(EngineError::NativeType { expected: "u8", got: type_name_of(other) }),
                },
            },
        }
    }
}

proof fn lemma_bytes_error_sticks(h: Heap, s: Seq<ListElement>, i: int)
    requires
        0 <= i <= s.len(),
        bytes_of(h, s.take(i)) is Err,
    ensures
        bytes_of(h, s) == bytes_of(h, s.take(i)),
    decreases s.len() - i,
{
    if i < s.len() {
        assert(s.take(i + 1).drop_last() =~= s.take(i));
        lemma_bytes_error_sticks(h, s, i + 1);
    } else {
        assert(s.take(i) =~= s);
    }
}

/// The bytes of a list of `u8` values.
pub fn collect_list_u8(heap: &Heap, pointer: &InternalPtr) -> (res: Result<Vec<u8>, EngineError>)
    requires
        heap.wf(),
        heap.valid_ptr(*pointer),
        spine_ends(*heap, heap.cell_at(*pointer)),
    ensures
        match list_walk(*heap, heap.cell_at(*pointer)) {
            ListWalk::Done(s) => if s.len() > usize::MAX {
                res matches Err(e) && e is ListLengthOverflow
            } else {
                match bytes_of(*heap, s) {
                    Ok(b) => res matches Ok(v) && v@ == b,
                    Err(e) => res matches Err(x) && x == e,
                }
            },
            ListWalk::Fail(e) => res matches Err(x) && (x == e || x is ListLengthOverflow),
            ListWalk::Diverges => false,
        },
{
    match list_len_from_pointer(heap, *pointer) {
        Ok(_) => {},
        Err(e) => return Err(e),
    }
    let elements = match list_elements_from_pointer(heap, *pointer) {
        Ok(v) => v,
        Err(e) => return Err(e),
    };
    let ghost s = elements@;
    proof {
        assert forall|k: int| 0 <= k < s.len() && (#[trigger] s[k]) is InternalPtr implies heap.valid_ptr(s[k]->InternalPtr_0) by {
            let n = choose|n: nat| !(#[trigger] walk(*heap, heap.cell_at(*pointer), n) is Diverges);
            lemma_list_walk(*heap, heap.cell_at(*pointer), n);
            assert(heap.holds_valid(heap.cell_at(*pointer))) by {
                assert forall|j: int| 0 <= j < crate::cell::children(heap.cell_at(*pointer)).len() implies heap.valid_ptr(#[trigger] crate::cell::children(heap.cell_at(*pointer))[j]) by {
                    assert(heap.valid_ptr(crate::cell::children(heap.slot_cell(pointer.index as int))[j]));
                }
            }
            lemma_walk_valid(*heap, heap.cell_at(*pointer), n);
        }
    }
    let mut out: Vec<u8> = Vec::new();
    let mut i: usize = 0;
    while i < elements.len()
        invariant
            0 <= i <= elements@.len(),
            s == elements@,
            heap.wf(),
            bytes_of(*heap, s.take(i as int)) == Ok::<Seq<u8>, EngineError>(out@),
            list_walk(*heap, heap.cell_at(*pointer)) == ListWalk::Done(s),
            s.len() <= usize::MAX,
            forall|k: int| 0 <= k < s.len() && (#[trigger] s[k]) is InternalPtr ==> heap.valid_ptr(s[k]->InternalPtr_0),
        decreases elements@.len() - i,
    {
        proof {
            assert(s.take(i + 1).drop_last() =~= s.take(i as int));
        }
        match elements[i] {
            ListElement::U8(x) => out.push(x),
            ListElement::InternalPtr(p) => {
                let c = match heap.get_cell_from_pointer(&p) {
                    Ok(c) => c,
                    Err(e) => return Err(e),
                };
                match c.cell_as_u8() {
                    Ok(x) => out.push(x),
                    Err(e) => {
                        proof {
                            assert(s.take(i + 1).last() == s[i as int]);
                            assert(c@ == heap.cell_at(p));
                            assert(bytes_of(*heap, s.take(i + 1)) == Err::<Seq<u8>, EngineError>(e));
                            lemma_bytes_error_sticks(*heap, s, i + 1);
                        }
                        return Err(e);
                    },
                }
            },
        }
        i += 1;
    }
    proof {
        assert(s.take(s.len() as int) =~= s);
    }
    Ok(out)
}

/// The number of pointer elements of `s`.
pub open spec fn ptr_count(s: Seq<ListElement>) -> nat
    decreases s.len(),
{
    if s.len() == 0 {
        0
    } else {
        ptr_count(s.drop_last()) + if s.last() is InternalPtr { 1nat } else { 0nat }
    }
}

/// Each token of `rs` stands for the matching element of `elems`: a pointer
/// element for its object sent through `f`, a byte for a `u8` object.
pub open spec fn stands_for(b: Heap, f: Map<InternalPtr, InternalPtr>, rs: Seq<RootedPtr>, elems: Seq<ListElement>) -> bool {
    &&& rs.len() == elems.len()
    &&& all_live(b, rs)
    &&& forall|k: int| 0 <= k < rs.len() ==> match #[trigger] elems[k] {
        ListElement::InternalPtr(p) => f.contains_key(p) && b.root_target(rs[k]) == f[p],
        ListElement::U8(x) => b.cell_at(b.root_target(rs[k])) == CellView::U8(x),
    }
}

/// A heap `b` reached from `a` by rooting and allocating: some forwarding
/// map relates them, with the tokens in `fresh` handed out on the way.
pub open spec fn reached(a: Heap, b: Heap, f: Map<InternalPtr, InternalPtr>, fresh: Set<int>) -> bool {
    &&& evolves_except(a, b, f, fresh)
    &&& b.stress() == a.stress()
    &&& b.deferred() == a.deferred()
}

impl Heap {
    /// Roots each element of a list: pointer elements as they are, byte
    /// elements as new `u8` objects, in order.
    pub fn materialize_list_elements(&mut self, elements: &Vec<ListElement>) -> (res: Result<Vec<RootedPtr>, EngineError>)
        requires
            old(self).wf(),
            forall|k: int| 0 <= k < elements@.len() && (#[trigger] elements@[k]) is InternalPtr ==> old(self).valid_ptr(elements@[k]->InternalPtr_0),
        ensures
            final(self).wf(),
            exists|f: Map<InternalPtr, InternalPtr>, fresh: Set<int>| #[trigger] reached(*old(self), *final(self), f, fresh)
                && match res {
                    Ok(rs) => stands_for(*final(self), f, rs@, elements@),
                    Err(e) => is_alloc_error(*final(self), e),
                },
    {
        let ghost h0 = *self;
        // Root every pointer element first, so that allocations may move them.
        let mut pointers: Vec<InternalPtr> = Vec::new();
        let mut k: usize = 0;
        while k < elements.len()
            invariant
                0 <= k <= elements@.len(),
                h0 == *old(self),
                forall|j: int| 0 <= j < elements@.len() && (#[trigger] elements@[j]) is InternalPtr ==> h0.valid_ptr(elements@[j]->InternalPtr_0),
                forall|j: int| 0 <= j < pointers@.len() ==> h0.valid_ptr(#[trigger] pointers@[j]),
                pointers@.len() == ptr_count(elements@.take(k as int)),
                forall|j: int| 0 <= j < k && (#[trigger] elements@[j]) is InternalPtr ==> ptr_count(elements@.take(j)) < pointers@.len()
                    && pointers@[ptr_count(elements@.take(j)) as int] == elements@[j]->InternalPtr_0,
            decreases elements@.len() - k,
        {
            proof {
                assert(elements@.take(k + 1).drop_last() =~= elements@.take(k as int));
            }
            match elements[k] {
                ListElement::InternalPtr(p) => pointers.push(p),
                ListElement::U8(_) => {},
            }
            k += 1;
        }
        let pre_rooted = self.root_all(&pointers);
        let ghost h1 = *self;
        let ghost mut f: Map<InternalPtr, InternalPtr> = identity_on(h0);
        let ghost mut fresh: Set<int> = token_slots(pre_rooted@);
        let mut result: Vec<RootedPtr> = Vec::new();
        let mut next: usize = 0;
        let mut i: usize = 0;
        while i < elements.len()
            invariant
                0 <= i <= elements@.len(),
                self.wf(),
                h0 == *old(self),
                reached(h0, *self, f, fresh),
                token_slots(pre_rooted@).subset_of(fresh),
                all_live(*self, pre_rooted@),
                pre_rooted@.len() == pointers@.len(),
                forall|j: int| 0 <= j < pointers@.len() ==> f.contains_key(#[trigger] pointers@[j])
                    && self.root_target(pre_rooted@[j]) == f[pointers@[j]],
                forall|j: int| 0 <= j < elements@.len() && (#[trigger] elements@[j]) is InternalPtr ==> ptr_count(elements@.take(j)) < pointers@.len()
                    && pointers@[ptr_count(elements@.take(j)) as int] == elements@[j]->InternalPtr_0,
                next == ptr_count(elements@.take(i as int)),
                result@.len() == i,
                stands_for(*self, f, result@, elements@.take(i as int)),
                token_slots(result@).subset_of(fresh),
            decreases elements@.len() - i,
        {
            proof {
                assert(elements@.take(i + 1).drop_last() =~= elements@.take(i as int));
                assert(elements@.take(i + 1).last() == elements@[i as int]);
            }
            let ghost before_result = result@;
            match elements[i] {
                ListElement::InternalPtr(_) => {
                    proof {
                        assert(elements@[i as int] is InternalPtr);
                        assert(next < pointers@.len());
                    }
                    let r = pre_rooted[next];
                    result.push(r);
                    let _count = pointers.len();
                    next += 1;
                },
                ListElement::U8(x) => {
                    let ghost before = *self;
                    let made = self.alloc_root_u8(x);
                    let ghost after = *self;
                    let ghost g = choose|g: Map<InternalPtr, InternalPtr>| #[trigger] rooted_alloc_with(before, after, g, CellView::U8(x), made);
                    match made {
                        Ok(r) => {
                            proof {
                                lemma_evolves_compose(h0, before, after, f, g, fresh, set![r.slot as int]);
                                f = compose(f, g);
                                fresh = fresh + set![r.slot as int];
                            }
                            result.push(r);
                        },
                        Err(e) => {
                            proof {
                                lemma_evolves_compose(h0, before, after, f, g, fresh, Set::empty());
                                f = compose(f, g);
                                fresh = fresh + Set::empty();
                                assert(reached(h0, after, f, fresh));
                                assert(reached(*old(self), *self, f, fresh) && is_alloc_error(*self, e));
                            }
                            return Err(e);
                        },
                    }
                },
            }
            i += 1;
        }
        proof {
            assert(elements@.take(elements@.len() as int) =~= elements@);
        }
        Ok(result)
    }
}

/// `s` with its pointer elements sent through `f`.
pub open spec fn map_elements(s: Seq<ListElement>, f: Map<InternalPtr, InternalPtr>) -> Seq<ListElement> {
    s.map_values(|e: ListElement| match e {
        ListElement::InternalPtr(p) => ListElement::InternalPtr(f[p]),
        ListElement::U8(x) => ListElement::U8(x),
    })
}

/// `w` with its pointer elements sent through `f`.
pub open spec fn map_walk(w: ListWalk, f: Map<InternalPtr, InternalPtr>) -> ListWalk {
    match w {
        ListWalk::Done(s) => ListWalk::Done(map_elements(s, f)),
        other => other,
    }
}

pub proof fn lemma_type_name_map(c: CellView, f: Map<InternalPtr, InternalPtr>)
    ensures
        type_name_of(crate::cell::map_cell(c, f)) == type_name_of(c),
{
}

/// Walking a list after an operation that moved objects gives the elements
/// it gave before, with pointers sent through the forwarding map.
pub proof fn lemma_walk_evolves(a: Heap, b: Heap, f: Map<InternalPtr, InternalPtr>, fresh: Set<int>, p: InternalPtr, n: nat)
    requires
        evolves_except(a, b, f, fresh),
        f.contains_key(p),
    ensures
        walk(b, b.cell_at(f[p]), n) == map_walk(walk(a, a.cell_at(p), n), f),
    decreases n,
{
    let c = a.cell_at(p);
    let d = b.cell_at(f[p]);
    assert(d == crate::cell::map_cell(c, f));
    match c {
        CellView::Cons(head, tail) => {
            assert(children(c) == seq![head, tail]);
            assert(f.contains_key(children(c)[0]));
            assert(f.contains_key(children(c)[1]));
            assert(d == CellView::Cons(f[head], f[tail]));
            if n > 0 {
                lemma_walk_evolves(a, b, f, fresh, tail, (n - 1) as nat);
                assert(walk(b, d, n) == prepend(seq![ListElement::InternalPtr(f[head])], walk(b, b.cell_at(f[tail]), (n - 1) as nat)));
                assert(walk(a, c, n) == prepend(seq![ListElement::InternalPtr(head)], walk(a, a.cell_at(tail), (n - 1) as nat)));
                match walk(a, a.cell_at(tail), (n - 1) as nat) {
                    ListWalk::Done(rest) => {
                        assert(map_elements(seq![ListElement::InternalPtr(head)] + rest, f) =~= seq![ListElement::InternalPtr(f[head])] + map_elements(rest, f));
                        assert(walk(b, d, n) == map_walk(walk(a, c, n), f));
                    },
                    ListWalk::Fail(e) => {
                        assert(walk(b, d, n) == map_walk(walk(a, c, n), f));
                    },
                    ListWalk::Diverges => {
                        assert(walk(b, d, n) == map_walk(walk(a, c, n), f));
                    },
                }
            } else {
                assert(walk(b, d, n) == ListWalk::Diverges);
                assert(walk(a, c, n) == ListWalk::Diverges);
            }
            assert(walk(b, d, n) == map_walk(walk(a, c, n), f));
        },
        CellView::ListSlice { start, end, elements } => {
            assert(children(c) == seq![elements]);
            assert(f.contains_key(children(c)[0]));
            assert(d == CellView::ListSlice { start, end, elements: f[elements] });
            let bc = a.cell_at(elements);
            let bd = b.cell_at(f[elements]);
            assert(bd == crate::cell::map_cell(bc, f));
            lemma_type_name_map(bc, f);
            match bc {
                CellView::Data(v) => {
                    assert(children(bc) == v);
                    assert(bd == CellView::Data(v.map_values(|q: InternalPtr| f[q])));
                    if start <= end && end <= v.len() {
                        assert(ptr_elements(v.map_values(|q: InternalPtr| f[q]).subrange(start as int, end as int)) =~= map_elements(ptr_elements(v.subrange(start as int, end as int)), f));
                    }
                },
                CellView::BinaryData(v) => {
                    if start <= end && end <= v.len() {
                        assert(byte_elements(v.subrange(start as int, end as int)) =~= map_elements(byte_elements(v.subrange(start as int, end as int)), f));
                    }
                },
                _ => {},
            }
        },
        _ => {
            lemma_type_name_map(c, f);
        },
    }
}

/// The list that `c` begins has the elements `elems`.
pub open spec fn lists(h: Heap, c: CellView, elems: Seq<ListElement>) -> bool {
    spine_ends(h, c) && list_walk(h, c) == ListWalk::Done(elems)
}

/// The length of the backing data `c`, if it is backing data.
pub open spec fn backing_len(c: CellView) -> Option<int> {
    match c {
        CellView::Data(v) => Some(v.len() as int),
        CellView::BinaryData(v) => Some(v.len() as int),
        _ => None,
    }
}

impl Heap {
    /// Allocates the slice `start..end` of the backing data that `elements`
    /// stands for, and roots it; an empty range gives the empty list.
    pub fn alloc_root_list_slice(&mut self, start: usize, end: usize, elements: RootedPtr) -> (res: Result<RootedPtr, EngineError>)
        requires
            old(self).wf(),
            old(self).live_root(elements),
        ensures
            final(self).wf(),
            match backing_len(old(self).cell_at(old(self).root_target(elements))) {
                None => res matches Err(e) && e == backing_error(old(self).cell_at(old(self).root_target(elements)))
                    && *final(self) == *old(self),
                Some(len) => match bounds_error(len, start, end) {
                    Some(e) => res matches Err(x) && x == e && *final(self) == *old(self),
                    None => if start == end {
                        rooted_alloc(*old(self), *final(self), CellView::Empty, res)
                    } else {
                        rooted_alloc(
                            *old(self),
                            *final(self),
                            CellView::ListSlice { start, end, elements: old(self).root_target(elements) },
                            res,
                        )
                    },
                },
            },
    {
        let backing = match self.get_cell_from_rooted_ptr(elements) {
            Ok(c) => c,
            Err(e) => return Err(e),
        };
        let len = match list_slice_backing_len(backing) {
            Ok(n) => n,
            Err(e) => return Err(e),
        };
        match validate_list_slice_bounds(len, start, end) {
            Ok(()) => {},
            Err(e) => return Err(e),
        }
        if start == end {
            return self.alloc_root_empty();
        }
        let p = self.resolve_runtime_root(elements);
        proof {
            assert(self.root_pointer(elements.slot as int) is Some);
            assert(children(CellView::ListSlice { start, end, elements: p }) =~= seq![p]);
        }
        self.alloc_root(Cell::ListSlice { start, end, elements: p })
    }
}

/// An allocation error: the collection count or the slot indices ran out.
pub open spec fn is_alloc_error(h: Heap, e: EngineError) -> bool {
    ||| (e is CollectionCountExhausted && h.epoch() == u64::MAX)
    ||| (e is HeapExhausted && h.slot_count() > u32::MAX)
}

/// What allocating a list of the values `vals` left: some forwarding map
/// relates the heaps, and the new list lists the objects that `vals` stood
/// for, forwarded; or the allocation ran out.
pub open spec fn list_built(h0: Heap, h1: Heap, vals: Seq<RootedPtr>, res: Result<RootedPtr, EngineError>) -> bool {
    exists|f: Map<InternalPtr, InternalPtr>, fresh: Set<int>| #[trigger] reached(h0, h1, f, fresh)
        && (forall|k: int| 0 <= k < vals.len() ==> f.contains_key(#[trigger] targets(h0, vals)[k]))
        && match res {
            Ok(r) => h1.live_root(r) && lists(
                h1,
                h1.cell_at(h1.root_target(r)),
                ptr_elements(targets(h0, vals).map_values(|p: InternalPtr| f[p])),
            ),
            Err(e) => is_alloc_error(h1, e),
        }
}

impl Heap {
    /// Allocates a list of the given values (backing data and a slice over
    /// it) and roots it; no values give the empty list.
    pub fn alloc_root_list(&mut self, values: &Vec<RootedPtr>) -> (res: Result<RootedPtr, EngineError>)
        requires
            old(self).wf(),
            all_live(*old(self), values@),
        ensures
            final(self).wf(),
            list_built(*old(self), *final(self), values@, res),
    {
        let ghost h0 = *self;
        let ghost t = targets(h0, values@);
        if values.len() == 0 {
            let res = self.alloc_root_empty();
            proof {
                let b = *self;
                let g = choose|g: Map<InternalPtr, InternalPtr>| #[trigger] rooted_alloc_with(h0, b, g, CellView::Empty, res);
                let fresh = match res { Ok(r) => set![r.slot as int], Err(_) => Set::empty() };
                assert(ptr_elements(t.map_values(|p: InternalPtr| g[p])) =~= Seq::<ListElement>::empty());
                if let Ok(r) = res {
                    assert(!(walk(b, b.cell_at(b.root_target(r)), 0) is Diverges));
                    lemma_list_walk(b, b.cell_at(b.root_target(r)), 0);
                }
                assert(reached(h0, b, g, fresh));
            }
            return res;
        }
        let len = values.len();
        let data = match self.alloc_root_data(values) {
            Ok(d) => d,
            Err(e) => {
                proof {
                    let b = *self;
                    let g = choose|g: Map<InternalPtr, InternalPtr>| #[trigger] rooted_alloc_with(h0, b, g, CellView::Data(t), Err::<RootedPtr, EngineError>(e));
                    assert(reached(h0, b, g, Set::empty()));
                    assert(forall|k: int| 0 <= k < values@.len() ==> g.contains_key(#[trigger] targets(h0, values@)[k])) by {
                        assert forall|k: int| 0 <= k < values@.len() implies g.contains_key(#[trigger] targets(h0, values@)[k]) by {
                            assert(children(CellView::Data(t))[k] == t[k]);
                        }
                    }
                }
                return Err(e);
            },
        };
        let ghost h1 = *self;
        let ghost g1 = choose|g: Map<InternalPtr, InternalPtr>| #[trigger] rooted_alloc_with(h0, h1, g, CellView::Data(t), Ok::<RootedPtr, EngineError>(data));
        proof {
            assert(children(CellView::Data(t)) == t);
            assert(h1.cell_at(h1.root_target(data)) == CellView::Data(t.map_values(|p: InternalPtr| g1[p])));
        }
        let res = self.alloc_root_list_slice(0, len, data);
        proof {
            let b = *self;
            let td = h1.root_target(data);
            let g2 = choose|g: Map<InternalPtr, InternalPtr>| #[trigger] rooted_alloc_with(h1, b, g, CellView::ListSlice { start: 0, end: len, elements: td }, res);
            let fresh2 = match res { Ok(r) => set![r.slot as int], Err(_) => Set::empty() };
            lemma_evolves_compose(h0, h1, b, g1, g2, set![data.slot as int], fresh2);
            let f = compose(g1, g2);
            let fresh = set![data.slot as int] + fresh2;
            assert(reached(h0, b, f, fresh));
            assert forall|k: int| 0 <= k < values@.len() implies f.contains_key(#[trigger] targets(h0, values@)[k]) by {
                assert(children(CellView::Data(t))[k] == t[k]);
                assert(g1.contains_key(t[k]));
                assert(g2.contains_key(td));
                assert(children(h1.cell_at(td))[k] == g1[t[k]]);
                assert(g2.contains_key(children(h1.cell_at(td))[k]));
            }
            if let Ok(r) = res {
                assert(children(CellView::ListSlice { start: 0, end: len, elements: td }) == seq![td]);
                assert(g2.contains_key(td));
                let cr = b.cell_at(b.root_target(r));
                assert(cr == CellView::ListSlice { start: 0, end: len, elements: g2[td] });
                let backing = b.cell_at(g2[td]);
                assert(backing == crate::cell::map_cell(h1.cell_at(td), g2));
                let tm = t.map_values(|p: InternalPtr| g1[p]);
                assert(backing == CellView::Data(tm.map_values(|p: InternalPtr| g2[p])));
                assert(tm.map_values(|p: InternalPtr| g2[p]).subrange(0, len as int) =~= t.map_values(|p: InternalPtr| f[p]));
                assert(walk(b, cr, 0) == ListWalk::Done(ptr_elements(t.map_values(|p: InternalPtr| f[p]))));
                lemma_list_walk(b, cr, 0);
            }
        }
        res
    }

    /// Allocates a list of the given bytes (binary backing data and a slice
    /// over it) and roots it; no bytes give the empty list.
    pub fn alloc_root_binary_list(&mut self, values: Vec<u8>) -> (res: Result<RootedPtr, EngineError>)
        requires
            old(self).wf(),
        ensures
            final(self).wf(),
            exists|f: Map<InternalPtr, InternalPtr>, fresh: Set<int>| #[trigger] reached(*old(self), *final(self), f, fresh)
                && match res {
                    Ok(r) => final(self).live_root(r) && lists(
                        *final(self),
                        final(self).cell_at(final(self).root_target(r)),
                        byte_elements(values@),
                    ),
                    Err(e) => is_alloc_error(*final(self), e),
                },
    {
        let ghost h0 = *self;
        let ghost bytes = values@;
        if values.len() == 0 {
            let res = self.alloc_root_empty();
            proof {
                let b = *self;
                let g = choose|g: Map<InternalPtr, InternalPtr>| #[trigger] rooted_alloc_with(h0, b, g, CellView::Empty, res);
                let fresh = match res { Ok(r) => set![r.slot as int], Err(_) => Set::empty() };
                assert(byte_elements(bytes) =~= Seq::<ListElement>::empty());
                if let Ok(r) = res {
                    assert(!(walk(b, b.cell_at(b.root_target(r)), 0) is Diverges));
                    lemma_list_walk(b, b.cell_at(b.root_target(r)), 0);
                }
                assert(reached(h0, b, g, fresh));
            }
            return res;
        }
        let len = values.len();
        let data = match self.alloc_root_binary_data(values) {
            Ok(d) => d,
            Err(e) => {
                proof {
                    let b = *self;
                    let g = choose|g: Map<InternalPtr, InternalPtr>| #[trigger] rooted_alloc_with(h0, b, g, CellView::BinaryData(bytes), Err::<RootedPtr, EngineError>(e));
                    assert(reached(h0, b, g, Set::empty()));
                }
                return Err(e);
            },
        };
        let ghost h1 = *self;
        let ghost g1 = choose|g: Map<InternalPtr, InternalPtr>| #[trigger] rooted_alloc_with(h0, h1, g, CellView::BinaryData(bytes), Ok::<RootedPtr, EngineError>(data));
        let res = self.alloc_root_list_slice(0, len, data);
        proof {
            let b = *self;
            let td = h1.root_target(data);
            let g2 = choose|g: Map<InternalPtr, InternalPtr>| #[trigger] rooted_alloc_with(h1, b, g, CellView::ListSlice { start: 0, end: len, elements: td }, res);
            let fresh2 = match res { Ok(r) => set![r.slot as int], Err(_) => Set::empty() };
            lemma_evolves_compose(h0, h1, b, g1, g2, set![data.slot as int], fresh2);
            let f = compose(g1, g2);
            let fresh = set![data.slot as int] + fresh2;
            assert(reached(h0, b, f, fresh));
            if let Ok(r) = res {
                assert(children(CellView::ListSlice { start: 0, end: len, elements: td }) == seq![td]);
                assert(g2.contains_key(td));
                let cr = b.cell_at(b.root_target(r));
                assert(cr == CellView::ListSlice { start: 0, end: len, elements: g2[td] });
                assert(b.cell_at(g2[td]) == crate::cell::map_cell(h1.cell_at(td), g2));
                assert(b.cell_at(g2[td]) == CellView::BinaryData(bytes));
                assert(bytes.subrange(0, len as int) =~= bytes);
                assert(walk(b, cr, 0) == ListWalk::Done(byte_elements(bytes)));
                lemma_list_walk(b, cr, 0);
            }
        }
        res
    }

    /// The length of a rooted list.
    pub fn list_len(&self, root: RootedPtr) -> (res: Result<usize, EngineError>)
        requires
            self.wf(),
            self.live_root(root),
            spine_ends(*self, self.cell_at(self.root_target(root))),
        ensures
            match list_walk(*self, self.cell_at(self.root_target(root))) {
                ListWalk::Done(s) => if s.len() > usize::MAX {
                    res matches Err(e) && e is ListLengthOverflow
                } else {
                    res matches Ok(n) && n == s.len()
                },
                ListWalk::Fail(e) => res matches Err(x) && (x == e || x is ListLengthOverflow),
                ListWalk::Diverges => false,
            },
    {
        let p = self.resolve_runtime_root(root);
        proof {
            assert(self.root_pointer(root.slot as int) is Some);
        }
        list_len_from_pointer(self, p)
    }

    /// The bytes of a rooted list of `u8` values.
    pub fn root_as_binary_list(&self, root: RootedPtr) -> (res: Result<Vec<u8>, EngineError>)
        requires
            self.wf(),
            self.live_root(root),
            spine_ends(*self, self.cell_at(self.root_target(root))),
        ensures
            match list_walk(*self, self.cell_at(self.root_target(root))) {
                ListWalk::Done(s) => if s.len() > usize::MAX {
                    res matches Err(e) && e is ListLengthOverflow
                } else {
                    match bytes_of(*self, s) {
                        Ok(b) => res matches Ok(v) && v@ == b,
                        Err(e) => res matches Err(x) && x == e,
                    }
                },
                ListWalk::Fail(e) => res matches Err(x) && (x == e || x is ListLengthOverflow),
                ListWalk::Diverges => false,
            },
    {
        let p = self.resolve_runtime_root(root);
        proof {
            assert(self.root_pointer(root.slot as int) is Some);
        }
        collect_list_u8(self, &p)
    }

    /// Roots the elements of a rooted list, in order.
    pub fn root_as_list(&mut self, root: RootedPtr) -> (res: Result<Vec<RootedPtr>, EngineError>)
        requires
            old(self).wf(),
            old(self).live_root(root),
            spine_ends(*old(self), old(self).cell_at(old(self).root_target(root))),
        ensures
            final(self).wf(),
            match list_walk(*old(self), old(self).cell_at(old(self).root_target(root))) {
                ListWalk::Done(s) => exists|f: Map<InternalPtr, InternalPtr>, fresh: Set<int>| #[trigger] reached(*old(self), *final(self), f, fresh)
                    && match res {
                        Ok(rs) => stands_for(*final(self), f, rs@, s),
                        Err(e) => is_alloc_error(*final(self), e),
                    },
                ListWalk::Fail(e) => res matches Err(x) && x == e && *final(self) == *old(self),
                ListWalk::Diverges => false,
            },
    {
        let p = self.resolve_runtime_root(root);
        proof {
            assert(self.root_pointer(root.slot as int) is Some);
        }
        let ghost h0 = *self;
        let elements = match list_elements_from_pointer(self, p) {
            Ok(v) => v,
            Err(e) => return Err(e),
        };
        proof {
            let c = h0.cell_at(p);
            let n = choose|n: nat| !(#[trigger] walk(h0, c, n) is Diverges);
            lemma_list_walk(h0, c, n);
            assert forall|j: int| 0 <= j < crate::cell::children(c).len() implies h0.valid_ptr(#[trigger] crate::cell::children(c)[j]) by {
                assert(h0.valid_ptr(crate::cell::children(h0.slot_cell(p.index as int))[j]));
            }
            lemma_walk_valid(h0, c, n);
        }
        let res = self.materialize_list_elements(&elements);
        proof {
            let b = *self;
            assert(elements@ == match list_walk(h0, h0.cell_at(p)) { ListWalk::Done(s) => s, _ => elements@ });
        }
        res
    }
}

/// The elements of a rooted list, in one of three forms: a slice of
/// pointer backing data, a slice of binary backing data with its bytes, or
/// rooted values.
#[derive(Debug)]
pub enum ListItems<P> {
    Slice { elements: P, start: usize, end: usize },
    BinarySlice { elements: P, start: usize, end: usize, bytes: Vec<u8> },
    Pointers(Vec<P>),
}

impl<P> ListItems<P> {
    /// Slices run forward.
    pub open spec fn well_formed(&self) -> bool {
        match self {
            ListItems::Slice { start, end, .. } => *start <= *end,
            ListItems::BinarySlice { start, end, .. } => *start <= *end,
            ListItems::Pointers(_) => true,
        }
    }

    /// The number of items.
    pub open spec fn item_count(&self) -> int {
        match self {
            ListItems::Slice { start, end, .. } => *end - *start,
            ListItems::BinarySlice { start, end, .. } => *end - *start,
            ListItems::Pointers(v) => v@.len() as int,
        }
    }

    pub fn len(&self) -> (n: usize)
        requires
            self.well_formed(),
        ensures
            n == self.item_count(),
    {
        match self {
            ListItems::Slice { start, end, .. } => *end - *start,
            ListItems::BinarySlice { start, end, .. } => *end - *start,
            ListItems::Pointers(values) => values.len(),
        }
    }

    pub fn is_empty(&self) -> (b: bool)
        requires
            self.well_formed(),
        ensures
            b == (self.item_count() == 0),
    {
        self.len() == 0
    }

    /// The same items with each handle sent through `map`, stopping at the
    /// first failure.
    pub fn map_values<Q, E, F: Fn(P) -> Result<Q, E>>(self, map: &F) -> (res: Result<ListItems<Q>, E>)
        requires
            forall|p: P| #[trigger] map.requires((p,)),
        ensures
            match res {
                Ok(items) => items_sent(*map, self, items),
                Err(e) => items_failed(*map, self, e),
            },
    {
        match self {
            ListItems::Slice { elements, start, end } => match map(elements) {
                Ok(e) => Ok(ListItems::Slice { elements: e, start, end }),
                Err(e) => Err(e),
            },
            ListItems::BinarySlice { elements, start, end, bytes } => match map(elements) {
                Ok(e) => Ok(ListItems::BinarySlice { elements: e, start, end, bytes }),
                Err(e) => Err(e),
            },
            ListItems::Pointers(values) => match map_each(values, map) {
                Ok(out) => Ok(ListItems::Pointers(out)),
                Err(e) => Err(e),
            },
        }
    }
}

/// `map` succeeds on `p`.
pub open spec fn maps_ok<P, Q, E, F: Fn(P) -> Result<Q, E>>(map: F, p: P) -> bool {
    exists|q: Q| #[trigger] map.ensures((p,), Ok::<Q, E>(q))
}

/// `b` is `a` with each handle sent through `map`.
pub open spec fn items_sent<P, Q, E, F: Fn(P) -> Result<Q, E>>(map: F, a: ListItems<P>, b: ListItems<Q>) -> bool {
    match (a, b) {
        (ListItems::Slice { elements, start, end }, ListItems::Slice { elements: e2, start: s2, end: n2 }) =>
            s2 == start && n2 == end && map.ensures((elements,), Ok::<Q, E>(e2)),
        (ListItems::BinarySlice { elements, start, end, bytes }, ListItems::BinarySlice { elements: e2, start: s2, end: n2, bytes: b2 }) =>
            s2 == start && n2 == end && b2@ == bytes@ && map.ensures((elements,), Ok::<Q, E>(e2)),
        (ListItems::Pointers(v), ListItems::Pointers(w)) => v@.len() == w@.len()
            && forall|k: int| 0 <= k < v@.len() ==> map.ensures((#[trigger] v@[k],), Ok::<Q, E>(w@[k])),
        _ => false,
    }
}

/// `map` failed with `e` on a handle of `a`, after succeeding on every
/// handle before it.
pub open spec fn items_failed<P, Q, E, F: Fn(P) -> Result<Q, E>>(map: F, a: ListItems<P>, e: E) -> bool {
    match a {
        ListItems::Slice { elements, .. } => map.ensures((elements,), Err::<Q, E>(e)),
        ListItems::BinarySlice { elements, .. } => map.ensures((elements,), Err::<Q, E>(e)),
        ListItems::Pointers(v) => exists|k: int| 0 <= k < v@.len() && map.ensures((#[trigger] v@[k],), Err::<Q, E>(e))
            && forall|j: int| 0 <= j < k ==> #[trigger] maps_ok(map, v@[j]),
    }
}

/// Each value sent through `map`, in order, stopping at the first failure.
#[verifier::loop_isolation(false)]
pub(crate) fn map_each<P, Q, E, F: Fn(P) -> Result<Q, E>>(values: Vec<P>, map: &F) -> (res: Result<Vec<Q>, E>)
    requires
        forall|p: P| #[trigger] map.requires((p,)),
    ensures
        match res {
            Ok(w) => values@.len() == w@.len()
                && forall|k: int| 0 <= k < values@.len() ==> map.ensures((#[trigger] values@[k],), Ok::<Q, E>(w@[k])),
            Err(e) => exists|k: int| 0 <= k < values@.len() && map.ensures((#[trigger] values@[k],), Err::<Q, E>(e))
                && forall|j: int| 0 <= j < k ==> #[trigger] maps_ok(*map, values@[j]),
        },
{
    let ghost orig = values@;
    let n = values.len();
    // Reverse, so that popping visits the values in order.
    let mut pending = values;
    let mut reversed: Vec<P> = Vec::new();
    while pending.len() > 0
        invariant
            pending@.len() + reversed@.len() == n,
            orig.len() == n,
            forall|k: int| 0 <= k < pending@.len() ==> #[trigger] pending@[k] == orig[k],
            forall|k: int| 0 <= k < reversed@.len() ==> #[trigger] reversed@[k] == orig[n - 1 - k],
        decreases pending@.len(),
    {
        match pending.pop() {
            Some(v) => reversed.push(v),
            None => {},
        }
    }
    let mut out: Vec<Q> = Vec::new();
    while reversed.len() > 0
        invariant
            out@.len() + reversed@.len() == n,
            orig.len() == n,
            forall|k: int| 0 <= k < reversed@.len() ==> #[trigger] reversed@[k] == orig[n - 1 - k],
            forall|p: P| #[trigger] map.requires((p,)),
            forall|k: int| 0 <= k < out@.len() ==> map.ensures((#[trigger] orig[k],), Ok::<Q, E>(out@[k])),
        decreases reversed@.len(),
    {
        let k = out.len();
        let v = match reversed.pop() {
            Some(v) => v,
            None => {
                proof {
                    assert(false);
                }
                return Ok(out);
            },
        };
        match map(v) {
            Ok(q) => out.push(q),
            Err(e) => {
                proof {
                    assert(map.ensures((orig[k as int],), Err::<Q, E>(e)));
                    assert forall|j: int| 0 <= j < k implies #[trigger] maps_ok(*map, orig[j]) by {
                        assert(map.ensures((orig[j],), Ok::<Q, E>(out@[j])));
                    }
                }
                return Err(e);
            },
        }
    }
    Ok(out)
}

impl ListItems<InternalPtr> {
    /// The same items with each pointer rooted.
    pub fn into_rooted(self, heap: &mut Heap) -> (res: ListItems<RootedPtr>)
        requires
            old(heap).wf(),
            match self {
                ListItems::Slice { elements, .. } => old(heap).valid_ptr(elements),
                ListItems::BinarySlice { elements, .. } => old(heap).valid_ptr(elements),
                ListItems::Pointers(v) => forall|k: int| 0 <= k < v@.len() ==> old(heap).valid_ptr(#[trigger] v@[k]),
            },
        ensures
            final(heap).wf(),
            match (self, res) {
                (ListItems::Slice { elements, start, end }, ListItems::Slice { elements: r, start: s2, end: n2 }) =>
                    s2 == start && n2 == end && rooted_all(*old(heap), *final(heap), seq![elements], seq![r]),
                (ListItems::BinarySlice { elements, start, end, bytes }, ListItems::BinarySlice { elements: r, start: s2, end: n2, bytes: b2 }) =>
                    s2 == start && n2 == end && b2@ == bytes@ && rooted_all(*old(heap), *final(heap), seq![elements], seq![r]),
                (ListItems::Pointers(v), ListItems::Pointers(w)) => rooted_all(*old(heap), *final(heap), v@, w@),
                _ => false,
            },
    {
        match self {
            ListItems::Slice { elements, start, end } => {
                let mut ptrs: Vec<InternalPtr> = Vec::new();
                ptrs.push(elements);
                proof {
                    assert(ptrs@ =~= seq![elements]);
                }
                let rs = heap.root_all(&ptrs);
                let r = rs[0];
                proof {
                    assert(rs@ =~= seq![r]);
                }
                ListItems::Slice { elements: r, start, end }
            },
            ListItems::BinarySlice { elements, start, end, bytes } => {
                let mut ptrs: Vec<InternalPtr> = Vec::new();
                ptrs.push(elements);
                proof {
                    assert(ptrs@ =~= seq![elements]);
                }
                let rs = heap.root_all(&ptrs);
                let r = rs[0];
                proof {
                    assert(rs@ =~= seq![r]);
                }
                ListItems::BinarySlice { elements: r, start, end, bytes }
            },
            ListItems::Pointers(v) => ListItems::Pointers(heap.root_all(&v)),
        }
    }
}

/// What reading a list's items gives before any rooting: a ready form for
/// the empty list and for slices, or the elements of a `Cons` chain.
#[derive(Debug)]
pub enum ListItemsSeed {
    Ready(ListItems<InternalPtr>),
    Elements(Vec<ListElement>),
}

/// The elements of the slice `start..end` of `bytes`.
fn copy_byte_range(bytes: &Vec<u8>, start: usize, end: usize) -> (res: Vec<u8>)
    requires
        start <= end <= bytes@.len(),
    ensures
        res@ == bytes@.subrange(start as int, end as int),
{
    let mut res: Vec<u8> = Vec::new();
    let mut i = start;
    while i < end
        invariant
            start <= i <= end <= bytes@.len(),
            res@ == bytes@.subrange(start as int, i as int),
        decreases end - i,
    {
        res.push(bytes[i]);
        i += 1;
        assert(res@ =~= bytes@.subrange(start as int, i as int));
    }
    res
}

/// The items of the list that `pointer` names, before rooting.
pub fn list_items_from_pointer(heap: &Heap, pointer: InternalPtr) -> (res: Result<ListItemsSeed, EngineError>)
    requires
        heap.wf(),
        heap.valid_ptr(pointer),
        spine_ends(*heap, heap.cell_at(pointer)),
    ensures
        match heap.cell_at(pointer) {
            CellView::Empty => res matches Ok(ListItemsSeed::Ready(ListItems::Pointers(v))) && v@.len() == 0,
            CellView::ListSlice { start, end, elements } => match heap.cell_at(elements) {
                CellView::Data(v) => match bounds_error(v.len() as int, start, end) {
                    Some(e) => res matches Err(x) && x == e,
                    None => res matches Ok(ListItemsSeed::Ready(ListItems::Slice { elements: e2, start: s2, end: n2 }))
                        && e2 == elements && s2 == start && n2 == end,
                },
                CellView::BinaryData(v) => match bounds_error(v.len() as int, start, end) {
                    Some(e) => res matches Err(x) && x == e,
                    None => res matches Ok(ListItemsSeed::Ready(ListItems::BinarySlice { elements: e2, start: s2, end: n2, bytes }))
                        && e2 == elements && s2 == start && n2 == end && bytes@ == v.subrange(start as int, end as int),
                },
                other => res matches Err(x) && x == backing_error(other),
            },
            CellView::Cons(..) => match list_walk(*heap, heap.cell_at(pointer)) {
                ListWalk::Done(s) => res matches Ok(ListItemsSeed::Elements(v)) && v@ == s,
                ListWalk::Fail(e) => res matches Err(x) && x == e,
                ListWalk::Diverges => false,
            },
            other => res matches Err(EngineError::NativeType { expected, got }) && expected == "list"
                && got == type_name_of(other),
        },
{
    let cell = match heap.get_cell_from_pointer(&pointer) {
        Ok(c) => c,
        Err(e) => return Err(e),
    };
    proof {
        assert forall|k: int| 0 <= k < children(cell@).len() implies heap.valid_ptr(#[trigger] children(cell@)[k]) by {
            assert(heap.valid_ptr(children(heap.slot_cell(pointer.index as int))[k]));
        }
    }
    match cell {
        Cell::Empty => Ok(ListItemsSeed::Ready(ListItems::Pointers(Vec::new()))),
        Cell::ListSlice { start, end, elements } => {
            proof {
                assert(children(cell@)[0] == *elements);
            }
            let backing = match heap.get_cell_from_pointer(elements) {
                Ok(c) => c,
                Err(e) => return Err(e),
            };
            match backing {
                Cell::Data(values) => {
                    match validate_list_slice_bounds(values.len(), *start, *end) {
                        Ok(()) => {},
                        Err(e) => return Err(e),
                    }
                    Ok(ListItemsSeed::Ready(ListItems::Slice { elements: *elements, start: *start, end: *end }))
                },
                Cell::BinaryData(values) => {
                    match validate_list_slice_bounds(values.len(), *start, *end) {
                        Ok(()) => {},
                        Err(e) => return Err(e),
                    }
                    let bytes = copy_byte_range(values, *start, *end);
                    Ok(ListItemsSeed::Ready(ListItems::BinarySlice { elements: *elements, start: *start, end: *end, bytes }))
                },
                other => Err(EngineError::NativeType { expected: "list slice backing data", got: other.cell_type_name() }),
            }
        },
        Cell::Cons(..) => match list_elements_from_cell(heap, cell) {
            Ok(v) => Ok(ListItemsSeed::Elements(v)),
            Err(e) => Err(e),
        },
        other => Err(EngineError::NativeType { expected: "list", got: other.cell_type_name() }),
    }
}

/// The first element of a slice, if the slice is not empty.
pub enum ListRootElement {
    RootedPtr(RootedPtr),
    U8(u8),
}

/// The rest of a slice after its first element, allocated over the same
/// backing data after an operation that moved it, lists the slice's
/// remaining elements with their pointers forwarded.
pub proof fn lemma_slice_rest_lists(
    a: Heap,
    b: Heap,
    f: Map<InternalPtr, InternalPtr>,
    fresh: Set<int>,
    start: usize,
    end: usize,
    elements: InternalPtr,
    s: Seq<ListElement>,
)
    requires
        evolves_except(a, b, f, fresh),
        f.contains_key(elements),
        start < end,
        slice_walk(a.cell_at(elements), start, end) == ListWalk::Done(s),
    ensures
        lists(
            b,
            if start + 1 == end {
                CellView::Empty
            } else {
                CellView::ListSlice { start: (start + 1) as usize, end, elements: f[elements] }
            },
            map_elements(s.drop_first(), f),
        ),
{
    let c = if start + 1 == end {
        CellView::Empty
    } else {
        CellView::ListSlice { start: (start + 1) as usize, end, elements: f[elements] }
    };
    let bc = a.cell_at(elements);
    let bd = b.cell_at(f[elements]);
    assert(bd == crate::cell::map_cell(bc, f));
    match bc {
        CellView::Data(v) => {
            assert(children(bc) == v);
            assert(s == ptr_elements(v.subrange(start as int, end as int)));
            if start + 1 < end {
                assert(bd == CellView::Data(v.map_values(|q: InternalPtr| f[q])));
                assert(ptr_elements(v.map_values(|q: InternalPtr| f[q]).subrange(start + 1, end as int)) =~= map_elements(
                    s.drop_first(),
                    f,
                ));
            } else {
                assert(map_elements(s.drop_first(), f) =~= Seq::<ListElement>::empty());
            }
        },
        CellView::BinaryData(v) => {
            assert(s == byte_elements(v.subrange(start as int, end as int)));
            if start + 1 < end {
                assert(byte_elements(v.subrange(start + 1, end as int)) =~= map_elements(s.drop_first(), f));
            } else {
                assert(map_elements(s.drop_first(), f) =~= Seq::<ListElement>::empty());
            }
        },
        _ => {},
    }
    assert(walk(b, c, 0) == ListWalk::Done(map_elements(s.drop_first(), f)));
    lemma_list_walk(b, c, 0);
}

/// A token that stands for a list element goes on standing for it, through
/// the composed forwarding map, after an operation that does not hand it out.
pub proof fn lemma_stands_for_step(
    a: Heap,
    b: Heap,
    f: Map<InternalPtr, InternalPtr>,
    g: Map<InternalPtr, InternalPtr>,
    fresh: Set<int>,
    r: RootedPtr,
    e: ListElement,
)
    requires
        stands_for(a, f, seq![r], seq![e]),
        evolves_except(a, b, g, fresh),
    ensures
        stands_for(b, compose(f, g), seq![r], seq![e]),
{
    assert(seq![r][0] == r);
    assert(seq![e][0] == e);
    lemma_root_follows(a, b, g, fresh, r);
    let t = a.root_target(r);
    match e {
        ListElement::InternalPtr(p) => {
            assert(f.contains_key(p) && t == f[p]);
            assert(compose(f, g).contains_key(p));
        },
        ListElement::U8(x) => {
            assert(a.cell_at(t) == CellView::U8(x));
            assert(crate::cell::map_cell(CellView::U8(x), g) == CellView::U8(x));
        },
    }
    assert(all_live(b, seq![r]));
}

impl Heap {
    /// Roots each pointer element; a byte element is an error.
    pub fn list_elements_to_rooted_ptr_vec(&mut self, elements: &Vec<ListElement>) -> (res: Result<Vec<RootedPtr>, EngineError>)
        requires
            old(self).wf(),
            forall|k: int| 0 <= k < elements@.len() && (#[trigger] elements@[k]) is InternalPtr ==> old(self).valid_ptr(elements@[k]->InternalPtr_0),
        ensures
            final(self).wf(),
            match res {
                Ok(rs) => (forall|k: int| 0 <= k < elements@.len() ==> (#[trigger] elements@[k]) is InternalPtr)
                    && rooted_all(*old(self), *final(self), elements@.map_values(|e: ListElement| e->InternalPtr_0), rs@),
                Err(e) => (exists|k: int| 0 <= k < elements@.len() && (#[trigger] elements@[k]) is U8)
                    && e == (EngineError::NativeType { expected: "pointer-backed list", got: "binary-backed list" })
                    && *final(self) == *old(self),
            },
    {
        let mut ptrs: Vec<InternalPtr> = Vec::new();
        let mut k: usize = 0;
        while k < elements.len()
            invariant
                0 <= k <= elements@.len(),
                *self == *old(self),
                self.wf(),
                ptrs@.len() == k,
                forall|j: int| 0 <= j < k ==> (#[trigger] elements@[j]) is InternalPtr && ptrs@[j] == elements@[j]->InternalPtr_0,
            decreases elements@.len() - k,
        {
            match elements[k] {
                ListElement::InternalPtr(p) => ptrs.push(p),
                ListElement::U8(_) => {
                    proof {
                        assert(elements@[k as int] is U8);
                    }
                    return Err(EngineError::NativeType { expected: "pointer-backed list", got: "binary-backed list" });
                },
            }
            k += 1;
        }
        proof {
            assert(ptrs@ =~= elements@.map_values(|e: ListElement| e->InternalPtr_0));
            assert forall|j: int| 0 <= j < ptrs@.len() implies self.valid_ptr(#[trigger] ptrs@[j]) by {
                assert(elements@[j] is InternalPtr);
            }
        }
        Ok(self.root_all(&ptrs))
    }

    /// Splits a rooted non-empty list into its first element and the rest.
    ///
    /// A `Cons` cell gives its two fields. A slice gives its first element
    /// (a byte element becomes a new `u8` object) and the slice after it,
    /// over the same backing data (the empty list where nothing is left).
    /// The empty list, and a slice whose range is empty, give `None`.
    pub fn list_head_tail(&mut self, pointer: RootedPtr) -> (res: Result<Option<(RootedPtr, RootedPtr)>, EngineError>)
        requires
            old(self).wf(),
            old(self).live_root(pointer),
        ensures
            final(self).wf(),
            match old(self).cell_at(old(self).root_target(pointer)) {
                CellView::Empty => res matches Ok(None) && *final(self) == *old(self),
                CellView::Cons(h, t) => res matches Ok(Some((rh, rt))) && rooted_all(*old(self), *final(self), seq![h, t], seq![rh, rt]),
                CellView::ListSlice { start, end, elements } => if start >= end {
                    res matches Ok(None) && *final(self) == *old(self)
                } else {
                    exists|f: Map<InternalPtr, InternalPtr>, fresh: Set<int>| #[trigger] reached(*old(self), *final(self), f, fresh)
                        && match slice_walk(old(self).cell_at(elements), start, end) {
                            ListWalk::Done(s) => match res {
                                Ok(Some((rh, rt))) => stands_for(*final(self), f, seq![rh], seq![s[0]])
                                    && final(self).live_root(rt)
                                    && f.contains_key(elements)
                                    && lists(*final(self), final(self).cell_at(final(self).root_target(rt)), map_elements(s.drop_first(), f))
                                    && final(self).cell_at(final(self).root_target(rt)) == if start + 1 == end {
                                        CellView::Empty
                                    } else {
                                        CellView::ListSlice { start: (start + 1) as usize, end, elements: f[elements] }
                                    },
                                Ok(None) => false,
                                Err(e) => is_alloc_error(*final(self), e),
                            },
                            ListWalk::Fail(e) => res matches Err(x) && x == e,
                            ListWalk::Diverges => false,
                        }
                },
                other => res matches Err(EngineError::NativeType { expected, got }) && expected == "list"
                    && got == type_name_of(other) && *final(self) == *old(self),
            },
    {
        let ghost h0 = *self;
        let cell = match self.get_cell_from_rooted_ptr(pointer) {
            Ok(c) => c.copy(),
            Err(e) => return Err(e),
        };
        proof {
            let p = h0.root_target(pointer);
            assert(h0.root_pointer(pointer.slot as int) is Some);
            assert forall|k: int| 0 <= k < children(cell@).len() implies h0.valid_ptr(#[trigger] children(cell@)[k]) by {
                assert(h0.valid_ptr(children(h0.slot_cell(p.index as int))[k]));
            }
        }
        match cell {
            Cell::Empty => Ok(None),
            Cell::Cons(head, tail) => {
                let mut ptrs: Vec<InternalPtr> = Vec::new();
                ptrs.push(head);
                ptrs.push(tail);
                proof {
                    assert(ptrs@ =~= seq![head, tail]);
                    assert(children(cell@)[0] == head);
                    assert(children(cell@)[1] == tail);
                }
                let rs = self.root_all(&ptrs);
                let rh = rs[0];
                let rt = rs[1];
                proof {
                    assert(rs@ =~= seq![rh, rt]);
                }
                Ok(Some((rh, rt)))
            },
            Cell::ListSlice { start, end, elements } => {
                if start >= end {
                    return Ok(None);
                }
                proof {
                    assert(children(cell@)[0] == elements);
                }
                let mut ptrs: Vec<InternalPtr> = Vec::new();
                ptrs.push(elements);
                let roots = self.root_all(&ptrs);
                let er = roots[0];
                let ghost h1 = *self;
                let ghost f1 = identity_on(h0);
                let ghost t1 = token_slots(roots@);
                proof {
                    assert(targets(h1, roots@)[0] == elements);
                    assert(h1.live_root(roots@[0]));
                    assert(h1.cell_at(elements) == h0.cell_at(elements));
                    assert(reached(h0, h1, f1, t1));
                }
                let backing = match self.get_cell_from_rooted_ptr(er) {
                    Ok(c) => c,
                    Err(e) => return Err(e),
                };
                let ghost mut g1: Map<InternalPtr, InternalPtr> = Map::empty();
                let ghost mut t2: Set<int> = Set::empty();
                let ghost mut s0: ListElement = ListElement::U8(0);
                let rh: RootedPtr = match backing {
                    Cell::Data(values) => {
                        match validate_list_slice_bounds(values.len(), start, end) {
                            Ok(()) => {},
                            Err(e) => return Err(e),
                        }
                        let hp = values[start];
                        proof {
                            assert(children(h1.cell_at(elements))[start as int] == hp);
                            assert(h1.valid_ptr(children(h1.slot_cell(elements.index as int))[start as int]));
                        }
                        let mut hps: Vec<InternalPtr> = Vec::new();
                        hps.push(hp);
                        proof {
                            assert(hps@ =~= seq![hp]);
                        }
                        let hrs = self.root_all(&hps);
                        proof {
                            g1 = identity_on(h1);
                            t2 = token_slots(hrs@);
                            s0 = ListElement::InternalPtr(hp);
                            assert(targets(*self, hrs@)[0] == hp);
                            assert(self.live_root(hrs@[0]));
                            assert(ptr_elements(values@.subrange(start as int, end as int))[0] == s0);
                        }
                        hrs[0]
                    },
                    Cell::BinaryData(values) => {
                        match validate_list_slice_bounds(values.len(), start, end) {
                            Ok(()) => {},
                            Err(e) => return Err(e),
                        }
                        let b = values[start];
                        let ghost hb = *self;
                        let made = self.alloc_root_u8(b);
                        let ghost g = choose|g: Map<InternalPtr, InternalPtr>| #[trigger] rooted_alloc_with(hb, *self, g, CellView::U8(b), made);
                        match made {
                            Ok(r) => {
                                proof {
                                    g1 = g;
                                    t2 = set![r.slot as int];
                                    s0 = ListElement::U8(b);
                                    assert(byte_elements(values@.subrange(start as int, end as int))[0] == s0);
                                }
                                r
                            },
                            Err(e) => {
                                proof {
                                    lemma_evolves_compose(h0, h1, *self, f1, g, t1, Set::empty());
                                    assert(reached(h0, *self, compose(f1, g), t1 + Set::empty()));
                                }
                                return Err(e);
                            },
                        }
                    },
                    other => {
                        return Err(EngineError::NativeType { expected: "list slice backing data", got: other.cell_type_name() });
                    },
                };
                let ghost h2 = *self;
                proof {
                    lemma_evolves_compose(h0, h1, h2, f1, g1, t1, t2);
                    lemma_root_follows(h1, h2, g1, t2, er);
                    assert(stands_for(h2, compose(f1, g1), seq![rh], seq![s0])) by {
                        assert(h2.live_root(seq![rh][0]));
                        match s0 {
                            ListElement::InternalPtr(hp) => {
                                assert(h0.valid_ptr(hp));
                                assert(compose(f1, g1).contains_key(hp));
                            },
                            ListElement::U8(x) => {
                                assert(crate::cell::map_cell(CellView::U8(x), g1) == CellView::U8(x));
                            },
                        }
                    }
                    assert(h2.cell_at(h2.root_target(er)) == crate::cell::map_cell(h1.cell_at(elements), g1));
                }
                let tail = self.alloc_root_list_slice(start + 1, end, er);
                proof {
                    let f12 = compose(f1, g1);
                    let h3 = *self;
                    let c = if start + 1 == end {
                        CellView::Empty
                    } else {
                        CellView::ListSlice { start: (start + 1) as usize, end, elements: h2.root_target(er) }
                    };
                    assert(rooted_alloc(h2, h3, c, tail));
                    let g2 = choose|g: Map<InternalPtr, InternalPtr>| #[trigger] rooted_alloc_with(h2, h3, g, c, tail);
                    if tail is Ok {
                        let rt = tail->Ok_0;
                        {
                            lemma_evolves_compose(h0, h2, h3, f12, g2, t1 + t2, set![rt.slot as int]);
                            lemma_stands_for_step(h2, h3, f12, g2, set![rt.slot as int], rh, s0);
                            lemma_root_follows(h2, h3, g2, set![rt.slot as int], er);
                            let f = compose(f12, g2);
                            assert(f.contains_key(elements));
                            let sw = slice_walk(h0.cell_at(elements), start, end);
                            if sw is Done {
                                lemma_slice_rest_lists(h0, h3, f, t1 + t2 + set![rt.slot as int], start, end, elements, sw->Done_0);
                            }
                            assert(reached(h0, h3, f, t1 + t2 + set![rt.slot as int]));
                        }
                    } else {
                        lemma_evolves_compose(h0, h2, h3, f12, g2, t1 + t2, Set::empty());
                        assert(reached(h0, h3, compose(f12, g2), t1 + t2 + Set::empty()));
                    }
                }
                match tail {
                    Ok(rt) => Ok(Some((rh, rt))),
                    Err(e) => Err(e),
                }
            },
            other => Err(EngineError::NativeType { expected: "list", got: other.cell_type_name() }),
        }
    }
}

/// `items`, rooted in `h`, hold the list elements `s` of an earlier heap
/// whose objects `f` forwarded to `h`.
pub open spec fn items_list(h: Heap, f: Map<InternalPtr, InternalPtr>, items: ListItems<RootedPtr>, s: Seq<ListElement>) -> bool {
    match items {
        ListItems::Slice { elements, start, end } => {
            &&& h.live_root(elements)
            &&& start <= end
            &&& h.cell_at(h.root_target(elements)) is Data
            &&& slice_walk(h.cell_at(h.root_target(elements)), start, end) == ListWalk::Done(map_elements(s, f))
        },
        ListItems::BinarySlice { elements, start, end, bytes } => {
            &&& h.live_root(elements)
            &&& start <= end
            &&& byte_elements(bytes@) == s
            &&& slice_walk(h.cell_at(h.root_target(elements)), start, end) == ListWalk::Done(s)
        },
        ListItems::Pointers(rs) => stands_for(h, f, rs@, s),
    }
}

proof fn lemma_map_elements_identity(h: Heap, s: Seq<ListElement>)
    requires
        forall|k: int| 0 <= k < s.len() && (#[trigger] s[k]) is InternalPtr ==> h.valid_ptr(s[k]->InternalPtr_0),
    ensures
        map_elements(s, crate::heap::identity_on(h)) == s,
{
    assert(map_elements(s, crate::heap::identity_on(h)) =~= s);
}

impl Heap {
    /// The elements of a rooted list in the most compact form at hand: a
    /// slice stays a slice over its rooted backing data, a chain of `Cons`
    /// cells becomes rooted values (bytes of binary slices inside it become
    /// new `u8` objects).
    pub fn list_items(&mut self, root: RootedPtr) -> (res: Result<ListItems<RootedPtr>, EngineError>)
        requires
            old(self).wf(),
            old(self).live_root(root),
            spine_ends(*old(self), old(self).cell_at(old(self).root_target(root))),
        ensures
            final(self).wf(),
            match list_walk(*old(self), old(self).cell_at(old(self).root_target(root))) {
                ListWalk::Done(s) => exists|f: Map<InternalPtr, InternalPtr>, fresh: Set<int>| #[trigger] reached(*old(self), *final(self), f, fresh)
                    && match res {
                        Ok(items) => items_list(*final(self), f, items, s),
                        Err(e) => is_alloc_error(*final(self), e),
                    },
                ListWalk::Fail(e) => res matches Err(x) && x == e && *final(self) == *old(self),
                ListWalk::Diverges => false,
            },
    {
        let ghost h0 = *self;
        let pointer = self.resolve_runtime_root(root);
        proof {
            assert(self.root_pointer(root.slot as int) is Some);
            let n = choose|n: nat| !(#[trigger] walk(h0, h0.cell_at(pointer), n) is Diverges);
            lemma_list_walk(h0, h0.cell_at(pointer), n);
            lemma_walk_valid(h0, h0.cell_at(pointer), n);
        }
        let seed = match list_items_from_pointer(self, pointer) {
            Ok(seed) => seed,
            Err(e) => return Err(e),
        };
        let ghost c = h0.cell_at(pointer);
        match seed {
            ListItemsSeed::Ready(ListItems::Slice { elements, start, end }) => {
                proof {
                    assert(children(c)[0] == elements);
                }
                let mut ptrs: Vec<InternalPtr> = Vec::new();
                ptrs.push(elements);
                let rs = self.root_all(&ptrs);
                let r = rs[0];
                proof {
                    let s = list_walk(h0, c)->Done_0;
                    assert(targets(*self, rs@)[0] == elements);
                    assert(self.live_root(rs@[0]));
                    lemma_map_elements_identity(h0, s);
                    assert(reached(h0, *self, identity_on(h0), token_slots(rs@)));
                }
                Ok(ListItems::Slice { elements: r, start, end })
            },
            ListItemsSeed::Ready(ListItems::BinarySlice { elements, start, end, bytes }) => {
                proof {
                    assert(children(c)[0] == elements);
                }
                let mut ptrs: Vec<InternalPtr> = Vec::new();
                ptrs.push(elements);
                let rs = self.root_all(&ptrs);
                let r = rs[0];
                proof {
                    assert(targets(*self, rs@)[0] == elements);
                    assert(self.live_root(rs@[0]));
                    assert(reached(h0, *self, identity_on(h0), token_slots(rs@)));
                }
                Ok(ListItems::BinarySlice { elements: r, start, end, bytes })
            },
            ListItemsSeed::Ready(ListItems::Pointers(v)) => {
                let rs = self.root_all(&v);
                proof {
                    assert(v@.len() == 0);
                    assert(reached(h0, *self, identity_on(h0), token_slots(rs@)));
                    assert(stands_for(*self, identity_on(h0), rs@, list_walk(h0, c)->Done_0));
                }
                Ok(ListItems::Pointers(rs))
            },
            ListItemsSeed::Elements(elements) => {
                let mut all_pointers = true;
                let mut k: usize = 0;
                while k < elements.len()
                    invariant
                        0 <= k <= elements@.len(),
                        all_pointers <==> forall|j: int| 0 <= j < k ==> (#[trigger] elements@[j]) is InternalPtr,
                    decreases elements@.len() - k,
                {
                    match elements[k] {
                        ListElement::U8(_) => {
                            all_pointers = false;
                        },
                        ListElement::InternalPtr(_) => {},
                    }
                    k += 1;
                }
                if all_pointers {
                    let made = self.list_elements_to_rooted_ptr_vec(&elements);
                    match made {
                        Ok(rs) => {
                            proof {
                                let s = elements@;
                                let f = identity_on(h0);
                                assert(reached(h0, *self, f, token_slots(rs@)));
                                assert(targets(*self, rs@).len() == s.len());
                                assert(rs@.len() == s.len());
                                assert forall|j: int| 0 <= j < rs@.len() implies match #[trigger] s[j] {
                                    ListElement::InternalPtr(p) => f.contains_key(p) && self.root_target(rs@[j]) == f[p],
                                    ListElement::U8(x) => self.cell_at(self.root_target(rs@[j])) == CellView::U8(x),
                                } by {
                                    assert(s[j] is InternalPtr);
                                    assert(targets(*self, rs@)[j] == s.map_values(|e: ListElement| e->InternalPtr_0)[j]);
                                }
                            }
                            Ok(ListItems::Pointers(rs))
                        },
                        Err(e) => {
                            proof {
                                assert(false);
                            }
                            Err(e)
                        },
                    }
                } else {
                    match self.materialize_list_elements(&elements) {
                        Ok(rs) => Ok(ListItems::Pointers(rs)),
                        Err(e) => Err(e),
                    }
                }
            },
        }
    }
}

impl ListItems<RootedPtr> {
    /// The item at `index`, rooted: from the backing data of a slice, as a
    /// new `u8` object from the bytes of a binary slice, or as it is.
    pub fn get(&self, heap: &mut Heap, index: usize) -> (res: Result<RootedPtr, EngineError>)
        requires
            old(heap).wf(),
            self.well_formed(),
            *self matches ListItems::Slice { elements, .. } ==> old(heap).live_root(elements),
        ensures
            final(heap).wf(),
            match *self {
                ListItems::Slice { elements, start, end } => if start + index > usize::MAX {
                    res matches Err(e) && e == EngineError::Internal("list slice backing index overflow") && *final(heap) == *old(heap)
                } else if start + index >= end {
                    res matches Err(e) && e == EngineError::Internal("list item index out of bounds") && *final(heap) == *old(heap)
                } else {
                    match old(heap).cell_at(old(heap).root_target(elements)) {
                        CellView::Data(v) => if start + index < v.len() {
                            res matches Ok(r) && rooted_all(*old(heap), *final(heap), seq![v[start + index]], seq![r])
                        } else {
                            res matches Err(e) && e == EngineError::Internal("list slice backing index out of bounds")
                                && *final(heap) == *old(heap)
                        },
                        other => res matches Err(EngineError::NativeType { expected, got }) && expected == "data"
                            && got == type_name_of(other) && *final(heap) == *old(heap),
                    }
                },
                ListItems::BinarySlice { start, end, bytes, .. } => if index >= end - start || index >= bytes@.len() {
                    res matches Err(e) && e == EngineError::Internal("binary list slice index out of bounds") && *final(heap) == *old(heap)
                } else {
                    rooted_alloc(*old(heap), *final(heap), CellView::U8(bytes@[index as int]), res)
                },
                ListItems::Pointers(values) => if index < values@.len() {
                    res matches Ok(r) && r == values@[index as int] && *final(heap) == *old(heap)
                } else {
                    res matches Err(e) && e == EngineError::Internal("list item index out of bounds") && *final(heap) == *old(heap)
                },
            },
    {
        match self {
            ListItems::Slice { elements, start, end } => {
                let backing_index = match start.checked_add(index) {
                    Some(b) => b,
                    None => return Err(EngineError::Internal("list slice backing index overflow")),
                };
                if backing_index >= *end {
                    return Err(EngineError::Internal("list item index out of bounds"));
                }
                let values = match heap.get_cell_from_rooted_ptr(*elements) {
                    Ok(c) => match c.cell_as_data() {
                        Ok(v) => v,
                        Err(e) => return Err(e),
                    },
                    Err(e) => return Err(e),
                };
                if backing_index >= values.len() {
                    return Err(EngineError::Internal("list slice backing index out of bounds"));
                }
                let p = values[backing_index];
                proof {
                    let t = heap.root_target(*elements);
                    assert(heap.root_pointer(elements.slot as int) is Some);
                    assert(children(heap.cell_at(t))[backing_index as int] == p);
                    assert(heap.valid_ptr(children(heap.slot_cell(t.index as int))[backing_index as int]));
                }
                let mut ptrs: Vec<InternalPtr> = Vec::new();
                ptrs.push(p);
                proof {
                    assert(ptrs@ =~= seq![p]);
                }
                let rs = heap.root_all(&ptrs);
                let r = rs[0];
                proof {
                    assert(rs@ =~= seq![r]);
                }
                Ok(r)
            },
            ListItems::BinarySlice { start, end, bytes, .. } => {
                if index >= *end - *start || index >= bytes.len() {
                    return Err(EngineError::Internal("binary list slice index out of bounds"));
                }
                heap.alloc_root_u8(bytes[index])
            },
            ListItems::Pointers(values) => {
                if index < values.len() {
                    Ok(values[index])
                } else {
                    Err(EngineError::Internal("list item index out of bounds"))
                }
            },
        }
    }
}

} // verus!
