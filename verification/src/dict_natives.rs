//! The built-in `map` and `traverse` over dictionaries.
//!
//! `map` applies its function to every field value at once, one child frame
//! per field, and builds the dictionary of the results when the last one is
//! in. `traverse` applies a function that gives a `Result` to one field
//! after another, stopping at the first `Err`, and gives `Ok` of the
//! dictionary of the `Ok` payloads.

use vstd::prelude::*;

use crate::cell::{type_name_of, CellView, InternalPtr, RootedPtr};
use crate::dicts::{dict_insert, dict_insert_field, dict_of, fields_view};
use crate::error::{EngineError, FrameFault};
use crate::frames::{is_first_index, position};
use crate::heap::{rooted_alloc, Heap};
use crate::natives::rooted_only;
use crate::scheduler::FrameId;
use crate::sequences::NativeStep;

verus! {

/// The fields `fields` with each token read as the object it stands for in
/// `h`.
pub open spec fn field_targets(h: Heap, fields: Seq<(String, RootedPtr)>) -> Seq<(Seq<char>, InternalPtr)> {
    fields.map_values(|f: (String, RootedPtr)| (f.0@, h.root_target(f.1)))
}

/// Every value token of `fields` is live in `h`.
pub open spec fn fields_live(h: Heap, fields: Seq<(String, RootedPtr)>) -> bool {
    forall|k: int| 0 <= k < fields.len() ==> h.live_root(#[trigger] fields[k].1)
}

impl Heap {
    /// Allocates the dictionary of the rooted fields `fields`.
    pub fn alloc_dict_of_fields(&mut self, fields: &Vec<(String, RootedPtr)>) -> (res: Result<RootedPtr, EngineError>)
        requires
            old(self).wf(),
            fields_live(*old(self), fields@),
        ensures
            final(self).wf(),
            rooted_alloc(*old(self), *final(self), CellView::Dict(dict_of(field_targets(*old(self), fields@))), res),
    {
        let mut keys: Vec<String> = Vec::new();
        let mut vals: Vec<RootedPtr> = Vec::new();
        let mut i: usize = 0;
        while i < fields.len()
            invariant
                0 <= i <= fields@.len(),
                keys@.len() == i && vals@.len() == i,
                forall|j: int| 0 <= j < i ==> (#[trigger] keys@[j])@ == fields@[j].0@ && vals@[j] == fields@[j].1,
            decreases fields@.len() - i,
        {
            let k = fields[i].0.clone();
            proof {
                assert(k@ == fields@[i as int].0@);
            }
            keys.push(k);
            vals.push(fields[i].1);
            i += 1;
        }
        proof {
            assert forall|j: int| 0 <= j < vals@.len() implies self.live_root(#[trigger] vals@[j]) by {
                assert(keys@[j]@ == fields@[j].0@);
            }
            let pairs = Seq::new(keys@.len(), |m: int| (keys@[m]@, self.root_target(vals@[m])));
            assert forall|m: int| 0 <= m < pairs.len() implies pairs[m] == field_targets(*self, fields@)[m] by {
                assert(keys@[m]@ == fields@[m].0@);
            }
            assert(pairs =~= field_targets(*self, fields@));
        }
        self.alloc_root_dict(keys, &vals)
    }
}

/// `map f d` over a dictionary: one child per field; the result holds the
/// child results under the field names.
#[derive(Debug)]
pub struct NativeDictMap<P> {
    pub func: P,
    pub entries: Vec<(String, P)>,
    pub children: Vec<FrameId>,
    pub output: Vec<(String, P)>,
    pub remaining: usize,
}

impl<P> NativeDictMap<P> {
    /// Records a scheduled child frame.
    pub fn push_scheduled_child(&mut self, child: FrameId)
        ensures
            final(self).children@ == old(self).children@.push(child),
            final(self).func == old(self).func,
            final(self).entries@ == old(self).entries@,
            final(self).output@ == old(self).output@,
            final(self).remaining == old(self).remaining,
    {
        self.children.push(child);
    }

    /// Whether taking the next result may allocate: only the last one does.
    pub fn receive_may_allocate(&self) -> (b: bool)
        ensures
            b == (self.remaining == 1),
    {
        self.remaining == 1
    }
}

/// The field index that the result of `child` belongs to, or the error for
/// a result that belongs to none.
pub open spec fn field_for(kind: &'static str, children: Seq<FrameId>, n: int, child: FrameId) -> Result<int, EngineError> {
    if forall|j: int| 0 <= j < children.len() ==> children[j] != child {
        Err(EngineError::Frame { kind, fault: FrameFault::UnknownChild })
    } else {
        let i = choose|i: int| is_first_index(children, child, i);
        if i >= n {
            Err(EngineError::Frame { kind, fault: FrameFault::SlotOutOfBounds })
        } else {
            Ok(i)
        }
    }
}

impl NativeDictMap<RootedPtr> {
    /// Starts: the empty dictionary maps to the empty dictionary; otherwise
    /// a child per field.
    pub fn enter(&mut self, heap: &mut Heap) -> (res: Result<NativeStep<RootedPtr>, EngineError>)
        requires
            old(heap).wf(),
        ensures
            final(heap).wf(),
            final(self).entries@ == old(self).entries@,
            if old(self).entries@.len() == 0 {
                match res {
                    Ok(NativeStep::Return(r)) => rooted_alloc(*old(heap), *final(heap), CellView::Dict(Seq::empty()), Ok(r)),
                    Ok(_) => false,
                    Err(e) => rooted_alloc(*old(heap), *final(heap), CellView::Dict(Seq::empty()), Err(e)),
                }
            } else {
                &&& res matches Ok(NativeStep::Schedule(n)) && n == old(self).entries@.len()
                &&& final(self).children@.len() == 0
                &&& final(self).output@.len() == 0
                &&& final(self).remaining == old(self).entries@.len()
                &&& *final(heap) == *old(heap)
            },
    {
        let n = self.entries.len();
        if n == 0 {
            let empty: Vec<(String, RootedPtr)> = Vec::new();
            proof {
                assert(dict_of(field_targets(*heap, empty@)) =~= Seq::<(Seq<char>, InternalPtr)>::empty());
            }
            return match heap.alloc_dict_of_fields(&empty) {
                Ok(r) => Ok(NativeStep::Return(r)),
                Err(e) => Err(e),
            };
        }
        self.children.clear();
        self.output.clear();
        self.remaining = n;
        Ok(NativeStep::Schedule(n))
    }

    /// Takes the result `value` of the child `child`.
    pub fn receive(&mut self, heap: &mut Heap, child: FrameId, value: RootedPtr) -> (res: Result<NativeStep<RootedPtr>, EngineError>)
        requires
            old(heap).wf(),
            old(heap).live_root(value),
            fields_live(*old(heap), old(self).output@),
        ensures
            final(heap).wf(),
            final(self).children@ == old(self).children@,
            final(self).entries@ == old(self).entries@,
            match field_for("native dict map", old(self).children@, old(self).entries@.len() as int, child) {
                Err(e) => res matches Err(x) && x == e && final(self).output@ == old(self).output@
                    && final(self).remaining == old(self).remaining && *final(heap) == *old(heap),
                Ok(i) => {
                    let out = dict_insert(fields_view(old(self).output@), old(self).entries@[i].0@, value);
                    &&& fields_view(final(self).output@) == out
                    &&& if out.len() == old(self).output@.len() {
                        res matches Err(e) && e == (EngineError::Frame { kind: "native dict map", fault: FrameFault::DuplicateResult })
                            && *final(heap) == *old(heap)
                    } else if old(self).remaining == 0 {
                        res matches Err(e) && e == (EngineError::Frame { kind: "native dict map", fault: FrameFault::ExcessResult })
                            && *final(heap) == *old(heap)
                    } else if old(self).remaining > 1 {
                        res matches Ok(NativeStep::Wait) && final(self).remaining == old(self).remaining - 1
                            && *final(heap) == *old(heap)
                    } else {
                        &&& final(self).remaining == 0
                        &&& match res {
                            Ok(NativeStep::Return(r)) => rooted_alloc(*old(heap), *final(heap),
                                CellView::Dict(dict_of(field_targets(*old(heap), final(self).output@))), Ok(r)),
                            Ok(_) => false,
                            Err(e) => rooted_alloc(*old(heap), *final(heap),
                                CellView::Dict(dict_of(field_targets(*old(heap), final(self).output@))), Err(e)),
                        }
                    }
                },
            },
    {
        let kind = "native dict map";
        let i = match position(self.children.as_slice(), child) {
            Some(i) => i,
            None => return Err(EngineError::Frame { kind, fault: FrameFault::UnknownChild }),
        };
        proof {
            let k = choose|k: int| is_first_index(old(self).children@, child, k);
            assert(k == i);
        }
        if i >= self.entries.len() {
            return Err(EngineError::Frame { kind, fault: FrameFault::SlotOutOfBounds });
        }
        let key = self.entries[i].0.clone();
        let ghost before = self.output@;
        let replaced = dict_insert_field(&mut self.output, key, value);
        if replaced {
            return Err(EngineError::Frame { kind, fault: FrameFault::DuplicateResult });
        }
        self.remaining = match self.remaining.checked_sub(1) {
            Some(r) => r,
            None => return Err(EngineError::Frame { kind, fault: FrameFault::ExcessResult }),
        };
        if self.remaining > 0 {
            return Ok(NativeStep::Wait);
        }
        proof {
            assert forall|k: int| 0 <= k < self.output@.len() implies heap.live_root(#[trigger] self.output@[k].1) by {
                let r = fields_view(self.output@);
                assert(r[k].1 == self.output@[k].1);
                crate::dicts::lemma_insert_entries(fields_view(before), self.entries@[i as int].0@, value, k);
                if r[k] != (self.entries@[i as int].0@, value) {
                    let m = choose|m: int| 0 <= m < fields_view(before).len() && #[trigger] fields_view(before)[m] == r[k];
                    assert(fields_view(before)[m].1 == before[m].1);
                }
            }
        }
        match heap.alloc_dict_of_fields(&self.output) {
            Ok(r) => Ok(NativeStep::Return(r)),
            Err(e) => Err(e),
        }
    }
}


/// What `traverse` asks the evaluator for next.
#[derive(Debug)]
pub enum TraverseStep<P> {
    /// Apply the function to this field value.
    Apply(P),
    /// Finish with this value.
    Return(P),
}

/// `traverse f d` over a dictionary: `f` gives a `Result` for each field in
/// name order; the first `Err` is the answer, else `Ok` of the dictionary
/// of the payloads.
#[derive(Debug)]
pub struct NativeDictTraverse<P> {
    pub func: P,
    pub entries: Vec<(String, P)>,
    pub next_index: usize,
    pub output: Vec<(String, P)>,
}

impl<P> NativeDictTraverse<P> {
    /// Taking a result always may allocate.
    pub fn receive_may_allocate(&self) -> (b: bool)
        ensures
            b,
    {
        true
    }
}

/// `res` finishes with `Ok` around a new dictionary of the fields `fields`
/// (as `h0` has them), or with the error of one of the two allocations.
pub open spec fn returns_ok_dict(h0: Heap, h1: Heap, fields: Seq<(String, RootedPtr)>, res: Result<TraverseStep<RootedPtr>, EngineError>) -> bool {
    exists|hd: Heap, dr: Result<RootedPtr, EngineError>| #[trigger] rooted_alloc(h0, hd, CellView::Dict(dict_of(field_targets(h0, fields))), dr)
        && match dr {
            Ok(d) => match res {
                Ok(TraverseStep::Return(r)) => rooted_alloc(hd, h1, CellView::Adt("Ok"@, seq![hd.root_target(d)]), Ok(r)),
                Ok(_) => false,
                Err(e) => rooted_alloc(hd, h1, CellView::Adt("Ok"@, seq![hd.root_target(d)]), Err(e)),
            },
            Err(x) => res matches Err(y) && y == x && h1 == hd,
        }
}

/// `res` finishes with `Err(p)`, newly built.
pub open spec fn returns_err(h0: Heap, h1: Heap, p: InternalPtr, res: Result<TraverseStep<RootedPtr>, EngineError>) -> bool {
    match res {
        Ok(TraverseStep::Return(r)) => rooted_alloc(h0, h1, CellView::Adt("Err"@, seq![p]), Ok(r)),
        Ok(_) => false,
        Err(e) => rooted_alloc(h0, h1, CellView::Adt("Err"@, seq![p]), Err(e)),
    }
}

impl Heap {
    /// Allocates the dictionary of `fields` and `Ok` around it.
    fn ok_dict_of_fields(&mut self, fields: &Vec<(String, RootedPtr)>) -> (res: Result<TraverseStep<RootedPtr>, EngineError>)
        requires
            old(self).wf(),
            fields_live(*old(self), fields@),
        ensures
            final(self).wf(),
            returns_ok_dict(*old(self), *final(self), fields@, res),
    {
        let ghost h0 = *self;
        let made = self.alloc_dict_of_fields(fields);
        let ghost hd = *self;
        match made {
            Ok(d) => {
                let wrapped = self.result_from_native_pointer(Ok(d));
                proof {
                    assert(rooted_alloc(h0, hd, CellView::Dict(dict_of(field_targets(h0, fields@))), made));
                }
                match wrapped {
                    Ok(r) => Ok(TraverseStep::Return(r)),
                    Err(e) => Err(e),
                }
            },
            Err(e) => {
                proof {
                    assert(rooted_alloc(h0, hd, CellView::Dict(dict_of(field_targets(h0, fields@))), made));
                }
                Err(e)
            },
        }
    }
}

proof fn lemma_fields_follow(h0: Heap, h1: Heap, fields: Seq<(String, RootedPtr)>)
    requires
        rooted_only(h0, h1),
        fields_live(h0, fields),
    ensures
        fields_live(h1, fields),
        field_targets(h1, fields) == field_targets(h0, fields),
{
    let s = choose|s: Set<int>| #[trigger] crate::heap::evolves_except(h0, h1, crate::heap::identity_on(h0), s);
    assert forall|k: int| 0 <= k < fields.len() implies h1.live_root(#[trigger] fields[k].1)
        && h1.root_target(fields[k].1) == h0.root_target(fields[k].1) by {
        crate::heap::lemma_root_follows(h0, h1, crate::heap::identity_on(h0), s, fields[k].1);
        assert(h0.root_pointer(fields[k].1.slot as int) is Some);
    }
    assert(field_targets(h1, fields) =~= field_targets(h0, fields));
}

impl NativeDictTraverse<RootedPtr> {
    /// Starts: the empty dictionary traverses to `Ok` of the empty
    /// dictionary; otherwise the function is applied to the first field.
    pub fn enter(&mut self, heap: &mut Heap) -> (res: Result<TraverseStep<RootedPtr>, EngineError>)
        requires
            old(heap).wf(),
        ensures
            final(heap).wf(),
            final(self).entries@ == old(self).entries@,
            final(self).output@ == old(self).output@,
            if old(self).entries@.len() == 0 {
                returns_ok_dict(*old(heap), *final(heap), Seq::empty(), res)
            } else {
                &&& res matches Ok(TraverseStep::Apply(v)) && v == old(self).entries@[0].1
                &&& final(self).next_index == 0
                &&& *final(heap) == *old(heap)
            },
    {
        if self.entries.len() == 0 {
            let empty: Vec<(String, RootedPtr)> = Vec::new();
            return heap.ok_dict_of_fields(&empty);
        }
        self.next_index = 0;
        Ok(TraverseStep::Apply(self.entries[0].1))
    }

    /// Takes the `Result` that the function gave for the current field.
    pub fn receive(&mut self, heap: &mut Heap, value: RootedPtr) -> (res: Result<TraverseStep<RootedPtr>, EngineError>)
        requires
            old(heap).wf(),
            old(heap).live_root(value),
            old(self).next_index < old(self).entries@.len(),
            fields_live(*old(heap), old(self).output@),
        ensures
            final(heap).wf(),
            final(self).entries@ == old(self).entries@,
            match old(heap).cell_at(old(heap).root_target(value)) {
                CellView::Adt(n, v) => if n == "Ok"@ && v.len() == 1 {
                    let i = old(self).next_index;
                    exists|hm: Heap, r: RootedPtr| #[trigger] rooted_only(*old(heap), hm) && #[trigger] hm.live_root(r) && hm.root_target(r) == v[0]
                        && fields_view(final(self).output@) == dict_insert(fields_view(old(self).output@), old(self).entries@[i as int].0@, r)
                        && fields_live(hm, final(self).output@)
                        && if i + 1 == old(self).entries@.len() {
                            returns_ok_dict(hm, *final(heap), final(self).output@, res)
                        } else {
                            &&& res matches Ok(TraverseStep::Apply(x)) && x == old(self).entries@[i + 1].1
                            &&& final(self).next_index == i + 1
                            &&& *final(heap) == hm
                        }
                } else if n == "Err"@ && v.len() == 1 {
                    exists|hm: Heap| #[trigger] rooted_only(*old(heap), hm) && returns_err(hm, *final(heap), v[0], res)
                } else {
                    res matches Err(EngineError::NativeType { expected, got }) && expected == "Result" && got == "adt"
                },
                other => res matches Err(EngineError::NativeType { expected, got }) && expected == "adt"
                    && got == type_name_of(other) && *final(heap) == *old(heap),
            },
    {
        let ghost h0 = *heap;
        let read = heap.result_value_ptr(value);
        let ghost hm = *heap;
        match read {
            Ok(Ok(v)) => {
                let i = self.next_index;
                let key = self.entries[i].0.clone();
                let ghost before = self.output@;
                dict_insert_field(&mut self.output, key, v);
                proof {
                    lemma_fields_follow(h0, hm, before);
                    assert forall|k: int| 0 <= k < self.output@.len() implies hm.live_root(#[trigger] self.output@[k].1) by {
                        let r = fields_view(self.output@);
                        assert(r[k].1 == self.output@[k].1);
                        crate::dicts::lemma_insert_entries(fields_view(before), self.entries@[i as int].0@, v, k);
                        if r[k] != (self.entries@[i as int].0@, v) {
                            let m = choose|m: int| 0 <= m < fields_view(before).len() && #[trigger] fields_view(before)[m] == r[k];
                            assert(fields_view(before)[m].1 == before[m].1);
                        }
                    }
                }
                let count = self.entries.len();
                self.next_index = i + 1;
                if self.next_index == count {
                    return heap.ok_dict_of_fields(&self.output);
                }
                Ok(TraverseStep::Apply(self.entries[self.next_index].1))
            },
            Ok(Err(err)) => {
                let wrapped = heap.result_from_native_pointer(Err(err));
                match wrapped {
                    Ok(r) => Ok(TraverseStep::Return(r)),
                    Err(e) => Err(e),
                }
            },
            Err(e) => Err(e),
        }
    }
}

} // verus!
