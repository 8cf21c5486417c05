//! The built-in `map`, `filter_map` and `flat_map` over lists.
//!
//! Each runs as a coroutine: it asks the evaluator to apply the function to
//! every element at once (one child frame per element), collects the child
//! results in per-element slots in whatever order they arrive, and builds the
//! result list when the last one is in.

use vstd::prelude::*;

use crate::cell::{children, type_name_of, CellView, InternalPtr, RootedPtr};
use crate::error::{EngineError, FrameFault};
use crate::frames::{is_first_index, all_filled};
use crate::heap::{all_live, compose, evolves_except, identity_on, lemma_root_follows, targets, Heap};
use crate::lists::{list_built, is_alloc_error, list_walk, lists, ptr_elements, reached, spine_ends, stands_for, ListElement, ListItems, ListWalk};
use crate::natives::{rooted_only, NativeSequenceShape};
use crate::scheduler::FrameId;

verus! {

/// What a built-in coroutine asks the evaluator for next.
#[derive(Debug)]
pub enum NativeStep<P> {
    /// Wait for more child results.
    Wait,
    /// Evaluate this many children, one per element.
    Schedule(usize),
    /// Finish with this value.
    Return(P),
}

/// The slot that the result of `child` goes to, or the error for a result
/// that has none: a child not among `children`, a slot past the end, a
/// slot already filled.
pub open spec fn slot_for<T>(kind: &'static str, children: Seq<FrameId>, slots: Seq<Option<T>>, child: FrameId) -> Result<int, EngineError> {
    if forall|j: int| 0 <= j < children.len() ==> children[j] != child {
        Err(EngineError::Frame { kind, fault: FrameFault::UnknownChild })
    } else {
        let i = choose|i: int| is_first_index(children, child, i);
        if i >= slots.len() {
            Err(EngineError::Frame { kind, fault: FrameFault::SlotOutOfBounds })
        } else if slots[i] is Some {
            Err(EngineError::Frame { kind, fault: FrameFault::DuplicateResult })
        } else {
            Ok(i)
        }
    }
}

/// Finds the slot for the result of `child`.
pub fn find_slot<T>(kind: &'static str, children: &Vec<FrameId>, slots: &Vec<Option<T>>, child: FrameId) -> (res: Result<
    usize,
    EngineError,
>)
    ensures
        match slot_for(kind, children@, slots@, child) {
            Ok(i) => res matches Ok(x) && x == i,
            Err(e) => res matches Err(x) && x == e,
        },
{
    let mut i: usize = 0;
    while i < children.len()
        invariant
            0 <= i <= children@.len(),
            forall|j: int| 0 <= j < i ==> children@[j] != child,
        decreases children@.len() - i,
    {
        if children[i] == child {
            proof {
                assert(is_first_index(children@, child, i as int));
                let k = choose|k: int| is_first_index(children@, child, k);
                assert(k == i);
            }
            if i >= slots.len() {
                return Err(EngineError::Frame { kind, fault: FrameFault::SlotOutOfBounds });
            }
            if slots[i].is_some() {
                return Err(EngineError::Frame { kind, fault: FrameFault::DuplicateResult });
            }
            return Ok(i);
        }
        i += 1;
    }
    Err(EngineError::Frame { kind, fault: FrameFault::UnknownChild })
}

/// `n` empty slots.
fn empty_slots<T>(n: usize) -> (v: Vec<Option<T>>)
    ensures
        v@.len() == n,
        forall|i: int| 0 <= i < n ==> (#[trigger] v@[i]) is None,
{
    let mut v: Vec<Option<T>> = Vec::new();
    let mut i: usize = 0;
    while i < n
        invariant
            0 <= i <= n,
            v@.len() == i,
            forall|j: int| 0 <= j < i ==> (#[trigger] v@[j]) is None,
        decreases n - i,
    {
        v.push(None);
        i += 1;
    }
    v
}

/// What building a sequence of the values `vals` left: the new list lists
/// the objects that `vals` stood for in `h0`, forwarded to `h1`.
pub open spec fn sequence_built(h0: Heap, h1: Heap, vals: Seq<RootedPtr>, res: Result<NativeStep<RootedPtr>, EngineError>) -> bool {
    match res {
        Ok(NativeStep::Return(r)) => list_built(h0, h1, vals, Ok(r)),
        Ok(_) => false,
        Err(e) => list_built(h0, h1, vals, Err(e)),
    }
}

impl Heap {
    /// Builds the result sequence.
    fn finish_sequence(&mut self, shape: NativeSequenceShape, vals: &Vec<RootedPtr>) -> (res: Result<NativeStep<RootedPtr>, EngineError>)
        requires
            old(self).wf(),
            all_live(*old(self), vals@),
        ensures
            final(self).wf(),
            sequence_built(*old(self), *final(self), vals@, res),
    {
        let made = self.alloc_native_sequence(shape, vals);
        match made {
            Ok(r) => Ok(NativeStep::Return(r)),
            Err(e) => Err(e),
        }
    }
}

/// The present values of the slots `s`, in order.
pub open spec fn present<T>(s: Seq<Option<T>>) -> Seq<T>
    decreases s.len(),
{
    if s.len() == 0 {
        Seq::empty()
    } else {
        present(s.drop_last()) + match s.last() {
            Some(x) => seq![x],
            None => Seq::empty(),
        }
    }
}

/// The values of the slots `s`, all present, in order.
pub open spec fn unwrapped<T>(s: Seq<Option<T>>) -> Seq<T> {
    s.map_values(|o: Option<T>| o->Some_0)
}

/// Every present value of `s` is a live token of `h`.
pub open spec fn slots_live(h: Heap, s: Seq<Option<RootedPtr>>) -> bool {
    forall|i: int| 0 <= i < s.len() && (#[trigger] s[i]) is Some ==> h.live_root(s[i]->Some_0)
}

/// `map f xs`: one child per element; the result list holds the child
/// results in element order.
#[derive(Debug)]
pub struct NativeSequenceMap<P> {
    pub func: P,
    pub values: ListItems<P>,
    pub shape: NativeSequenceShape,
    pub children: Vec<FrameId>,
    pub output: Vec<Option<P>>,
    pub remaining: usize,
}

impl<P> NativeSequenceMap<P> {
    /// Records a scheduled child frame.
    pub fn push_scheduled_child(&mut self, child: FrameId)
        ensures
            final(self).children@ == old(self).children@.push(child),
            final(self).func == old(self).func,
            final(self).values == old(self).values,
            final(self).shape == old(self).shape,
            final(self).output@ == old(self).output@,
            final(self).remaining == old(self).remaining,
    {
        self.children.push(child);
    }

    /// Whether taking the next result may allocate: only the last one does.
    pub fn receive_may_allocate(&self) -> (b: bool)
        ensures
            b == (self.remaining == 1),
    {
        self.remaining == 1
    }
}

impl NativeSequenceMap<RootedPtr> {
    /// Starts: an empty list maps to the empty list; otherwise one empty
    /// slot per element and a child per element.
    pub fn enter(&mut self, heap: &mut Heap) -> (res: Result<NativeStep<RootedPtr>, EngineError>)
        requires
            old(heap).wf(),
            old(self).values.well_formed(),
        ensures
            final(heap).wf(),
            if old(self).values.item_count() == 0 {
                sequence_built(*old(heap), *final(heap), Seq::empty(), res)
            } else {
                &&& res matches Ok(NativeStep::Schedule(n)) && n == old(self).values.item_count()
                &&& final(self).children@.len() == 0
                &&& final(self).output@.len() == old(self).values.item_count()
                &&& forall|i: int| 0 <= i < final(self).output@.len() ==> (#[trigger] final(self).output@[i]) is None
                &&& final(self).remaining == old(self).values.item_count()
                &&& *final(heap) == *old(heap)
            },
    {
        let n = self.values.len();
        if n == 0 {
            let empty: Vec<RootedPtr> = Vec::new();
            return heap.finish_sequence(self.shape, &empty);
        }
        self.children.clear();
        self.output = empty_slots(n);
        self.remaining = n;
        Ok(NativeStep::Schedule(n))
    }

    /// Takes the result `value` of the child `child`.
    pub fn receive(&mut self, heap: &mut Heap, child: FrameId, value: RootedPtr) -> (res: Result<NativeStep<RootedPtr>, EngineError>)
        requires
            old(heap).wf(),
            old(heap).live_root(value),
            slots_live(*old(heap), old(self).output@),
        ensures
            final(heap).wf(),
            final(self).children@ == old(self).children@,
            match slot_for("native sequence map", old(self).children@, old(self).output@, child) {
                Err(e) => res matches Err(x) && x == e && final(self).output@ == old(self).output@
                    && final(self).remaining == old(self).remaining && *final(heap) == *old(heap),
                Ok(i) => {
                    let slots = old(self).output@.update(i, Some(value));
                    &&& final(self).output@ == slots
                    &&& if old(self).remaining == 0 {
                        res matches Err(e) && e == (EngineError::Frame { kind: "native sequence map", fault: FrameFault::ExcessResult })
                            && *final(heap) == *old(heap)
                    } else if old(self).remaining > 1 {
                        res matches Ok(NativeStep::Wait) && final(self).remaining == old(self).remaining - 1
                            && *final(heap) == *old(heap)
                    } else if !all_filled(slots) {
                        res matches Err(e) && e == (EngineError::Frame { kind: "native sequence map", fault: FrameFault::MissingResult })
                            && final(self).remaining == 0 && *final(heap) == *old(heap)
                    } else {
                        final(self).remaining == 0 && sequence_built(*old(heap), *final(heap), unwrapped(slots), res)
                    }
                },
            },
    {
        let kind = "native sequence map";
        let i = match find_slot(kind, &self.children, &self.output, child) {
            Ok(i) => i,
            Err(e) => return Err(e),
        };
        self.output.set(i, Some(value));
        self.remaining = match self.remaining.checked_sub(1) {
            Some(r) => r,
            None => return Err(EngineError::Frame { kind, fault: FrameFault::ExcessResult }),
        };
        if self.remaining > 0 {
            return Ok(NativeStep::Wait);
        }
        let out = match crate::frames::completed_values(kind, self.output.as_slice()) {
            Ok(v) => v,
            Err(e) => return Err(e),
        };
        proof {
            assert(out@ =~= unwrapped(self.output@));
            assert forall|k: int| 0 <= k < out@.len() implies heap.live_root(#[trigger] out@[k]) by {
                assert(self.output@[k] == Some(out@[k]));
                if k != i {
                    assert(old(self).output@[k] == self.output@[k]);
                }
            }
        }
        heap.finish_sequence(self.shape, &out)
    }
}

/// Whether `c` is an `Option` value: `Some` with one argument or `None`
/// with none.
pub open spec fn is_option_value(c: CellView) -> bool {
    c matches CellView::Adt(n, v) && ((n == "Some"@ && v.len() == 1) || (n == "None"@ && v.len() == 0))
}

/// The error for a result `c` that is not an `Option`: a data value of
/// another type, after rooting its fields, or a value that is no data value
/// at all, with the heap as it was.
pub open spec fn not_option_error<T>(h0: Heap, h1: Heap, c: CellView, res: Result<T, EngineError>) -> bool {
    match c {
        CellView::Adt(_, _) => res matches Err(EngineError::NativeType { expected, got }) && expected == "Option" && got == "adt"
            && rooted_only(h0, h1),
        other => res matches Err(EngineError::NativeType { expected, got }) && expected == "adt" && got == type_name_of(other)
            && h1 == h0,
    }
}

/// `h1` is `h0` after reading the `Option` that `value` stands for, giving
/// `p`: the payload rooted, or nothing for `None`.
pub open spec fn option_read(h0: Heap, h1: Heap, value: RootedPtr, p: Option<RootedPtr>) -> bool {
    &&& h1.wf()
    &&& rooted_only(h0, h1)
    &&& match h0.cell_at(h0.root_target(value)) {
        CellView::Adt(n, v) => if n == "Some"@ && v.len() == 1 {
            p matches Some(r) && h1.live_root(r) && h1.root_target(r) == v[0]
        } else {
            p is None
        },
        _ => false,
    }
}

/// `filter_map f xs`: one child per element, each giving an `Option`; the
/// result list holds the payloads of the `Some` results in element order.
#[derive(Debug)]
pub struct NativeSequenceFilterMap<P> {
    pub func: P,
    pub values: ListItems<P>,
    pub shape: NativeSequenceShape,
    pub children: Vec<FrameId>,
    pub output: Vec<Option<Option<P>>>,
    pub remaining: usize,
}

/// The payloads of the present `Some` results of `s`, in order.
pub open spec fn kept<T>(s: Seq<Option<Option<T>>>) -> Seq<T>
    decreases s.len(),
{
    if s.len() == 0 {
        Seq::empty()
    } else {
        kept(s.drop_last()) + match s.last() {
            Some(Some(x)) => seq![x],
            _ => Seq::empty(),
        }
    }
}

/// Every payload in `s` is a live token of `h`.
pub open spec fn nested_live(h: Heap, s: Seq<Option<Option<RootedPtr>>>) -> bool {
    forall|i: int| 0 <= i < s.len() && (#[trigger] s[i]) is Some && s[i]->Some_0 is Some ==> h.live_root(s[i]->Some_0->Some_0)
}

impl<P> NativeSequenceFilterMap<P> {
    /// Records a scheduled child frame.
    pub fn push_scheduled_child(&mut self, child: FrameId)
        ensures
            final(self).children@ == old(self).children@.push(child),
            final(self).func == old(self).func,
            final(self).values == old(self).values,
            final(self).shape == old(self).shape,
            final(self).output@ == old(self).output@,
            final(self).remaining == old(self).remaining,
    {
        self.children.push(child);
    }

    /// Whether taking the next result may allocate: only the last one does.
    pub fn receive_may_allocate(&self) -> (b: bool)
        ensures
            b == (self.remaining == 1),
    {
        self.remaining == 1
    }
}

proof fn lemma_kept_prefix<T>(s: Seq<Option<Option<T>>>, k: int)
    requires
        0 <= k < s.len(),
    ensures
        kept(s.take(k + 1)) == kept(s.take(k)) + match s[k] {
            Some(Some(x)) => seq![x],
            _ => Seq::<T>::empty(),
        },
{
    assert(s.take(k + 1).drop_last() =~= s.take(k));
}

impl NativeSequenceFilterMap<RootedPtr> {
    /// Starts: an empty list gives the empty list; otherwise one empty slot
    /// per element and a child per element.
    pub fn enter(&mut self, heap: &mut Heap) -> (res: Result<NativeStep<RootedPtr>, EngineError>)
        requires
            old(heap).wf(),
            old(self).values.well_formed(),
        ensures
            final(heap).wf(),
            if old(self).values.item_count() == 0 {
                sequence_built(*old(heap), *final(heap), Seq::empty(), res)
            } else {
                &&& res matches Ok(NativeStep::Schedule(n)) && n == old(self).values.item_count()
                &&& final(self).children@.len() == 0
                &&& final(self).output@.len() == old(self).values.item_count()
                &&& forall|i: int| 0 <= i < final(self).output@.len() ==> (#[trigger] final(self).output@[i]) is None
                &&& final(self).remaining == old(self).values.item_count()
                &&& *final(heap) == *old(heap)
            },
    {
        let n = self.values.len();
        if n == 0 {
            let empty: Vec<RootedPtr> = Vec::new();
            return heap.finish_sequence(self.shape, &empty);
        }
        self.children.clear();
        self.output = empty_slots(n);
        self.remaining = n;
        Ok(NativeStep::Schedule(n))
    }

    /// Takes the result `value` of the child `child`: an `Option`, whose
    /// payload (if any) is kept for the result list.
    #[verifier::loop_isolation(false)]
    pub fn receive(&mut self, heap: &mut Heap, child: FrameId, value: RootedPtr) -> (res: Result<NativeStep<RootedPtr>, EngineError>)
        requires
            old(heap).wf(),
            old(heap).live_root(value),
            nested_live(*old(heap), old(self).output@),
        ensures
            final(heap).wf(),
            final(self).children@ == old(self).children@,
            match slot_for("native sequence filter_map", old(self).children@, old(self).output@, child) {
                Err(e) => res matches Err(x) && x == e && final(self).output@ == old(self).output@
                    && final(self).remaining == old(self).remaining && *final(heap) == *old(heap),
                Ok(i) => if !is_option_value(old(heap).cell_at(old(heap).root_target(value))) {
                    not_option_error(*old(heap), *final(heap), old(heap).cell_at(old(heap).root_target(value)), res)
                        && final(self).output@ == old(self).output@ && final(self).remaining == old(self).remaining
                } else {
                    exists|h1: Heap, p: Option<RootedPtr>| #[trigger] option_read(*old(heap), h1, value, p) && {
                        let slots = old(self).output@.update(i, Some(p));
                        &&& final(self).output@ == slots
                        &&& if old(self).remaining == 0 {
                            res matches Err(e) && e == (EngineError::Frame {
                                kind: "native sequence filter_map",
                                fault: FrameFault::ExcessResult,
                            }) && *final(heap) == h1
                        } else if old(self).remaining > 1 {
                            res matches Ok(NativeStep::Wait) && final(self).remaining == old(self).remaining - 1
                                && *final(heap) == h1 && nested_live(h1, slots)
                        } else if !all_filled(slots) {
                            res matches Err(e) && e == (EngineError::Frame {
                                kind: "native sequence filter_map",
                                fault: FrameFault::MissingResult,
                            }) && *final(heap) == h1
                        } else {
                            final(self).remaining == 0 && sequence_built(h1, *final(heap), kept(slots), res)
                        }
                    }
                },
            },
    {
        let kind = "native sequence filter_map";
        let i = match find_slot(kind, &self.children, &self.output, child) {
            Ok(i) => i,
            Err(e) => return Err(e),
        };
        let ghost h0 = *heap;
        let payload = match heap.option_value_ptr(value) {
            Ok(p) => p,
            Err(e) => return Err(e),
        };
        let ghost h1 = *heap;
        proof {
            let fresh = choose|fresh: Set<int>| #[trigger] evolves_except(h0, h1, identity_on(h0), fresh);
            assert(option_read(h0, h1, value, payload));
            assert(nested_live(h1, self.output@)) by {
                assert forall|k: int| 0 <= k < self.output@.len() && (#[trigger] self.output@[k]) is Some && self.output@[k]->Some_0 is Some
                    implies h1.live_root(self.output@[k]->Some_0->Some_0) by {
                    let r = self.output@[k]->Some_0->Some_0;
                    crate::heap::lemma_root_follows(h0, h1, identity_on(h0), fresh, r);
                }
            }
        }
        self.output.set(i, Some(payload));
        proof {
            assert(nested_live(h1, self.output@));
        }
        self.remaining = match self.remaining.checked_sub(1) {
            Some(r) => r,
            None => return Err(EngineError::Frame { kind, fault: FrameFault::ExcessResult }),
        };
        if self.remaining > 0 {
            return Ok(NativeStep::Wait);
        }
        let mut out: Vec<RootedPtr> = Vec::new();
        let mut k: usize = 0;
        while k < self.output.len()
            invariant
                0 <= k <= self.output@.len(),
                out@ == kept(self.output@.take(k as int)),
                nested_live(*heap, self.output@),
                *heap == h1,
                forall|j: int| 0 <= j < k ==> (#[trigger] self.output@[j]) is Some,
            decreases self.output@.len() - k,
        {
            proof {
                lemma_kept_prefix(self.output@, k as int);
            }
            match self.output[k] {
                Some(Some(r)) => out.push(r),
                Some(None) => {},
                None => {
                    proof {
                        assert(!all_filled(self.output@));
                    }
                    return Err(EngineError::Frame { kind, fault: FrameFault::MissingResult });
                },
            }
            proof {
                assert(out@ =~= kept(self.output@.take(k + 1)));
            }
            k += 1;
        }
        proof {
            assert(self.output@.take(self.output@.len() as int) =~= self.output@);
            assert forall|j: int| 0 <= j < self.output@.len() implies (#[trigger] self.output@[j]) is Some by {}
            assert forall|j: int| 0 <= j < out@.len() implies heap.live_root(#[trigger] out@[j]) by {
                lemma_kept_live(*heap, self.output@, j);
            }
        }
        heap.finish_sequence(self.shape, &out)
    }
}

proof fn lemma_kept_live(h: Heap, s: Seq<Option<Option<RootedPtr>>>, j: int)
    requires
        nested_live(h, s),
        0 <= j < kept(s).len(),
    ensures
        h.live_root(kept(s)[j]),
    decreases s.len(),
{
    let init = s.drop_last();
    assert forall|k: int| 0 <= k < init.len() && (#[trigger] init[k]) is Some && init[k]->Some_0 is Some implies h.live_root(init[k]->Some_0->Some_0) by {
        assert(init[k] == s[k]);
    }
    if j < kept(init).len() {
        lemma_kept_live(h, init, j);
    } else {
        assert(s[s.len() - 1] matches Some(Some(r)));
    }
}

/// `flat_map f xs`: one child per element, each giving a list; the result
/// list holds their elements, child after child in element order.
#[derive(Debug)]
pub struct NativeSequenceFlatMap<P> {
    pub func: P,
    pub values: ListItems<P>,
    pub shape: NativeSequenceShape,
    pub children: Vec<FrameId>,
    pub output: Vec<Option<Vec<P>>>,
    pub remaining: usize,
}

/// The tokens of the present slots of `s`, slot after slot.
pub open spec fn joined<T>(s: Seq<Option<Vec<T>>>) -> Seq<T>
    decreases s.len(),
{
    if s.len() == 0 {
        Seq::empty()
    } else {
        joined(s.drop_last()) + match s.last() {
            Some(v) => v@,
            None => Seq::empty(),
        }
    }
}

/// Every token in the slots `s` is live in `h`.
pub open spec fn vecs_live(h: Heap, s: Seq<Option<Vec<RootedPtr>>>) -> bool {
    forall|i: int| 0 <= i < s.len() && (#[trigger] s[i]) is Some ==> all_live(h, s[i]->Some_0@)
}

/// `h1` is `h0` after flattening the list that `value` stands for into the
/// tokens `items`, one for each of its elements.
pub open spec fn flatten_read(h0: Heap, h1: Heap, value: RootedPtr, items: Seq<RootedPtr>) -> bool {
    &&& h1.wf()
    &&& list_walk(h0, h0.cell_at(h0.root_target(value))) is Done
    &&& exists|f: Map<InternalPtr, InternalPtr>, fresh: Set<int>| #[trigger] reached(h0, h1, f, fresh)
        && stands_for(h1, f, items, list_walk(h0, h0.cell_at(h0.root_target(value)))->Done_0)
}

impl<P> NativeSequenceFlatMap<P> {
    /// Records a scheduled child frame.
    pub fn push_scheduled_child(&mut self, child: FrameId)
        ensures
            final(self).children@ == old(self).children@.push(child),
            final(self).func == old(self).func,
            final(self).values == old(self).values,
            final(self).shape == old(self).shape,
            final(self).output@ == old(self).output@,
            final(self).remaining == old(self).remaining,
    {
        self.children.push(child);
    }

    /// Whether taking the next result may allocate: every result may, as
    /// flattening a binary list makes a value of each byte.
    pub fn receive_may_allocate(&self) -> (b: bool)
        ensures
            b == (self.remaining == 1),
    {
        self.remaining == 1
    }
}

proof fn lemma_vecs_live_evolves(a: Heap, b: Heap, f: Map<InternalPtr, InternalPtr>, fresh: Set<int>, s: Seq<Option<Vec<RootedPtr>>>)
    requires
        vecs_live(a, s),
        evolves_except(a, b, f, fresh),
    ensures
        vecs_live(b, s),
{
    assert forall|i: int| 0 <= i < s.len() && (#[trigger] s[i]) is Some implies all_live(b, s[i]->Some_0@) by {
        let v = s[i]->Some_0@;
        assert forall|k: int| 0 <= k < v.len() implies b.live_root(#[trigger] v[k]) by {
            assert(a.live_root(v[k]));
            crate::heap::lemma_root_follows(a, b, f, fresh, v[k]);
        }
    }
}

proof fn lemma_joined_live(h: Heap, s: Seq<Option<Vec<RootedPtr>>>)
    requires
        vecs_live(h, s),
    ensures
        all_live(h, joined(s)),
    decreases s.len(),
{
    if s.len() > 0 {
        let init = s.drop_last();
        assert forall|i: int| 0 <= i < init.len() && (#[trigger] init[i]) is Some implies all_live(h, init[i]->Some_0@) by {
            assert(init[i] == s[i]);
        }
        lemma_joined_live(h, init);
        match s.last() {
            Some(v) => {
                assert(s[s.len() - 1] is Some);
                assert forall|k: int| 0 <= k < joined(s).len() implies h.live_root(#[trigger] joined(s)[k]) by {
                    if k >= joined(init).len() {
                        assert(joined(s)[k] == v@[k - joined(init).len()]);
                    } else {
                        assert(joined(s)[k] == joined(init)[k]);
                    }
                }
            },
            None => {
                assert(joined(s) =~= joined(init));
            },
        }
    }
}

impl NativeSequenceFlatMap<RootedPtr> {
    /// Starts: an empty list gives the empty list; otherwise one empty slot
    /// per element and a child per element.
    pub fn enter(&mut self, heap: &mut Heap) -> (res: Result<NativeStep<RootedPtr>, EngineError>)
        requires
            old(heap).wf(),
            old(self).values.well_formed(),
        ensures
            final(heap).wf(),
            if old(self).values.item_count() == 0 {
                sequence_built(*old(heap), *final(heap), Seq::empty(), res)
            } else {
                &&& res matches Ok(NativeStep::Schedule(n)) && n == old(self).values.item_count()
                &&& final(self).children@.len() == 0
                &&& final(self).output@.len() == old(self).values.item_count()
                &&& forall|i: int| 0 <= i < final(self).output@.len() ==> (#[trigger] final(self).output@[i]) is None
                &&& final(self).remaining == old(self).values.item_count()
                &&& *final(heap) == *old(heap)
            },
    {
        let n = self.values.len();
        if n == 0 {
            let empty: Vec<RootedPtr> = Vec::new();
            return heap.finish_sequence(self.shape, &empty);
        }
        self.children.clear();
        self.output = empty_slots(n);
        self.remaining = n;
        Ok(NativeStep::Schedule(n))
    }

    /// Takes the result `value` of the child `child`: a list, whose elements
    /// are kept for the result list.
    #[verifier::loop_isolation(false)]
    pub fn receive(&mut self, heap: &mut Heap, child: FrameId, value: RootedPtr) -> (res: Result<NativeStep<RootedPtr>, EngineError>)
        requires
            old(heap).wf(),
            old(heap).live_root(value),
            spine_ends(*old(heap), old(heap).cell_at(old(heap).root_target(value))),
            vecs_live(*old(heap), old(self).output@),
        ensures
            final(heap).wf(),
            final(self).children@ == old(self).children@,
            match slot_for("native sequence flat_map", old(self).children@, old(self).output@, child) {
                Err(e) => res matches Err(x) && x == e && final(self).output@ == old(self).output@
                    && final(self).remaining == old(self).remaining && *final(heap) == *old(heap),
                Ok(i) => match list_walk(*old(heap), old(heap).cell_at(old(heap).root_target(value))) {
                    ListWalk::Fail(e) => res matches Err(x) && x == e && final(self).output@ == old(self).output@
                        && final(self).remaining == old(self).remaining && *final(heap) == *old(heap),
                    ListWalk::Diverges => false,
                    ListWalk::Done(_) => (res matches Err(e) && is_alloc_error(*final(heap), e)) || exists|h1: Heap, items: Vec<RootedPtr>|
                        #[trigger] flatten_read(*old(heap), h1, value, items@) && {
                        let slots = old(self).output@.update(i, Some(items));
                        &&& final(self).output@ == slots
                        &&& if old(self).remaining == 0 {
                            res matches Err(e) && e == (EngineError::Frame {
                                kind: "native sequence flat_map",
                                fault: FrameFault::ExcessResult,
                            }) && *final(heap) == h1
                        } else if old(self).remaining > 1 {
                            res matches Ok(NativeStep::Wait) && final(self).remaining == old(self).remaining - 1
                                && *final(heap) == h1 && vecs_live(h1, slots)
                        } else if !all_filled(slots) {
                            res matches Err(e) && e == (EngineError::Frame {
                                kind: "native sequence flat_map",
                                fault: FrameFault::MissingResult,
                            }) && *final(heap) == h1
                        } else {
                            final(self).remaining == 0 && sequence_built(h1, *final(heap), joined(slots), res)
                        }
                    },
                },
            },
    {
        let kind = "native sequence flat_map";
        let i = match find_slot(kind, &self.children, &self.output, child) {
            Ok(i) => i,
            Err(e) => return Err(e),
        };
        let ghost h0 = *heap;
        let items = match heap.native_flatten_sequence(self.shape, value) {
            Ok(v) => v,
            Err(e) => return Err(e),
        };
        let ghost h1 = *heap;
        proof {
            let s = list_walk(h0, h0.cell_at(h0.root_target(value)))->Done_0;
            let (f, fresh) = choose|f: Map<InternalPtr, InternalPtr>, fresh: Set<int>| #[trigger] reached(h0, h1, f, fresh)
                && stands_for(h1, f, items@, s);
            assert(flatten_read(h0, h1, value, items@));
            lemma_vecs_live_evolves(h0, h1, f, fresh, self.output@);
        }
        let ghost it = items;
        self.output.set(i, Some(items));
        proof {
            assert(vecs_live(h1, self.output@)) by {
                assert forall|k: int| 0 <= k < self.output@.len() && (#[trigger] self.output@[k]) is Some implies all_live(h1, self.output@[k]->Some_0@) by {
                    if k != i {
                        assert(self.output@[k] == old(self).output@[k]);
                    }
                }
            }
        }
        self.remaining = match self.remaining.checked_sub(1) {
            Some(r) => r,
            None => return Err(EngineError::Frame { kind, fault: FrameFault::ExcessResult }),
        };
        if self.remaining > 0 {
            return Ok(NativeStep::Wait);
        }
        let mut out: Vec<RootedPtr> = Vec::new();
        let mut k: usize = 0;
        while k < self.output.len()
            invariant
                0 <= k <= self.output@.len(),
                out@ == joined(self.output@.take(k as int)),
                *heap == h1,
                forall|j: int| 0 <= j < k ==> (#[trigger] self.output@[j]) is Some,
            decreases self.output@.len() - k,
        {
            proof {
                assert(self.output@.take(k + 1).drop_last() =~= self.output@.take(k as int));
            }
            match &self.output[k] {
                Some(v) => {
                    let mut j: usize = 0;
                    let ghost before = out@;
                    while j < v.len()
                        invariant
                            0 <= j <= v@.len(),
                            out@ == before + v@.take(j as int),
                        decreases v@.len() - j,
                    {
                        out.push(v[j]);
                        j += 1;
                        proof {
                            assert(out@ =~= before + v@.take(j as int));
                        }
                    }
                    proof {
                        assert(v@.take(v@.len() as int) =~= v@);
                    }
                },
                None => {
                    proof {
                        assert(!all_filled(self.output@));
                    }
                    return Err(EngineError::Frame { kind, fault: FrameFault::MissingResult });
                },
            }
            k += 1;
        }
        proof {
            assert(self.output@.take(self.output@.len() as int) =~= self.output@);
            lemma_joined_live(h1, self.output@);
        }
        heap.finish_sequence(self.shape, &out)
    }
}


/// Whether the items `items` can be read in `h`: the backing data of a
/// slice is live and covers the slice, the bytes of a binary slice cover
/// its range, and every value token is live.
pub open spec fn items_readable(h: Heap, items: ListItems<RootedPtr>) -> bool {
    match items {
        ListItems::Slice { elements, start, end } => {
            &&& h.live_root(elements)
            &&& start <= end
            &&& h.cell_at(h.root_target(elements)) matches CellView::Data(d) && end <= d.len()
        },
        ListItems::BinarySlice { start, end, bytes, .. } => start <= end && end - start <= bytes@.len(),
        ListItems::Pointers(rs) => all_live(h, rs@),
    }
}

/// Item `i` of `items` as `h` has it: a pointer to an object, or a byte.
pub open spec fn item_element(h: Heap, items: ListItems<RootedPtr>, i: int) -> ListElement {
    match items {
        ListItems::Slice { elements, start, .. } => ListElement::InternalPtr(
            h.cell_at(h.root_target(elements))->Data_0[start + i],
        ),
        ListItems::BinarySlice { bytes, .. } => ListElement::U8(bytes@[i]),
        ListItems::Pointers(rs) => ListElement::InternalPtr(h.root_target(rs@[i])),
    }
}

/// All the items of `items` as `h` has them.
pub open spec fn item_elements(h: Heap, items: ListItems<RootedPtr>) -> Seq<ListElement> {
    Seq::new(items.item_count() as nat, |i: int| item_element(h, items, i))
}

/// `e` with its pointer, if it has one, sent through `f`.
pub open spec fn moved(e: ListElement, f: Map<InternalPtr, InternalPtr>) -> ListElement {
    match e {
        ListElement::InternalPtr(p) => ListElement::InternalPtr(f[p]),
        ListElement::U8(x) => ListElement::U8(x),
    }
}

/// The elements of `s` whose slot in `keep` holds `true`, in order.
pub open spec fn selected(s: Seq<ListElement>, keep: Seq<Option<bool>>) -> Seq<ListElement>
    decreases keep.len(),
{
    if keep.len() == 0 {
        Seq::empty()
    } else {
        selected(s, keep.drop_last()) + if keep.last() == Some(true) {
            seq![s[keep.len() - 1]]
        } else {
            Seq::empty()
        }
    }
}

/// The objects `ptrs` of `h` hold the elements `sel`, whose pointers are
/// sent through `f`: the same object for a pointer, a `u8` object for a byte.
pub open spec fn holds_elements(h: Heap, f: Map<InternalPtr, InternalPtr>, ptrs: Seq<InternalPtr>, sel: Seq<ListElement>) -> bool {
    &&& ptrs.len() == sel.len()
    &&& forall|k: int| 0 <= k < ptrs.len() ==> match #[trigger] sel[k] {
        ListElement::InternalPtr(p) => f.contains_key(p) && ptrs[k] == f[p],
        ListElement::U8(x) => h.cell_at(ptrs[k]) == CellView::U8(x),
    }
}

/// What finishing a filter left: some forwarding map relates the heaps; the
/// new list holds the items of `items` (as `h0` had them) whose slot says
/// `true`, in order; or a slot had no result, or an allocation ran out.
pub open spec fn filter_built(
    h0: Heap,
    h1: Heap,
    items: ListItems<RootedPtr>,
    keep: Seq<Option<bool>>,
    res: Result<NativeStep<RootedPtr>, EngineError>,
) -> bool {
    exists|f: Map<InternalPtr, InternalPtr>, fresh: Set<int>| #[trigger] reached(h0, h1, f, fresh)
        && match res {
            Ok(NativeStep::Return(r)) => {
                &&& all_filled(keep)
                &&& h1.live_root(r)
                &&& exists|ptrs: Seq<InternalPtr>| #[trigger] lists(h1, h1.cell_at(h1.root_target(r)), ptr_elements(ptrs))
                    && holds_elements(h1, f, ptrs, selected(item_elements(h0, items), keep))
            },
            Ok(_) => false,
            Err(e) => is_alloc_error(h1, e) || (!all_filled(keep) && e == (EngineError::Frame {
                kind: "native sequence filter",
                fault: FrameFault::MissingResult,
            })),
        }
}

/// The items of `items`, as `h` has them, are the elements `e0` moved by
/// `f`.
pub open spec fn items_track(h: Heap, items: ListItems<RootedPtr>, e0: Seq<ListElement>, f: Map<InternalPtr, InternalPtr>) -> bool {
    &&& items_readable(h, items)
    &&& items.item_count() == e0.len()
    &&& forall|j: int| 0 <= j < e0.len() ==> (#[trigger] e0[j] matches ListElement::InternalPtr(p) ==> f.contains_key(p))
        && item_element(h, items, j) == moved(e0[j], f)
}

proof fn lemma_items_track_start(h: Heap, items: ListItems<RootedPtr>)
    requires
        h.wf(),
        items_readable(h, items),
    ensures
        items_track(h, items, item_elements(h, items), identity_on(h)),
{
    let e0 = item_elements(h, items);
    assert forall|j: int| 0 <= j < e0.len() implies (#[trigger] e0[j] matches ListElement::InternalPtr(p) ==> identity_on(h).contains_key(p))
        && item_element(h, items, j) == moved(e0[j], identity_on(h)) by {
        match items {
            ListItems::Slice { elements, start, end } => {
                let t = h.root_target(elements);
                assert(h.root_pointer(elements.slot as int) is Some);
                assert(h.valid_ptr(t));
                let d = h.cell_at(t)->Data_0;
                assert(children(h.slot_cell(t.index as int)) == d);
                assert(h.valid_ptr(children(h.slot_cell(t.index as int))[start + j]));
            },
            ListItems::BinarySlice { .. } => {},
            ListItems::Pointers(rs) => {
                assert(h.live_root(rs@[j]));
                assert(h.root_pointer(rs@[j].slot as int) is Some);
            },
        }
    }
}

proof fn lemma_items_track_step(
    a: Heap,
    b: Heap,
    g: Map<InternalPtr, InternalPtr>,
    s: Set<int>,
    items: ListItems<RootedPtr>,
    e0: Seq<ListElement>,
    f: Map<InternalPtr, InternalPtr>,
)
    requires
        evolves_except(a, b, g, s),
        items_track(a, items, e0, f),
    ensures
        items_track(b, items, e0, compose(f, g)),
{
    match items {
        ListItems::Slice { elements, start, end } => {
            lemma_root_follows(a, b, g, s, elements);
            let t = a.root_target(elements);
            let d = a.cell_at(t)->Data_0;
            assert(children(a.cell_at(t)) == d);
            assert(b.cell_at(g[t]) == crate::cell::map_cell(a.cell_at(t), g));
            assert(b.cell_at(b.root_target(elements)) == CellView::Data(d.map_values(|q: InternalPtr| g[q])));
            assert forall|j: int| 0 <= j < e0.len() implies (#[trigger] e0[j] matches ListElement::InternalPtr(p) ==> compose(f, g).contains_key(p))
                && item_element(b, items, j) == moved(e0[j], compose(f, g)) by {
                assert(item_element(a, items, j) == moved(e0[j], f));
                assert(g.contains_key(d[start + j]));
            }
        },
        ListItems::BinarySlice { .. } => {
            assert forall|j: int| 0 <= j < e0.len() implies (#[trigger] e0[j] matches ListElement::InternalPtr(p) ==> compose(f, g).contains_key(p))
                && item_element(b, items, j) == moved(e0[j], compose(f, g)) by {
                assert(item_element(a, items, j) == moved(e0[j], f));
            }
        },
        ListItems::Pointers(rs) => {
            assert forall|k: int| 0 <= k < rs@.len() implies b.live_root(#[trigger] rs@[k]) by {
                assert(a.live_root(rs@[k]));
                lemma_root_follows(a, b, g, s, rs@[k]);
            }
            assert forall|j: int| 0 <= j < e0.len() implies (#[trigger] e0[j] matches ListElement::InternalPtr(p) ==> compose(f, g).contains_key(p))
                && item_element(b, items, j) == moved(e0[j], compose(f, g)) by {
                assert(a.live_root(rs@[j]));
                lemma_root_follows(a, b, g, s, rs@[j]);
                assert(item_element(a, items, j) == moved(e0[j], f));
            }
        },
    }
}

proof fn lemma_stands_for_evolve(
    a: Heap,
    b: Heap,
    f: Map<InternalPtr, InternalPtr>,
    g: Map<InternalPtr, InternalPtr>,
    s: Set<int>,
    rs: Seq<RootedPtr>,
    sel: Seq<ListElement>,
)
    requires
        stands_for(a, f, rs, sel),
        evolves_except(a, b, g, s),
    ensures
        stands_for(b, compose(f, g), rs, sel),
        forall|k: int| 0 <= k < rs.len() ==> !s.contains(#[trigger] rs[k].slot as int),
{
    assert forall|k: int| 0 <= k < rs.len() implies b.live_root(#[trigger] rs[k]) && !s.contains(rs[k].slot as int) && match sel[k] {
        ListElement::InternalPtr(p) => compose(f, g).contains_key(p) && b.root_target(rs[k]) == compose(f, g)[p],
        ListElement::U8(x) => b.cell_at(b.root_target(rs[k])) == CellView::U8(x),
    } by {
        assert(a.live_root(rs[k]));
        lemma_root_follows(a, b, g, s, rs[k]);
        let t = a.root_target(rs[k]);
        match sel[k] {
            ListElement::InternalPtr(p) => {},
            ListElement::U8(x) => {
                assert(a.cell_at(t) == CellView::U8(x));
                assert(crate::cell::map_cell(CellView::U8(x), g) == CellView::U8(x));
            },
        }
    }
}

/// `filter p xs`: one child per element, each giving a boolean; the result
/// list holds the elements whose result is `true`, in element order.
#[derive(Debug)]
pub struct NativeSequenceFilter<P> {
    pub func: P,
    pub values: ListItems<P>,
    pub shape: NativeSequenceShape,
    pub children: Vec<FrameId>,
    pub keep: Vec<Option<bool>>,
    pub remaining: usize,
}

impl<P> NativeSequenceFilter<P> {
    /// Records a scheduled child frame.
    pub fn push_scheduled_child(&mut self, child: FrameId)
        ensures
            final(self).children@ == old(self).children@.push(child),
            final(self).func == old(self).func,
            final(self).values == old(self).values,
            final(self).shape == old(self).shape,
            final(self).keep@ == old(self).keep@,
            final(self).remaining == old(self).remaining,
    {
        self.children.push(child);
    }

    /// Whether taking the next result may allocate: only the last one does.
    pub fn receive_may_allocate(&self) -> (b: bool)
        ensures
            b == (self.remaining == 1),
    {
        self.remaining == 1
    }
}

impl NativeSequenceFilter<RootedPtr> {
    /// Starts: an empty list filters to the empty list; otherwise one empty
    /// slot per element and a child per element.
    pub fn enter(&mut self, heap: &mut Heap) -> (res: Result<NativeStep<RootedPtr>, EngineError>)
        requires
            old(heap).wf(),
            old(self).values.well_formed(),
        ensures
            final(heap).wf(),
            final(self).values == old(self).values,
            if old(self).values.item_count() == 0 {
                sequence_built(*old(heap), *final(heap), Seq::empty(), res)
            } else {
                &&& res matches Ok(NativeStep::Schedule(n)) && n == old(self).values.item_count()
                &&& final(self).children@.len() == 0
                &&& final(self).keep@.len() == old(self).values.item_count()
                &&& forall|i: int| 0 <= i < final(self).keep@.len() ==> (#[trigger] final(self).keep@[i]) is None
                &&& final(self).remaining == old(self).values.item_count()
                &&& *final(heap) == *old(heap)
            },
    {
        let n = self.values.len();
        if n == 0 {
            let empty: Vec<RootedPtr> = Vec::new();
            return heap.finish_sequence(self.shape, &empty);
        }
        self.children.clear();
        self.keep = empty_slots(n);
        self.remaining = n;
        Ok(NativeStep::Schedule(n))
    }

    /// Takes the boolean result `value` of the child `child`.
    pub fn receive(&mut self, heap: &mut Heap, child: FrameId, value: RootedPtr) -> (res: Result<NativeStep<RootedPtr>, EngineError>)
        requires
            old(heap).wf(),
            old(heap).live_root(value),
            items_readable(*old(heap), old(self).values),
            old(self).keep@.len() == old(self).values.item_count(),
        ensures
            final(heap).wf(),
            final(self).children@ == old(self).children@,
            final(self).values == old(self).values,
            match slot_for("native sequence filter", old(self).children@, old(self).keep@, child) {
                Err(e) => res matches Err(x) && x == e && final(self).keep@ == old(self).keep@
                    && final(self).remaining == old(self).remaining && *final(heap) == *old(heap),
                Ok(i) => match old(heap).cell_at(old(heap).root_target(value)) {
                    CellView::Bool(b) => {
                        let slots = old(self).keep@.update(i, Some(b));
                        &&& final(self).keep@ == slots
                        &&& if old(self).remaining == 0 {
                            res matches Err(e) && e == (EngineError::Frame { kind: "native sequence filter", fault: FrameFault::ExcessResult })
                                && *final(heap) == *old(heap)
                        } else if old(self).remaining > 1 {
                            res matches Ok(NativeStep::Wait) && final(self).remaining == old(self).remaining - 1
                                && *final(heap) == *old(heap)
                        } else {
                            final(self).remaining == 0 && filter_built(*old(heap), *final(heap), old(self).values, slots, res)
                        }
                    },
                    other => res matches Err(EngineError::NativeType { expected, got }) && expected == "bool"
                        && got == type_name_of(other) && final(self).keep@ == old(self).keep@
                        && final(self).remaining == old(self).remaining && *final(heap) == *old(heap),
                },
            },
    {
        let kind = "native sequence filter";
        let i = match find_slot(kind, &self.children, &self.keep, child) {
            Ok(i) => i,
            Err(e) => return Err(e),
        };
        let b = match heap.root_as_bool(value) {
            Ok(b) => b,
            Err(e) => return Err(e),
        };
        self.keep.set(i, Some(b));
        self.remaining = match self.remaining.checked_sub(1) {
            Some(r) => r,
            None => return Err(EngineError::Frame { kind, fault: FrameFault::ExcessResult }),
        };
        if self.remaining > 0 {
            return Ok(NativeStep::Wait);
        }
        self.finish_filter(heap)
    }

    /// Builds the result list from the filled slots.
    fn finish_filter(&self, heap: &mut Heap) -> (res: Result<NativeStep<RootedPtr>, EngineError>)
        requires
            old(heap).wf(),
            items_readable(*old(heap), self.values),
            self.keep@.len() == self.values.item_count(),
        ensures
            final(heap).wf(),
            filter_built(*old(heap), *final(heap), self.values, self.keep@, res),
    {
        let ghost h0 = *heap;
        let ghost e0 = item_elements(h0, self.values);
        let ghost mut f: Map<InternalPtr, InternalPtr> = identity_on(h0);
        let ghost mut fresh: Set<int> = Set::empty();
        proof {
            lemma_items_track_start(h0, self.values);
            crate::heap::lemma_evolves_refl(h0);
            assert(reached(h0, h0, f, fresh));
            assert(selected(e0, self.keep@.take(0)) =~= Seq::<ListElement>::empty());
        }
        let mut out: Vec<RootedPtr> = Vec::new();
        let mut i: usize = 0;
        while i < self.keep.len()
            invariant
                0 <= i <= self.keep@.len(),
                self.keep@.len() == self.values.item_count(),
                heap.wf(),
                h0 == *old(heap),
                e0 == item_elements(h0, self.values),
                reached(h0, *heap, f, fresh),
                items_track(*heap, self.values, e0, f),
                stands_for(*heap, f, out@, selected(e0, self.keep@.take(i as int))),
                all_filled(self.keep@.take(i as int)),
            decreases self.keep@.len() - i,
        {
            proof {
                assert(self.keep@.take(i + 1).drop_last() =~= self.keep@.take(i as int));
                assert(self.keep@.take(i + 1).last() == self.keep@[i as int]);
            }
            match self.keep[i] {
                Some(true) => {
                    let ghost before = *heap;
                    let ghost before_out = out@;
                    proof {
                        assert(item_element(before, self.values, i as int) == moved(e0[i as int], f));
                    }
                    let got = self.values.get(heap, i);
                    let ghost after = *heap;
                    match got {
                        Ok(r) => {
                            let ghost g: Map<InternalPtr, InternalPtr>;
                            let ghost s2: Set<int>;
                            proof {
                                match &self.values {
                                    ListItems::BinarySlice { bytes, .. } => {
                                        let gg = choose|gg: Map<InternalPtr, InternalPtr>| #[trigger] crate::heap::rooted_alloc_with(before, after, gg, CellView::U8(bytes@[i as int]), Ok(r));
                                        g = gg;
                                        s2 = set![r.slot as int];
                                        assert(e0[i as int] == ListElement::U8(bytes@[i as int]));
                                        assert(crate::cell::map_cell(CellView::U8(bytes@[i as int]), g) == CellView::U8(bytes@[i as int]));
                                        assert(after.cell_at(after.root_target(r)) == CellView::U8(bytes@[i as int]));
                                    },
                                    ListItems::Slice { elements, start, .. } => {
                                        g = identity_on(before);
                                        s2 = crate::heap::token_slots(seq![r]);
                                        assert(seq![r][0] == r);
                                        assert(targets(after, seq![r])[0] == after.root_target(r));
                                        let p = e0[i as int]->InternalPtr_0;
                                        assert(before.valid_ptr(f[p]));
                                        assert(after.root_target(r) == f[p]);
                                    },
                                    ListItems::Pointers(rs) => {
                                        g = identity_on(before);
                                        s2 = Set::empty();
                                        crate::heap::lemma_evolves_refl(before);
                                        assert(before.live_root(rs@[i as int]));
                                        assert(before.root_pointer(rs@[i as int].slot as int) is Some);
                                        let p = e0[i as int]->InternalPtr_0;
                                        assert(before.valid_ptr(f[p]));
                                    },
                                }
                                assert(evolves_except(before, after, g, s2));
                                assert(after.live_root(r));
                                assert(match e0[i as int] {
                                    ListElement::InternalPtr(p) => compose(f, g).contains_key(p) && after.root_target(r) == compose(f, g)[p],
                                    ListElement::U8(x) => after.cell_at(after.root_target(r)) == CellView::U8(x),
                                });
                                lemma_stands_for_evolve(before, after, f, g, s2, before_out, selected(e0, self.keep@.take(i as int)));
                                lemma_items_track_step(before, after, g, s2, self.values, e0, f);
                                crate::heap::lemma_evolves_compose(h0, before, after, f, g, fresh, s2);
                                f = compose(f, g);
                                fresh = fresh + s2;
                            }
                            out.push(r);
                            proof {
                                assert(selected(e0, self.keep@.take(i + 1)) =~= selected(e0, self.keep@.take(i as int)).push(e0[i as int]));
                                assert(stands_for(*heap, f, out@, selected(e0, self.keep@.take(i + 1)))) by {
                                    let sel = selected(e0, self.keep@.take(i + 1));
                                    assert forall|k: int| 0 <= k < out@.len() implies match #[trigger] sel[k] {
                                        ListElement::InternalPtr(p) => f.contains_key(p) && heap.root_target(out@[k]) == f[p],
                                        ListElement::U8(x) => heap.cell_at(heap.root_target(out@[k])) == CellView::U8(x),
                                    } by {
                                        if k < before_out.len() {
                                            assert(out@[k] == before_out[k]);
                                        }
                                    }
                                    assert(all_live(*heap, out@));
                                }
                            }
                        },
                        Err(e) => {
                            proof {
                                match self.values {
                                    ListItems::BinarySlice { .. } => {
                                        let gg = choose|gg: Map<InternalPtr, InternalPtr>| #[trigger] crate::heap::rooted_alloc_with(before, after, gg, CellView::U8(e0[i as int]->U8_0), Err(e));
                                        crate::heap::lemma_evolves_compose(h0, before, after, f, gg, fresh, Set::empty());
                                        assert(reached(h0, after, compose(f, gg), fresh + Set::empty()));
                                        assert(is_alloc_error(after, e));
                                    },
                                    _ => {
                                        assert(false);
                                    },
                                }
                            }
                            return Err(e);
                        },
                    }
                },
                Some(false) => {
                    proof {
                        assert(selected(e0, self.keep@.take(i + 1)) =~= selected(e0, self.keep@.take(i as int)));
                    }
                },
                None => {
                    proof {
                        assert(!all_filled(self.keep@));
                    }
                    return Err(EngineError::Frame { kind: "native sequence filter", fault: FrameFault::MissingResult });
                },
            }
            i += 1;
        }
        proof {
            assert(self.keep@.take(self.keep@.len() as int) =~= self.keep@);
        }
        let ghost mid = *heap;
        let done = heap.finish_sequence(self.shape, &out);
        proof {
            let sel = selected(e0, self.keep@);
            let g = choose|g: Map<InternalPtr, InternalPtr>, s2: Set<int>| #[trigger] reached(mid, *heap, g, s2)
                && (forall|k: int| 0 <= k < out@.len() ==> g.contains_key(#[trigger] targets(mid, out@)[k]))
                && match done {
                    Ok(NativeStep::Return(r)) => heap.live_root(r) && lists(
                        *heap,
                        heap.cell_at(heap.root_target(r)),
                        ptr_elements(targets(mid, out@).map_values(|p: InternalPtr| g[p])),
                    ),
                    Err(e) => is_alloc_error(*heap, e),
                    _ => false,
                };
            let gm = g.0;
            let s2 = g.1;
            crate::heap::lemma_evolves_compose(h0, mid, *heap, f, gm, fresh, s2);
            assert(reached(h0, *heap, compose(f, gm), fresh + s2));
            match done {
                Ok(NativeStep::Return(r)) => {
                    let ptrs = targets(mid, out@).map_values(|p: InternalPtr| gm[p]);
                    assert(lists(*heap, heap.cell_at(heap.root_target(r)), ptr_elements(ptrs)));
                    assert forall|k: int| 0 <= k < ptrs.len() implies match #[trigger] sel[k] {
                        ListElement::InternalPtr(p) => compose(f, gm).contains_key(p) && ptrs[k] == compose(f, gm)[p],
                        ListElement::U8(x) => heap.cell_at(ptrs[k]) == CellView::U8(x),
                    } by {
                        assert(gm.contains_key(targets(mid, out@)[k]));
                        let t = mid.root_target(out@[k]);
                        assert(targets(mid, out@)[k] == t);
                        match sel[k] {
                            ListElement::InternalPtr(p) => {},
                            ListElement::U8(x) => {
                                assert(mid.cell_at(t) == CellView::U8(x));
                                assert(crate::cell::map_cell(CellView::U8(x), gm) == CellView::U8(x));
                            },
                        }
                    }
                    assert(holds_elements(*heap, compose(f, gm), ptrs, sel));
                },
                _ => {},
            }
        }
        done
    }
}

} // verus!
