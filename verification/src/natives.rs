//! Decisions of the built-in list functions that run as coroutines.
//!
//! A built-in such as list equality or `mean` cannot call back into the
//! evaluator directly: it asks for one function application at a time and
//! resumes with its result. These machines decide, from their state and the
//! result they receive, what to ask for next; the evaluator performs the
//! application. Also here: the list and `Option`/`Result` values that
//! built-ins take and build.

use vstd::prelude::*;

use crate::cell::{type_name_of, CellView, InternalPtr, RootedPtr};
use crate::error::{EngineError, FrameFault};
use crate::frames::unexpected_child_result;
use crate::heap::{all_live, evolves_except, identity_on, rooted_all, rooted_alloc, targets, Heap};
use crate::lists::{list_built, is_alloc_error, list_walk, lists, ptr_elements, reached, spine_ends, stands_for, ListItems, ListWalk};

verus! {

/// The shape of sequence that a built-in reads and builds.
#[derive(Clone, Copy, Debug, PartialEq, Eq, Structural)]
pub enum NativeSequenceShape {
    List,
}

impl Heap {
    /// Builds a sequence of the given shape from rooted values.
    pub fn alloc_native_sequence(&mut self, shape: NativeSequenceShape, values: &Vec<RootedPtr>) -> (res: Result<
        RootedPtr,
        EngineError,
    >)
        requires
            old(self).wf(),
            all_live(*old(self), values@),
        ensures
            final(self).wf(),
            list_built(*old(self), *final(self), values@, res),
    {
        match shape {
            NativeSequenceShape::List => self.alloc_root_list(values),
        }
    }

    /// Roots the elements of a sequence of the given shape.
    pub fn native_flatten_sequence(&mut self, shape: NativeSequenceShape, root: RootedPtr) -> (res: Result<
        Vec<RootedPtr>,
        EngineError,
    >)
        requires
            old(self).wf(),
            old(self).live_root(root),
            spine_ends(*old(self), old(self).cell_at(old(self).root_target(root))),
        ensures
            final(self).wf(),
            match list_walk(*old(self), old(self).cell_at(old(self).root_target(root))) {
                ListWalk::Done(s) => exists|f: Map<InternalPtr, InternalPtr>, fresh: Set<int>| #[trigger] reached(*old(self), *final(self), f, fresh)
                    && match res {
                        Ok(rs) => stands_for(*final(self), f, rs@, s),
                        Err(e) => is_alloc_error(*final(self), e),
                    },
                ListWalk::Fail(e) => res matches Err(x) && x == e && *final(self) == *old(self),
                ListWalk::Diverges => false,
            },
    {
        match shape {
            NativeSequenceShape::List => self.root_as_list(root),
        }
    }
}

/// Whether two strings hold the same characters.
pub fn same_text(a: &str, b: &str) -> (r: bool)
    ensures
        r == (a@ == b@),
{
    let x = crate::text::chars_of(a);
    let y = crate::text::chars_of(b);
    if x.len() != y.len() {
        return false;
    }
    let mut i: usize = 0;
    while i < x.len()
        invariant
            0 <= i <= x@.len(),
            x@.len() == y@.len(),
            x@ == a@,
            y@ == b@,
            forall|j: int| 0 <= j < i ==> x@[j] == y@[j],
        decreases x@.len() - i,
    {
        if x[i] != y[i] {
            return false;
        }
        i += 1;
    }
    proof {
        assert(x@ =~= y@);
    }
    true
}

/// A heap `b` that differs from `a` only by new runtime roots: every
/// object and every earlier root is where it was.
pub open spec fn rooted_only(a: Heap, b: Heap) -> bool {
    &&& exists|fresh: Set<int>| #[trigger] evolves_except(a, b, identity_on(a), fresh)
    &&& b.stress() == a.stress()
    &&& b.deferred() == a.deferred()
}

/// Rooting leaves a heap that differs only by new runtime roots.
pub proof fn lemma_rooted_all_only(a: Heap, b: Heap, ptrs: Seq<InternalPtr>, rs: Seq<RootedPtr>)
    requires
        rooted_all(a, b, ptrs, rs),
    ensures
        rooted_only(a, b),
{
    assert(evolves_except(a, b, identity_on(a), crate::heap::token_slots(rs)));
}

/// Two steps that only add runtime roots add only runtime roots.
pub proof fn lemma_rooted_only_trans(a: Heap, b: Heap, c: Heap)
    requires
        rooted_only(a, b),
        rooted_only(b, c),
    ensures
        rooted_only(a, c),
{
    let s1 = choose|s1: Set<int>| #[trigger] evolves_except(a, b, identity_on(a), s1);
    let s2 = choose|s2: Set<int>| #[trigger] evolves_except(b, c, identity_on(b), s2);
    crate::heap::lemma_evolves_compose(a, b, c, identity_on(a), identity_on(b), s1, s2);
    assert(crate::heap::compose(identity_on(a), identity_on(b)) =~= identity_on(a)) by {
        assert forall|p: InternalPtr| #[trigger] identity_on(a).contains_key(p) implies identity_on(b).contains_key(p) by {
            assert(b.valid_ptr(identity_on(a)[p]));
        }
    }
    assert(evolves_except(a, c, identity_on(a), s1 + s2));
}

impl Heap {
    /// Reads a rooted `Option` value: `Some` with its one argument, or
    /// `None`. Any other value is an error naming its kind.
    pub fn option_value_ptr(&mut self, pointer: RootedPtr) -> (res: Result<Option<RootedPtr>, EngineError>)
        requires
            old(self).wf(),
            old(self).live_root(pointer),
        ensures
            final(self).wf(),
            rooted_only(*old(self), *final(self)),
            match old(self).cell_at(old(self).root_target(pointer)) {
                CellView::Adt(n, v) => if n == "Some"@ && v.len() == 1 {
                    res matches Ok(Some(r)) && final(self).live_root(r) && final(self).root_target(r) == v[0]
                } else if n == "None"@ && v.len() == 0 {
                    res matches Ok(None)
                } else {
                    res matches Err(EngineError::NativeType { expected, got }) && expected == "Option" && got == "adt"
                },
                other => res matches Err(EngineError::NativeType { expected, got }) && expected == "adt"
                    && got == type_name_of(other) && *final(self) == *old(self),
            },
    {
        let ghost h0 = *self;
        proof {
            crate::heap::lemma_evolves_refl(h0);
        }
        let (tag, args) = match self.root_as_adt(pointer) {
            Ok(x) => x,
            Err(e) => return Err(e),
        };
        if same_text(tag.as_str(), "Some") && args.len() == 1 {
            proof {
                assert(self.live_root(args@[0]));
                assert(targets(*self, args@)[0] == self.root_target(args@[0]));
            }
            Ok(Some(args[0]))
        } else if same_text(tag.as_str(), "None") && args.len() == 0 {
            Ok(None)
        } else {
            proof {
                crate::heap::lemma_root_follows(h0, *self, crate::heap::identity_on(h0), crate::heap::token_slots(args@), pointer);
            }
            let got = match self.root_type_name(pointer) {
                Ok(n) => n,
                Err(e) => return Err(e),
            };
            Err(EngineError::NativeType { expected: "Option", got })
        }
    }

    /// Reads a rooted `Result` value: `Ok` or `Err` with its one argument.
    /// Any other value is an error naming its kind.
    pub fn result_value_ptr(&mut self, pointer: RootedPtr) -> (res: Result<Result<RootedPtr, RootedPtr>, EngineError>)
        requires
            old(self).wf(),
            old(self).live_root(pointer),
        ensures
            final(self).wf(),
            rooted_only(*old(self), *final(self)),
            match old(self).cell_at(old(self).root_target(pointer)) {
                CellView::Adt(n, v) => if n == "Ok"@ && v.len() == 1 {
                    res matches Ok(Ok(r)) && final(self).live_root(r) && final(self).root_target(r) == v[0]
                } else if n == "Err"@ && v.len() == 1 {
                    res matches Ok(Err(r)) && final(self).live_root(r) && final(self).root_target(r) == v[0]
                } else {
                    res matches Err(EngineError::NativeType { expected, got }) && expected == "Result" && got == "adt"
                },
                other => res matches Err(EngineError::NativeType { expected, got }) && expected == "adt"
                    && got == type_name_of(other) && *final(self) == *old(self),
            },
    {
        let ghost h0 = *self;
        proof {
            crate::heap::lemma_evolves_refl(h0);
        }
        let (tag, args) = match self.root_as_adt(pointer) {
            Ok(x) => x,
            Err(e) => return Err(e),
        };
        if same_text(tag.as_str(), "Ok") && args.len() == 1 {
            proof {
                assert(self.live_root(args@[0]));
                assert(targets(*self, args@)[0] == self.root_target(args@[0]));
            }
            Ok(Ok(args[0]))
        } else if same_text(tag.as_str(), "Err") && args.len() == 1 {
            proof {
                assert(self.live_root(args@[0]));
                assert(targets(*self, args@)[0] == self.root_target(args@[0]));
            }
            Ok(Err(args[0]))
        } else {
            proof {
                crate::heap::lemma_root_follows(h0, *self, crate::heap::identity_on(h0), crate::heap::token_slots(args@), pointer);
            }
            let got = match self.root_type_name(pointer) {
                Ok(n) => n,
                Err(e) => return Err(e),
            };
            Err(EngineError::NativeType { expected: "Result", got })
        }
    }

    /// Builds `Some(value)` or `None`.
    pub fn option_from_native_pointer(&mut self, value: Option<RootedPtr>) -> (res: Result<RootedPtr, EngineError>)
        requires
            old(self).wf(),
            value matches Some(v) ==> old(self).live_root(v),
        ensures
            final(self).wf(),
            match value {
                Some(v) => rooted_alloc(*old(self), *final(self), CellView::Adt("Some"@, seq![old(self).root_target(v)]), res),
                None => rooted_alloc(*old(self), *final(self), CellView::Adt("None"@, Seq::empty()), res),
            },
    {
        match value {
            Some(v) => {
                let args: Vec<RootedPtr> = vec![v];
                proof {
                    assert(targets(*self, args@) =~= seq![self.root_target(v)]);
                }
                self.alloc_root_adt("Some".to_string(), &args)
            },
            None => {
                let args: Vec<RootedPtr> = Vec::new();
                proof {
                    assert(targets(*self, args@) =~= Seq::<InternalPtr>::empty());
                }
                self.alloc_root_adt("None".to_string(), &args)
            },
        }
    }

    /// Builds `Ok(value)` or `Err(value)`.
    pub fn result_from_native_pointer(&mut self, value: Result<RootedPtr, RootedPtr>) -> (res: Result<RootedPtr, EngineError>)
        requires
            old(self).wf(),
            match value {
                Ok(v) => old(self).live_root(v),
                Err(v) => old(self).live_root(v),
            },
        ensures
            final(self).wf(),
            match value {
                Ok(v) => rooted_alloc(*old(self), *final(self), CellView::Adt("Ok"@, seq![old(self).root_target(v)]), res),
                Err(v) => rooted_alloc(*old(self), *final(self), CellView::Adt("Err"@, seq![old(self).root_target(v)]), res),
            },
    {
        let (tag, v) = match value {
            Ok(v) => ("Ok".to_string(), v),
            Err(v) => ("Err".to_string(), v),
        };
        let args: Vec<RootedPtr> = vec![v];
        proof {
            assert(targets(*self, args@) =~= seq![self.root_target(v)]);
        }
        self.alloc_root_adt(tag, &args)
    }
}

/// The error that reading the pointer `p` in `h` gives when `p` names no
/// object of `h`.
pub open spec fn pointer_error(h: Heap, p: InternalPtr) -> EngineError {
    if p.heap_id != h.id() {
        EngineError::WrongHeapPointer { pointer_heap_id: p.heap_id, heap_id: h.id(), slot: p.index, generation: p.generation }
    } else {
        EngineError::InvalidPointer { heap_id: h.id(), slot: p.index, generation: p.generation }
    }
}

/// The boolean that `p` points to in `h`, or the error in reading it.
pub open spec fn read_bool(h: Heap, p: InternalPtr) -> Result<bool, EngineError> {
    if !h.valid_ptr(p) {
        Err(pointer_error(h, p))
    } else {
        match h.cell_at(p) {
            CellView::Bool(b) => Ok(b),
            other => Err(EngineError::NativeType { expected: "bool", got: type_name_of(other) }),
        }
    }
}

/// Where list equality stands.
#[derive(Clone, Copy, Debug, PartialEq, Eq, Structural)]
pub enum NativeArrayEqState {
    Enter,
    ApplyFirst,
    ApplySecond,
}

/// What list equality asks the evaluator for next.
#[derive(Debug)]
pub enum ArrayEqStep<P> {
    /// Finish with this boolean.
    Return(bool),
    /// Apply `==` to the left element at this index.
    CompareLeft(usize),
    /// Apply the partly applied comparison `step` to the right element at
    /// `index`.
    CompareRight { step: P, index: usize },
}

/// Element-wise equality of two lists (or, with `negate`, inequality).
#[derive(Debug)]
pub struct NativeArrayEq<P> {
    pub xs: ListItems<P>,
    pub ys: ListItems<P>,
    pub state: NativeArrayEqState,
    pub next_index: usize,
    pub step: Option<P>,
    pub negate: bool,
}

/// The answer for lists that are (or are not) equal.
pub open spec fn eq_answer(negate: bool, equal: bool) -> bool {
    if negate { !equal } else { equal }
}

impl<P> NativeArrayEq<P> {
    /// A comparison in progress is at an index of both lists.
    pub open spec fn wf(&self) -> bool {
        &&& self.xs.well_formed()
        &&& self.ys.well_formed()
        &&& (self.state is ApplyFirst || self.state is ApplySecond) ==> self.next_index < self.xs.item_count()
            && self.xs.item_count() == self.ys.item_count()
        &&& self.state is ApplySecond ==> self.step is Some
    }

    /// Starts the comparison: lists of different lengths differ at once,
    /// empty lists are equal at once, and otherwise the first elements are
    /// compared.
    pub fn enter(&mut self) -> (res: ArrayEqStep<P>)
        requires
            old(self).wf(),
        ensures
            final(self).wf(),
            final(self).xs == old(self).xs,
            final(self).ys == old(self).ys,
            final(self).negate == old(self).negate,
            if old(self).xs.item_count() != old(self).ys.item_count() {
                res matches ArrayEqStep::Return(b) && b == eq_answer(old(self).negate, false)
                    && *final(self) == *old(self)
            } else if old(self).xs.item_count() == 0 {
                res matches ArrayEqStep::Return(b) && b == eq_answer(old(self).negate, true)
                    && *final(self) == *old(self)
            } else {
                &&& res matches ArrayEqStep::CompareLeft(i) && i == 0
                &&& final(self).state == NativeArrayEqState::ApplyFirst
                &&& final(self).next_index == 0
                &&& final(self).step == old(self).step
            },
    {
        if self.xs.len() != self.ys.len() {
            return ArrayEqStep::Return(if self.negate { true } else { false });
        }
        if self.xs.len() == 0 {
            return ArrayEqStep::Return(if self.negate { false } else { true });
        }
        self.state = NativeArrayEqState::ApplyFirst;
        self.next_index = 0;
        ArrayEqStep::CompareLeft(0)
    }

    /// Whether taking the next result may allocate (it reads a boolean and
    /// may build the answer).
    pub fn receive_may_allocate(&self) -> (b: bool)
        ensures
            b == (self.state is ApplySecond),
    {
        match self.state {
            NativeArrayEqState::ApplySecond => true,
            _ => false,
        }
    }
}

impl NativeArrayEq<InternalPtr> {
    /// Takes the result of the application it asked for.
    ///
    /// After `CompareLeft` the result is the partly applied comparison,
    /// which is then applied to the right element. After `CompareRight` the
    /// result is a boolean: `false` ends with "not equal", `true` moves to
    /// the next index, or ends with "equal" after the last one.
    pub fn receive(&mut self, heap: &Heap, value: InternalPtr) -> (res: Result<ArrayEqStep<InternalPtr>, EngineError>)
        requires
            old(self).wf(),
        ensures
            res matches Ok(ArrayEqStep::Return(_)) || final(self).wf(),
            final(self).xs == old(self).xs,
            final(self).ys == old(self).ys,
            final(self).negate == old(self).negate,
            match old(self).state {
                NativeArrayEqState::Enter => res matches Err(e)
                    && e == (EngineError::Frame { kind: "native list equality", fault: FrameFault::UnexpectedChild })
                    && *final(self) == *old(self),
                NativeArrayEqState::ApplyFirst => {
                    &&& res matches Ok(ArrayEqStep::CompareRight { step, index }) && step == value
                        && index == old(self).next_index
                    &&& final(self).state == NativeArrayEqState::ApplySecond
                    &&& final(self).step == Some(value)
                    &&& final(self).next_index == old(self).next_index
                },
                NativeArrayEqState::ApplySecond => match read_bool(*heap, value) {
                    Err(e) => res matches Err(x) && x == e && *final(self) == *old(self),
                    Ok(false) => res matches Ok(ArrayEqStep::Return(b)) && b == eq_answer(old(self).negate, false),
                    Ok(true) => if old(self).next_index + 1 == old(self).xs.item_count() {
                        res matches Ok(ArrayEqStep::Return(b)) && b == eq_answer(old(self).negate, true)
                    } else {
                        &&& res matches Ok(ArrayEqStep::CompareLeft(i)) && i == old(self).next_index + 1
                        &&& final(self).state == NativeArrayEqState::ApplyFirst
                        &&& final(self).next_index == old(self).next_index + 1
                        &&& final(self).step is None
                    },
                },
            },
    {
        match self.state {
            NativeArrayEqState::ApplyFirst => {
                self.step = Some(value);
                self.state = NativeArrayEqState::ApplySecond;
                Ok(ArrayEqStep::CompareRight { step: value, index: self.next_index })
            },
            NativeArrayEqState::ApplySecond => {
                let cell = match heap.get_cell_from_pointer(&value) {
                    Ok(c) => c,
                    Err(e) => return Err(e),
                };
                let equal = match cell.cell_as_bool() {
                    Ok(b) => b,
                    Err(e) => return Err(e),
                };
                if !equal {
                    return Ok(ArrayEqStep::Return(if self.negate { true } else { false }));
                }
                self.step = None;
                let count = self.xs.len();
                self.next_index = self.next_index + 1;
                if self.next_index == count {
                    return Ok(ArrayEqStep::Return(if self.negate { false } else { true }));
                }
                self.state = NativeArrayEqState::ApplyFirst;
                Ok(ArrayEqStep::CompareLeft(self.next_index))
            },
            NativeArrayEqState::Enter => unexpected_child_result("native list equality"),
        }
    }
}

/// Where `mean` stands.
#[derive(Clone, Copy, Debug, PartialEq, Eq, Structural)]
pub enum NativeMeanState {
    Enter,
    ApplyPlusFirst,
    ApplyPlusSecond,
    ApplyDivFirst,
    ApplyDivSecond,
}

/// What `mean` asks the evaluator for next.
#[derive(Debug)]
pub enum MeanStep<P> {
    /// Apply `+` to the running sum `acc`.
    AddFirst { acc: P },
    /// Apply the partly applied addition `step` to the element at `index`.
    AddSecond { step: P, index: usize },
    /// Apply `/` to the sum `acc`; the length value must be set by then.
    DivideFirst { acc: P },
    /// Apply the partly applied division `step` to the length value.
    DivideSecond { step: P, len_value: P },
    /// Finish with this value.
    Return(P),
}

/// The mean of a list: the sum of its elements, by repeated `+` from the
/// first element, then divided by its length.
#[derive(Debug)]
pub struct NativeMean<P> {
    pub values: ListItems<P>,
    pub acc: Option<P>,
    pub state: NativeMeanState,
    pub next_index: usize,
    pub step: Option<P>,
    pub len_value: Option<P>,
}

impl<P: Copy> NativeMean<P> {
    /// The sum in progress stands at an element of the list.
    pub open spec fn wf(&self) -> bool {
        &&& self.values.well_formed()
        &&& (self.state is ApplyPlusFirst || self.state is ApplyPlusSecond) ==> 1 <= self.next_index < self.values.item_count()
        &&& self.state is ApplyDivFirst ==> self.next_index == self.values.item_count()
        &&& !(self.state is Enter) ==> self.acc is Some
        &&& self.state is ApplyPlusSecond ==> self.step is Some
    }

    /// Starts the mean of a list whose first element is `first`: a list of
    /// one element goes straight to the division.
    pub fn enter(&mut self, first: Option<P>) -> (res: Result<MeanStep<P>, EngineError>)
        requires
            old(self).wf(),
            first is Some <==> old(self).values.item_count() > 0,
        ensures
            final(self).wf(),
            final(self).values == old(self).values,
            final(self).len_value == old(self).len_value,
            if old(self).values.item_count() == 0 {
                res matches Err(e) && e is EmptySequence && *final(self) == *old(self)
            } else {
                let a = first->Some_0;
                &&& final(self).acc == Some(a)
                &&& final(self).next_index == 1
                &&& if old(self).values.item_count() == 1 {
                    res matches Ok(MeanStep::DivideFirst { acc }) && acc == a
                        && final(self).state == NativeMeanState::ApplyDivFirst
                } else {
                    res matches Ok(MeanStep::AddFirst { acc }) && acc == a
                        && final(self).state == NativeMeanState::ApplyPlusFirst
                }
            },
    {
        if self.values.len() == 0 {
            return Err(EngineError::EmptySequence);
        }
        let a = match first {
            Some(a) => a,
            None => return Err(EngineError::EmptySequence),
        };
        self.acc = Some(a);
        self.next_index = 1;
        if self.next_index == self.values.len() {
            self.state = NativeMeanState::ApplyDivFirst;
            return Ok(MeanStep::DivideFirst { acc: a });
        }
        self.state = NativeMeanState::ApplyPlusFirst;
        Ok(MeanStep::AddFirst { acc: a })
    }

    /// Records the list's length as a value of the element type, for the
    /// division.
    pub fn set_len_value(&mut self, len_value: P)
        ensures
            final(self).len_value == Some(len_value),
            final(self).values == old(self).values,
            final(self).acc == old(self).acc,
            final(self).state == old(self).state,
            final(self).next_index == old(self).next_index,
            final(self).step == old(self).step,
    {
        self.len_value = Some(len_value);
    }

    /// Takes the result of the application it asked for.
    pub fn receive(&mut self, value: P) -> (res: Result<MeanStep<P>, EngineError>)
        requires
            old(self).wf(),
        ensures
            final(self).wf(),
            final(self).values == old(self).values,
            final(self).len_value == old(self).len_value,
            match old(self).state {
                NativeMeanState::Enter => res matches Err(e)
                    && e == (EngineError::Frame { kind: "native mean", fault: FrameFault::UnexpectedChild })
                    && *final(self) == *old(self),
                NativeMeanState::ApplyPlusFirst => {
                    &&& res matches Ok(MeanStep::AddSecond { step, index }) && step == value
                        && index == old(self).next_index
                    &&& final(self).state == NativeMeanState::ApplyPlusSecond
                    &&& final(self).step == Some(value)
                    &&& final(self).acc == old(self).acc
                    &&& final(self).next_index == old(self).next_index
                },
                NativeMeanState::ApplyPlusSecond => {
                    &&& final(self).acc == Some(value)
                    &&& final(self).step is None
                    &&& final(self).next_index == old(self).next_index + 1
                    &&& if old(self).next_index + 1 == old(self).values.item_count() {
                        res matches Ok(MeanStep::DivideFirst { acc }) && acc == value
                            && final(self).state == NativeMeanState::ApplyDivFirst
                    } else {
                        res matches Ok(MeanStep::AddFirst { acc }) && acc == value
                            && final(self).state == NativeMeanState::ApplyPlusFirst
                    }
                },
                NativeMeanState::ApplyDivFirst => {
                    &&& final(self).step == Some(value)
                    &&& final(self).state == NativeMeanState::ApplyDivSecond
                    &&& final(self).acc == old(self).acc
                    &&& match old(self).len_value {
                        Some(l) => res matches Ok(MeanStep::DivideSecond { step, len_value }) && step == value
                            && len_value == l,
                        None => res matches Err(e) && e == EngineError::Internal("native mean missing length value"),
                    }
                },
                NativeMeanState::ApplyDivSecond => res matches Ok(MeanStep::Return(v)) && v == value
                    && *final(self) == *old(self),
            },
    {
        match self.state {
            NativeMeanState::ApplyPlusFirst => {
                self.step = Some(value);
                self.state = NativeMeanState::ApplyPlusSecond;
                Ok(MeanStep::AddSecond { step: value, index: self.next_index })
            },
            NativeMeanState::ApplyPlusSecond => {
                self.acc = Some(value);
                self.step = None;
                let count = self.values.len();
                self.next_index = self.next_index + 1;
                if self.next_index == count {
                    self.state = NativeMeanState::ApplyDivFirst;
                    return Ok(MeanStep::DivideFirst { acc: value });
                }
                self.state = NativeMeanState::ApplyPlusFirst;
                Ok(MeanStep::AddFirst { acc: value })
            },
            NativeMeanState::ApplyDivFirst => {
                self.step = Some(value);
                self.state = NativeMeanState::ApplyDivSecond;
                match self.len_value {
                    Some(l) => Ok(MeanStep::DivideSecond { step: value, len_value: l }),
                    None => Err(EngineError::Internal("native mean missing length value")),
                }
            },
            NativeMeanState::ApplyDivSecond => Ok(MeanStep::Return(value)),
            NativeMeanState::Enter => unexpected_child_result("native mean"),
        }
    }

    /// Whether taking the next result may allocate.
    pub fn receive_may_allocate(&self) -> (b: bool)
        ensures
            b == (self.state is ApplyPlusSecond),
    {
        match self.state {
            NativeMeanState::ApplyPlusSecond => true,
            _ => false,
        }
    }
}

/// Which end a fold starts from.
#[derive(Clone, Copy, Debug, PartialEq, Eq, Structural)]
pub enum NativeFoldOrder {
    Left,
    Right,
}

/// Where a fold (or a sum) stands.
#[derive(Clone, Copy, Debug, PartialEq, Eq, Structural)]
pub enum NativeFoldState {
    Enter,
    ApplyFirst,
    ApplySecond,
}

/// An argument that a fold hands to its function: the accumulator, or the
/// list element at an index.
#[derive(Debug)]
pub enum FoldArg<P> {
    Acc(P),
    Element(usize),
}

/// What a fold asks the evaluator for next.
#[derive(Debug)]
pub enum FoldStep<P> {
    /// Finish with the accumulator.
    Return(P),
    /// Apply the function to its first argument.
    ApplyFirst(FoldArg<P>),
    /// Apply the partly applied function `step` to its second argument.
    ApplySecond { step: P, arg: FoldArg<P> },
}

/// A left or right fold of a list with a two-argument function.
#[derive(Debug)]
pub struct NativeFold<P> {
    pub func: P,
    pub values: ListItems<P>,
    pub acc: P,
    pub order: NativeFoldOrder,
    pub state: NativeFoldState,
    pub next_index: usize,
    pub step: Option<P>,
}

/// The list index of the element that step `index` of a fold reads: from
/// the front for a left fold, from the back for a right one.
pub open spec fn fold_element(order: NativeFoldOrder, len: int, index: usize) -> Option<usize> {
    match order {
        NativeFoldOrder::Left => Some(index),
        NativeFoldOrder::Right => if index + 1 <= len { Some((len - (index + 1)) as usize) } else { None },
    }
}

impl<P: Copy> NativeFold<P> {
    /// A fold in progress stands at an element of the list.
    pub open spec fn wf(&self) -> bool {
        &&& self.values.well_formed()
        &&& (self.state is ApplyFirst || self.state is ApplySecond) ==> self.next_index < self.values.item_count()
        &&& self.state is ApplySecond ==> self.step is Some
    }

    fn element(&self, index: usize) -> (res: Result<usize, EngineError>)
        requires
            self.values.well_formed(),
        ensures
            match fold_element(self.order, self.values.item_count(), index) {
                Some(k) => res matches Ok(x) && x == k,
                None => res matches Err(e) && e == EngineError::Internal("native fold index out of bounds"),
            },
    {
        match self.order {
            NativeFoldOrder::Left => Ok(index),
            NativeFoldOrder::Right => {
                let count = self.values.len();
                if index < usize::MAX && index + 1 <= count {
                    Ok(count - (index + 1))
                } else {
                    Err(EngineError::Internal("native fold index out of bounds"))
                }
            },
        }
    }

    /// The function's first argument at the current index: the accumulator
    /// for a left fold, the element for a right one.
    fn first_arg(&self) -> (res: Result<FoldArg<P>, EngineError>)
        requires
            self.values.well_formed(),
        ensures
            match self.order {
                NativeFoldOrder::Left => res matches Ok(FoldArg::Acc(a)) && a == self.acc,
                NativeFoldOrder::Right => match fold_element(self.order, self.values.item_count(), self.next_index) {
                    Some(k) => res matches Ok(FoldArg::Element(x)) && x == k,
                    None => res is Err,
                },
            },
    {
        match self.order {
            NativeFoldOrder::Left => Ok(FoldArg::Acc(self.acc)),
            NativeFoldOrder::Right => match self.element(self.next_index) {
                Ok(k) => Ok(FoldArg::Element(k)),
                Err(e) => Err(e),
            },
        }
    }

    /// The function's second argument at the current index: the element for
    /// a left fold, the accumulator for a right one.
    fn second_arg(&self) -> (res: Result<FoldArg<P>, EngineError>)
        ensures
            match self.order {
                NativeFoldOrder::Right => res matches Ok(FoldArg::Acc(a)) && a == self.acc,
                NativeFoldOrder::Left => res matches Ok(FoldArg::Element(x)) && x == self.next_index,
            },
    {
        match self.order {
            NativeFoldOrder::Left => Ok(FoldArg::Element(self.next_index)),
            NativeFoldOrder::Right => Ok(FoldArg::Acc(self.acc)),
        }
    }

    /// Starts the fold: an empty list gives the initial accumulator.
    pub fn enter(&mut self) -> (res: Result<FoldStep<P>, EngineError>)
        requires
            old(self).wf(),
        ensures
            final(self).wf(),
            final(self).values == old(self).values,
            final(self).order == old(self).order,
            final(self).acc == old(self).acc,
            if old(self).values.item_count() == 0 {
                res matches Ok(FoldStep::Return(a)) && a == old(self).acc
            } else {
                &&& final(self).state == NativeFoldState::ApplyFirst
                &&& final(self).next_index == 0
                &&& match old(self).order {
                    NativeFoldOrder::Left => res matches Ok(FoldStep::ApplyFirst(FoldArg::Acc(a))) && a == old(self).acc,
                    NativeFoldOrder::Right => res matches Ok(FoldStep::ApplyFirst(FoldArg::Element(k)))
                        && k == old(self).values.item_count() - 1,
                }
            },
    {
        if self.values.len() == 0 {
            return Ok(FoldStep::Return(self.acc));
        }
        self.state = NativeFoldState::ApplyFirst;
        self.next_index = 0;
        match self.first_arg() {
            Ok(a) => Ok(FoldStep::ApplyFirst(a)),
            Err(e) => Err(e),
        }
    }

    /// Takes the result of the application it asked for: after the first
    /// argument, the partly applied function; after the second, the new
    /// accumulator.
    pub fn receive(&mut self, value: P) -> (res: Result<FoldStep<P>, EngineError>)
        requires
            old(self).wf(),
        ensures
            res matches Ok(FoldStep::Return(_)) || final(self).wf(),
            final(self).values == old(self).values,
            final(self).order == old(self).order,
            match old(self).state {
                NativeFoldState::Enter => res matches Err(e)
                    && e == (EngineError::Frame { kind: "native fold", fault: FrameFault::UnexpectedChild })
                    && *final(self) == *old(self),
                NativeFoldState::ApplyFirst => {
                    &&& final(self).state == NativeFoldState::ApplySecond
                    &&& final(self).step == Some(value)
                    &&& final(self).next_index == old(self).next_index
                    &&& final(self).acc == old(self).acc
                    &&& match old(self).order {
                        NativeFoldOrder::Left => res matches Ok(FoldStep::ApplySecond { step, arg: FoldArg::Element(k) })
                            && step == value && k == old(self).next_index,
                        NativeFoldOrder::Right => res matches Ok(FoldStep::ApplySecond { step, arg: FoldArg::Acc(a) })
                            && step == value && a == old(self).acc,
                    }
                },
                NativeFoldState::ApplySecond => {
                    &&& final(self).acc == value
                    &&& final(self).step is None
                    &&& final(self).next_index == old(self).next_index + 1
                    &&& if old(self).next_index + 1 == old(self).values.item_count() {
                        res matches Ok(FoldStep::Return(a)) && a == value
                    } else {
                        &&& final(self).state == NativeFoldState::ApplyFirst
                        &&& match old(self).order {
                            NativeFoldOrder::Left => res matches Ok(FoldStep::ApplyFirst(FoldArg::Acc(a))) && a == value,
                            NativeFoldOrder::Right => res matches Ok(FoldStep::ApplyFirst(FoldArg::Element(k)))
                                && k == old(self).values.item_count() - (old(self).next_index + 2),
                        }
                    }
                },
            },
    {
        match self.state {
            NativeFoldState::ApplyFirst => {
                self.step = Some(value);
                self.state = NativeFoldState::ApplySecond;
                match self.second_arg() {
                    Ok(a) => Ok(FoldStep::ApplySecond { step: value, arg: a }),
                    Err(e) => Err(e),
                }
            },
            NativeFoldState::ApplySecond => {
                self.acc = value;
                self.step = None;
                let count = self.values.len();
                self.next_index = self.next_index + 1;
                if self.next_index == count {
                    return Ok(FoldStep::Return(self.acc));
                }
                self.state = NativeFoldState::ApplyFirst;
                match self.first_arg() {
                    Ok(a) => Ok(FoldStep::ApplyFirst(a)),
                    Err(e) => Err(e),
                }
            },
            NativeFoldState::Enter => unexpected_child_result("native fold"),
        }
    }

    /// A fold's results never allocate.
    pub fn receive_may_allocate(&self) -> (b: bool)
        ensures
            !b,
    {
        false
    }
}

/// What `sum` asks the evaluator for next.
#[derive(Debug)]
pub enum SumStep<P> {
    /// Evaluate `zero` at the element type (the sum of an empty list).
    EvalZero,
    /// Resolve `+` at the element type and hand it over with `set_plus`.
    NeedPlus,
    /// Apply `plus` to the running sum `acc`.
    AddFirst { plus: P, acc: P },
    /// Apply the partly applied addition `step` to the element at `index`.
    AddSecond { step: P, index: usize },
    /// Finish with this value.
    Return(P),
}

/// The sum of a list: the first element, then `+` with each next one.
#[derive(Debug)]
pub struct NativeSum<P> {
    pub values: ListItems<P>,
    pub acc: Option<P>,
    pub plus: Option<P>,
    pub state: NativeFoldState,
    pub next_index: usize,
    pub step: Option<P>,
}

impl<P: Copy> NativeSum<P> {
    /// A sum in progress stands at an element of the list.
    pub open spec fn wf(&self) -> bool {
        &&& self.values.well_formed()
        &&& (self.state is ApplyFirst || self.state is ApplySecond) ==> 1 <= self.next_index < self.values.item_count()
            && self.acc is Some
        &&& self.state is ApplySecond ==> self.step is Some
    }

    /// Records the resolved `+`.
    pub fn set_plus(&mut self, plus: P)
        ensures
            final(self).plus == Some(plus),
            final(self).values == old(self).values,
            final(self).acc == old(self).acc,
            final(self).state == old(self).state,
            final(self).next_index == old(self).next_index,
            final(self).step == old(self).step,
    {
        self.plus = Some(plus);
    }

    /// Asks for `+` applied to the running sum.
    pub fn apply_first(&self) -> (res: Result<SumStep<P>, EngineError>)
        ensures
            match (self.plus, self.acc) {
                (Some(p), Some(a)) => res matches Ok(SumStep::AddFirst { plus, acc }) && plus == p && acc == a,
                (None, _) => res matches Err(e) && e == EngineError::Internal("native sum missing plus function"),
                (Some(_), None) => res matches Err(e) && e == EngineError::Internal("native sum missing accumulator"),
            },
    {
        let plus = match self.plus {
            Some(p) => p,
            None => return Err(EngineError::Internal("native sum missing plus function")),
        };
        let acc = match self.acc {
            Some(a) => a,
            None => return Err(EngineError::Internal("native sum missing accumulator")),
        };
        Ok(SumStep::AddFirst { plus, acc })
    }

    /// Starts the sum of a list whose first element is `first`: the empty
    /// list sums to `zero`, a list of one element to that element.
    pub fn enter(&mut self, first: Option<P>) -> (res: SumStep<P>)
        requires
            old(self).wf(),
            first is Some <==> old(self).values.item_count() > 0,
        ensures
            final(self).wf(),
            final(self).values == old(self).values,
            final(self).plus == old(self).plus,
            if old(self).values.item_count() == 0 {
                res is EvalZero && *final(self) == *old(self)
            } else {
                &&& final(self).acc == first
                &&& final(self).next_index == 1
                &&& if old(self).values.item_count() == 1 {
                    res matches SumStep::Return(v) && Some(v) == first
                } else {
                    &&& final(self).state == NativeFoldState::ApplyFirst
                    &&& match old(self).plus {
                        None => res is NeedPlus,
                        Some(p) => res matches SumStep::AddFirst { plus, acc } && plus == p && Some(acc) == first,
                    }
                }
            },
    {
        if self.values.len() == 0 {
            return SumStep::EvalZero;
        }
        let a = match first {
            Some(a) => a,
            None => return SumStep::EvalZero,
        };
        self.acc = Some(a);
        self.next_index = 1;
        if self.next_index == self.values.len() {
            return SumStep::Return(a);
        }
        self.state = NativeFoldState::ApplyFirst;
        match self.plus {
            None => SumStep::NeedPlus,
            Some(p) => SumStep::AddFirst { plus: p, acc: a },
        }
    }

    /// Takes the result of the application it asked for.
    pub fn receive(&mut self, value: P) -> (res: Result<SumStep<P>, EngineError>)
        requires
            old(self).wf(),
        ensures
            res matches Ok(SumStep::Return(_)) || final(self).wf(),
            final(self).values == old(self).values,
            final(self).plus == old(self).plus,
            match old(self).state {
                NativeFoldState::Enter => res matches Ok(SumStep::Return(v)) && v == value && *final(self) == *old(self),
                NativeFoldState::ApplyFirst => {
                    &&& res matches Ok(SumStep::AddSecond { step, index }) && step == value && index == old(self).next_index
                    &&& final(self).state == NativeFoldState::ApplySecond
                    &&& final(self).step == Some(value)
                    &&& final(self).acc == old(self).acc
                    &&& final(self).next_index == old(self).next_index
                },
                NativeFoldState::ApplySecond => {
                    &&& final(self).acc == Some(value)
                    &&& final(self).step is None
                    &&& final(self).next_index == old(self).next_index + 1
                    &&& if old(self).next_index + 1 == old(self).values.item_count() {
                        res matches Ok(SumStep::Return(v)) && v == value
                    } else {
                        &&& final(self).state == NativeFoldState::ApplyFirst
                        &&& match old(self).plus {
                            Some(p) => res matches Ok(SumStep::AddFirst { plus, acc }) && plus == p && acc == value,
                            None => res matches Err(e) && e == EngineError::Internal("native sum missing plus function"),
                        }
                    }
                },
            },
    {
        match self.state {
            NativeFoldState::Enter => Ok(SumStep::Return(value)),
            NativeFoldState::ApplyFirst => {
                self.step = Some(value);
                self.state = NativeFoldState::ApplySecond;
                Ok(SumStep::AddSecond { step: value, index: self.next_index })
            },
            NativeFoldState::ApplySecond => {
                self.acc = Some(value);
                self.step = None;
                let count = self.values.len();
                self.next_index = self.next_index + 1;
                if self.next_index == count {
                    return Ok(SumStep::Return(value));
                }
                self.state = NativeFoldState::ApplyFirst;
                self.apply_first()
            },
        }
    }

    /// Whether taking the next result may allocate: when `+` is still to be
    /// resolved for a next element.
    pub fn receive_may_allocate(&self) -> (b: bool)
        requires
            self.values.well_formed(),
        ensures
            b == (self.state is ApplySecond && self.plus is None && (self.next_index + 1 > usize::MAX
                || self.next_index + 1 < self.values.item_count())),
    {
        match self.state {
            NativeFoldState::ApplySecond => self.plus.is_none() && crate::frames::receive_continues_sequence(
                self.next_index,
                self.values.len(),
            ),
            _ => false,
        }
    }
}

} // verus!
