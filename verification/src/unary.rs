//! The built-in `map`, `filter`, `filter_map` and `flat_map` over a single
//! `Option` or `Result` value, and plain application of a function to one
//! argument.
//!
//! Each asks the evaluator for one application of its function and then
//! finishes with what the child gave back, wrapped or checked as its shape
//! asks.

use vstd::prelude::*;

use crate::cell::{type_name_of, CellView, RootedPtr};
use crate::error::EngineError;
use crate::heap::{rooted_alloc, Heap};
use crate::natives::rooted_only;
use crate::sequences::NativeStep;

verus! {

/// Whether a unary built-in works on an `Option` or on a `Result`.
#[derive(Clone, Copy, Debug, PartialEq, Eq, Structural)]
pub enum NativeUnaryShape {
    Option,
    Result,
}

/// `f x`: one application, whose result is the answer.
#[derive(Debug)]
pub struct NativeApplyUnary<P> {
    pub func: P,
    pub arg: P,
}

impl<P> NativeApplyUnary<P> {
    /// The child's result is the answer.
    pub fn receive(&self, value: P) -> (res: NativeStep<P>)
        ensures
            res matches NativeStep::Return(v) && v == value,
    {
        NativeStep::Return(value)
    }

    /// Taking the result never allocates.
    pub fn receive_may_allocate(&self) -> (b: bool)
        ensures
            !b,
    {
        false
    }
}

/// `map f` over `Some x` or `Ok x`: the child's result, wrapped again.
#[derive(Debug)]
pub struct NativeUnaryMap<P> {
    pub func: P,
    pub value: P,
    pub shape: NativeUnaryShape,
}

impl<P> NativeUnaryMap<P> {
    /// Wrapping the result allocates.
    pub fn receive_may_allocate(&self) -> (b: bool)
        ensures
            b,
    {
        true
    }
}

/// The outcome of building the one-field constructor `tag` around what
/// `value` stands for in `h0`.
pub open spec fn wrapped(h0: Heap, h1: Heap, tag: Seq<char>, value: RootedPtr, res: Result<NativeStep<RootedPtr>, EngineError>) -> bool {
    match res {
        Ok(NativeStep::Return(r)) => rooted_alloc(h0, h1, CellView::Adt(tag, seq![h0.root_target(value)]), Ok(r)),
        Ok(_) => false,
        Err(e) => rooted_alloc(h0, h1, CellView::Adt(tag, seq![h0.root_target(value)]), Err(e)),
    }
}

impl NativeUnaryMap<RootedPtr> {
    /// Takes the child's result: `Some(value)` for an `Option`, `Ok(value)`
    /// for a `Result`.
    pub fn receive(&self, heap: &mut Heap, value: RootedPtr) -> (res: Result<NativeStep<RootedPtr>, EngineError>)
        requires
            old(heap).wf(),
            old(heap).live_root(value),
        ensures
            final(heap).wf(),
            wrapped(*old(heap), *final(heap), match self.shape {
                NativeUnaryShape::Option => "Some"@,
                NativeUnaryShape::Result => "Ok"@,
            }, value, res),
    {
        let made = match self.shape {
            NativeUnaryShape::Option => heap.option_from_native_pointer(Some(value)),
            NativeUnaryShape::Result => heap.result_from_native_pointer(Ok(value)),
        };
        match made {
            Ok(r) => Ok(NativeStep::Return(r)),
            Err(e) => Err(e),
        }
    }
}

/// `filter p` over `Some x`: `Some x` again when `p x` holds, `None` when
/// it does not.
#[derive(Debug)]
pub struct NativeUnaryFilter<P> {
    pub func: P,
    pub value: P,
    pub original: P,
}

impl<P> NativeUnaryFilter<P> {
    /// Building `None` allocates.
    pub fn receive_may_allocate(&self) -> (b: bool)
        ensures
            b,
    {
        true
    }
}

impl NativeUnaryFilter<RootedPtr> {
    /// Takes the predicate's verdict.
    pub fn receive(&self, heap: &mut Heap, verdict: RootedPtr) -> (res: Result<NativeStep<RootedPtr>, EngineError>)
        requires
            old(heap).wf(),
            old(heap).live_root(verdict),
            old(heap).live_root(self.original),
        ensures
            final(heap).wf(),
            match old(heap).cell_at(old(heap).root_target(verdict)) {
                CellView::Bool(true) => res matches Ok(NativeStep::Return(r)) && r == self.original
                    && *final(heap) == *old(heap),
                CellView::Bool(false) => match res {
                    Ok(NativeStep::Return(r)) => rooted_alloc(*old(heap), *final(heap), CellView::Adt("None"@, Seq::empty()), Ok(r)),
                    Ok(_) => false,
                    Err(e) => rooted_alloc(*old(heap), *final(heap), CellView::Adt("None"@, Seq::empty()), Err(e)),
                },
                other => res matches Err(EngineError::NativeType { expected, got }) && expected == "bool"
                    && got == type_name_of(other) && *final(heap) == *old(heap),
            },
    {
        let keep = match heap.root_as_bool(verdict) {
            Ok(b) => b,
            Err(e) => return Err(e),
        };
        if keep {
            Ok(NativeStep::Return(self.original))
        } else {
            match heap.option_from_native_pointer(None) {
                Ok(r) => Ok(NativeStep::Return(r)),
                Err(e) => Err(e),
            }
        }
    }
}

/// `filter_map f` over `Some x`: the child's `Option` is the answer.
#[derive(Debug)]
pub struct NativeUnaryFilterMap<P> {
    pub func: P,
    pub value: P,
}

impl<P> NativeUnaryFilterMap<P> {
    /// The child's result is the answer.
    pub fn receive(&self, value: P) -> (res: NativeStep<P>)
        ensures
            res matches NativeStep::Return(v) && v == value,
    {
        NativeStep::Return(value)
    }

    /// Taking the result never allocates.
    pub fn receive_may_allocate(&self) -> (b: bool)
        ensures
            !b,
    {
        false
    }
}

/// `flat_map f` over `Some x` or `Ok x`: the child's result is the answer;
/// over a `Result` it must itself be a `Result`.
#[derive(Debug)]
pub struct NativeUnaryFlatMap<P> {
    pub func: P,
    pub value: P,
    pub shape: NativeUnaryShape,
}

impl<P> NativeUnaryFlatMap<P> {
    /// Taking the result never allocates.
    pub fn receive_may_allocate(&self) -> (b: bool)
        ensures
            !b,
    {
        false
    }
}

impl NativeUnaryFlatMap<RootedPtr> {
    /// Takes the child's result, checking that a `Result` gave a `Result`.
    pub fn receive(&self, heap: &mut Heap, value: RootedPtr) -> (res: Result<NativeStep<RootedPtr>, EngineError>)
        requires
            old(heap).wf(),
            old(heap).live_root(value),
        ensures
            final(heap).wf(),
            rooted_only(*old(heap), *final(heap)),
            match self.shape {
                NativeUnaryShape::Option => res matches Ok(NativeStep::Return(v)) && v == value && *final(heap) == *old(heap),
                NativeUnaryShape::Result => match old(heap).cell_at(old(heap).root_target(value)) {
                    CellView::Adt(n, v) => if (n == "Ok"@ || n == "Err"@) && v.len() == 1 {
                        res matches Ok(NativeStep::Return(r)) && r == value
                    } else {
                        res matches Err(EngineError::NativeType { expected, got }) && expected == "Result" && got == "adt"
                    },
                    other => res matches Err(EngineError::NativeType { expected, got }) && expected == "adt"
                        && got == type_name_of(other),
                },
            },
    {
        match self.shape {
            NativeUnaryShape::Option => {
                proof {
                    crate::heap::lemma_evolves_refl(*heap);
                }
                Ok(NativeStep::Return(value))
            },
            NativeUnaryShape::Result => match heap.result_value_ptr(value) {
                Ok(_) => Ok(NativeStep::Return(value)),
                Err(e) => Err(e),
            },
        }
    }
}

} // verus!
