//! The runtime types of heap values.
//!
//! A value's type is read off the value itself: scalars have their builtin
//! type, a tuple the types of its items, a non-empty list or dictionary the
//! one type that all its elements share, and `Some(x)` an option of the type
//! of `x`. Values whose type the value alone does not show (the empty list,
//! `None`, functions) have none.

use vstd::prelude::*;

use crate::cell::{children, type_name_of, Cell, CellView, InternalPtr, RootedPtr};
use crate::error::EngineError;
use crate::heap::Heap;
use crate::natives::{pointer_error, same_text};
use crate::text::{chars_of, string_from_chars};

verus! {

/// The builtin scalar types.
#[derive(Clone, Copy, Debug, PartialEq, Eq, Structural)]
pub enum BuiltinType {
    Bool,
    U8,
    U16,
    U32,
    U64,
    I8,
    I16,
    I32,
    I64,
    F32,
    F64,
    String,
    Uuid,
    Hash,
    DateTime,
}

/// A type of a runtime value.
#[derive(Debug)]
pub enum RuntimeType {
    Builtin(BuiltinType),
    Tuple(Vec<RuntimeType>),
    List(Box<RuntimeType>),
    Dict(Box<RuntimeType>),
    Option(Box<RuntimeType>),
}

/// The mathematical form of a runtime type.
pub enum TypeView {
    Builtin(BuiltinType),
    Tuple(Seq<TypeView>),
    List(Box<TypeView>),
    Dict(Box<TypeView>),
    Option(Box<TypeView>),
}

/// The mathematical form of `t`.
pub open spec fn type_view(t: RuntimeType) -> TypeView
    decreases t,
{
    match t {
        RuntimeType::Builtin(b) => TypeView::Builtin(b),
        RuntimeType::Tuple(v) => TypeView::Tuple(types_view(v@)),
        RuntimeType::List(b) => TypeView::List(Box::new(type_view(*b))),
        RuntimeType::Dict(b) => TypeView::Dict(Box::new(type_view(*b))),
        RuntimeType::Option(b) => TypeView::Option(Box::new(type_view(*b))),
    }
}

/// The mathematical forms of the types `s`, in order.
pub open spec fn types_view(s: Seq<RuntimeType>) -> Seq<TypeView>
    decreases s,
{
    if s.len() == 0 {
        Seq::empty()
    } else {
        seq![type_view(s[0])] + types_view(s.drop_first())
    }
}

proof fn lemma_types_view_len(s: Seq<RuntimeType>)
    ensures
        types_view(s).len() == s.len(),
    decreases s.len(),
{
    if s.len() > 0 {
        lemma_types_view_len(s.drop_first());
    }
}

proof fn lemma_types_view_index(s: Seq<RuntimeType>, i: int)
    requires
        0 <= i < s.len(),
    ensures
        types_view(s).len() == s.len(),
        types_view(s)[i] == type_view(s[i]),
    decreases s.len(),
{
    lemma_types_view_len(s);
    if i > 0 {
        lemma_types_view_index(s.drop_first(), i - 1);
    }
}

impl RuntimeType {
    /// A copy of this type.
    pub fn copy(&self) -> (t: RuntimeType)
        ensures
            type_view(t) == type_view(*self),
        decreases *self,
    {
        match self {
            RuntimeType::Builtin(b) => RuntimeType::Builtin(*b),
            RuntimeType::Tuple(v) => {
                let mut out: Vec<RuntimeType> = Vec::new();
                let mut i: usize = 0;
                proof {
                    assert forall|j: int| 0 <= j < v@.len() implies decreases_to!(*self => #[trigger] v@[j]) by {
                        assert(decreases_to!(*self => *v));
                        assert(decreases_to!(*v => v[j]));
                    }
                }
                while i < v.len()
                    invariant
                        0 <= i <= v@.len(),
                        forall|j: int| 0 <= j < v@.len() ==> decreases_to!(*self => #[trigger] v@[j]),
                        out@.len() == i,
                        forall|j: int| 0 <= j < i ==> type_view(#[trigger] out@[j]) == type_view(v@[j]),
                    decreases v@.len() - i,
                {
                    out.push(v[i].copy());
                    i += 1;
                }
                proof {
                    lemma_types_view_len(out@);
                    lemma_types_view_len(v@);
                    assert forall|j: int| 0 <= j < v@.len() implies types_view(out@)[j] == types_view(v@)[j] by {
                        lemma_types_view_index(out@, j);
                        lemma_types_view_index(v@, j);
                    }
                    assert(types_view(out@) =~= types_view(v@));
                }
                RuntimeType::Tuple(out)
            },
            RuntimeType::List(b) => RuntimeType::List(Box::new((**b).copy())),
            RuntimeType::Dict(b) => RuntimeType::Dict(Box::new((**b).copy())),
            RuntimeType::Option(b) => RuntimeType::Option(Box::new((**b).copy())),
        }
    }

    /// Whether two types are the same.
    pub fn same(&self, other: &RuntimeType) -> (r: bool)
        ensures
            r == (type_view(*self) == type_view(*other)),
        decreases *self,
    {
        match (self, other) {
            (RuntimeType::Builtin(a), RuntimeType::Builtin(b)) => *a == *b,
            (RuntimeType::Tuple(a), RuntimeType::Tuple(b)) => {
                proof {
                    lemma_types_view_len(a@);
                    lemma_types_view_len(b@);
                }
                if a.len() != b.len() {
                    return false;
                }
                let mut i: usize = 0;
                proof {
                    assert forall|j: int| 0 <= j < a@.len() implies decreases_to!(*self => #[trigger] a@[j]) by {
                        assert(decreases_to!(*self => *a));
                        assert(decreases_to!(*a => a[j]));
                    }
                }
                while i < a.len()
                    invariant
                        0 <= i <= a@.len(),
                        type_view(*self) == TypeView::Tuple(types_view(a@)),
                        type_view(*other) == TypeView::Tuple(types_view(b@)),
                        forall|j: int| 0 <= j < a@.len() ==> decreases_to!(*self => #[trigger] a@[j]),
                        a@.len() == b@.len(),
                        forall|j: int| 0 <= j < i ==> type_view(a@[j]) == type_view(b@[j]),
                    decreases a@.len() - i,
                {
                    if !a[i].same(&b[i]) {
                        proof {
                            lemma_types_view_index(a@, i as int);
                            lemma_types_view_index(b@, i as int);
                            assert(types_view(a@)[i as int] != types_view(b@)[i as int]);
                            assert(types_view(a@) != types_view(b@));
                        }
                        return false;
                    }
                    i += 1;
                }
                proof {
                    assert forall|j: int| 0 <= j < a@.len() implies types_view(a@)[j] == types_view(b@)[j] by {
                        lemma_types_view_index(a@, j);
                        lemma_types_view_index(b@, j);
                    }
                    assert(types_view(a@) =~= types_view(b@));
                }
                true
            },
            (RuntimeType::List(a), RuntimeType::List(b)) => (**a).same(&**b),
            (RuntimeType::Dict(a), RuntimeType::Dict(b)) => (**a).same(&**b),
            (RuntimeType::Option(a), RuntimeType::Option(b)) => (**a).same(&**b),
            _ => false,
        }
    }
}

/// Why a value has no runtime type.
pub enum InferFail {
    /// A pointer that names no object of the heap.
    Pointer(InternalPtr),
    /// The value does not show its type; the name says what kind it is.
    Unknown(Seq<char>),
    /// Elements of one list or dictionary have different types.
    Mismatch(TypeView, TypeView),
    /// A slice reaches outside its backing data.
    SliceBounds { binary: bool, len: usize, start: usize, end: usize },
    /// A slice over something that is not backing data, of the given kind.
    Backing(&'static str),
}

/// The type of a value, why it has none, or that reading it did not end
/// within the given depth.
pub enum Inferred {
    Typed(TypeView),
    Fail(InferFail),
    Diverges,
}

/// The types of a run of values, or the first failure.
pub enum InferredSeq {
    Typed(Seq<TypeView>),
    Fail(InferFail),
    Diverges,
}

/// Whether each of a run of values has the type `t`, or the first failure.
pub enum Uniform {
    Same,
    Fail(InferFail),
    Diverges,
}

pub open spec fn builtin(b: BuiltinType) -> Inferred {
    Inferred::Typed(TypeView::Builtin(b))
}

pub open spec fn unknown(name: Seq<char>) -> Inferred {
    Inferred::Fail(InferFail::Unknown(name))
}

/// A list of the type in `r`.
pub open spec fn list_of(r: Inferred) -> Inferred {
    match r {
        Inferred::Typed(t) => Inferred::Typed(TypeView::List(Box::new(t))),
        other => other,
    }
}

/// An option of the type in `r`.
pub open spec fn option_of(r: Inferred) -> Inferred {
    match r {
        Inferred::Typed(t) => Inferred::Typed(TypeView::Option(Box::new(t))),
        other => other,
    }
}

/// The type of the value in `c`, reading pointers at most `fuel` deep.
pub open spec fn infer_cell(h: Heap, c: CellView, fuel: nat) -> Inferred
    decreases fuel, 0nat,
{
    if fuel == 0 {
        Inferred::Diverges
    } else {
        let f = (fuel - 1) as nat;
        match c {
            CellView::Bool(_) => builtin(BuiltinType::Bool),
            CellView::U8(_) => builtin(BuiltinType::U8),
            CellView::U16(_) => builtin(BuiltinType::U16),
            CellView::U32(_) => builtin(BuiltinType::U32),
            CellView::U64(_) => builtin(BuiltinType::U64),
            CellView::I8(_) => builtin(BuiltinType::I8),
            CellView::I16(_) => builtin(BuiltinType::I16),
            CellView::I32(_) => builtin(BuiltinType::I32),
            CellView::I64(_) => builtin(BuiltinType::I64),
            CellView::F32(_) => builtin(BuiltinType::F32),
            CellView::F64(_) => builtin(BuiltinType::F64),
            CellView::String(_) => builtin(BuiltinType::String),
            CellView::Uuid(_) => builtin(BuiltinType::Uuid),
            CellView::Hash(_) => builtin(BuiltinType::Hash),
            CellView::DateTime(..) => builtin(BuiltinType::DateTime),
            CellView::Tuple(ps) => match infer_seq(h, ps, f) {
                InferredSeq::Typed(ts) => Inferred::Typed(TypeView::Tuple(ts)),
                InferredSeq::Fail(e) => Inferred::Fail(e),
                InferredSeq::Diverges => Inferred::Diverges,
            },
            CellView::Empty => unknown("list"@),
            CellView::Cons(head, _) => list_of(infer_ptr(h, head, f)),
            CellView::ListSlice { start, end, elements } => if !h.valid_ptr(elements) {
                Inferred::Fail(InferFail::Pointer(elements))
            } else {
                match h.cell_at(elements) {
                    CellView::Data(v) => if start > end || end > v.len() {
                        Inferred::Fail(InferFail::SliceBounds { binary: false, len: v.len() as usize, start, end })
                    } else if start >= v.len() {
                        unknown("list"@)
                    } else {
                        match infer_ptr(h, v[start as int], f) {
                            Inferred::Typed(t) => match uniform(h, slice_rest(v, start, end), t, f) {
                                Uniform::Same => Inferred::Typed(TypeView::List(Box::new(t))),
                                Uniform::Fail(e) => Inferred::Fail(e),
                                Uniform::Diverges => Inferred::Diverges,
                            },
                            other => other,
                        }
                    },
                    CellView::BinaryData(b) => if start > end || end > b.len() {
                        Inferred::Fail(InferFail::SliceBounds { binary: true, len: b.len() as usize, start, end })
                    } else if start == end {
                        unknown("list"@)
                    } else {
                        Inferred::Typed(TypeView::List(Box::new(TypeView::Builtin(BuiltinType::U8))))
                    },
                    other => Inferred::Fail(InferFail::Backing(type_name_of(other))),
                }
            },
            CellView::Data(_) => unknown("data"@),
            CellView::BinaryData(_) => unknown("binary_data"@),
            CellView::Dict(entries) => if entries.len() == 0 {
                unknown("dict"@)
            } else {
                match infer_ptr(h, entries[0].1, f) {
                    Inferred::Typed(t) => match uniform(h, entries.drop_first().map_values(|e: (Seq<char>, InternalPtr)| e.1), t, f) {
                        Uniform::Same => Inferred::Typed(TypeView::Dict(Box::new(t))),
                        Uniform::Fail(e) => Inferred::Fail(e),
                        Uniform::Diverges => Inferred::Diverges,
                    },
                    other => other,
                }
            },
            CellView::Adt(tag, args) => if tag == "Some"@ && args.len() == 1 {
                option_of(infer_ptr(h, args[0], f))
            } else if tag == "None"@ && args.len() == 0 {
                unknown("option"@)
            } else if (tag == "Ok"@ || tag == "Err"@) && args.len() == 1 {
                unknown("result"@)
            } else {
                unknown(tag)
            },
            CellView::Uninitialized(_) => unknown("uninitialized"@),
            CellView::Closure { .. } => unknown("closure"@),
            CellView::Native { .. } => unknown("native"@),
            CellView::Overloaded { .. } => unknown("overloaded"@),
        }
    }
}

/// The type of the value that `p` names.
pub open spec fn infer_ptr(h: Heap, p: InternalPtr, fuel: nat) -> Inferred
    decreases fuel, 1nat,
{
    if !h.valid_ptr(p) {
        Inferred::Fail(InferFail::Pointer(p))
    } else {
        infer_cell(h, h.cell_at(p), fuel)
    }
}

/// The types of the values that `ps` name, in order.
pub open spec fn infer_seq(h: Heap, ps: Seq<InternalPtr>, fuel: nat) -> InferredSeq
    decreases fuel, ps.len() + 2,
{
    if ps.len() == 0 {
        InferredSeq::Typed(Seq::empty())
    } else {
        match infer_ptr(h, ps[0], fuel) {
            Inferred::Typed(t) => match infer_seq(h, ps.drop_first(), fuel) {
                InferredSeq::Typed(ts) => InferredSeq::Typed(seq![t] + ts),
                other => other,
            },
            Inferred::Fail(e) => InferredSeq::Fail(e),
            Inferred::Diverges => InferredSeq::Diverges,
        }
    }
}

/// Whether every value that `ps` name has the type `t`, in order.
pub open spec fn uniform(h: Heap, ps: Seq<InternalPtr>, t: TypeView, fuel: nat) -> Uniform
    decreases fuel, ps.len() + 2,
{
    if ps.len() == 0 {
        Uniform::Same
    } else {
        match infer_ptr(h, ps[0], fuel) {
            Inferred::Typed(u) => if u != t {
                Uniform::Fail(InferFail::Mismatch(t, u))
            } else {
                uniform(h, ps.drop_first(), t, fuel)
            },
            Inferred::Fail(e) => Uniform::Fail(e),
            Inferred::Diverges => Uniform::Diverges,
        }
    }
}

/// Whether `e` is the error for the failure `f` in `h`.
pub open spec fn error_for(h: Heap, e: EngineError, f: InferFail) -> bool {
    match f {
        InferFail::Pointer(p) => e == pointer_error(h, p),
        InferFail::Unknown(n) => e matches EngineError::UnknownType(s) && s@ == n,
        InferFail::Mismatch(a, b) => e matches EngineError::TypeMismatch { expected, got } && type_view(expected) == a
            && type_view(got) == b,
        InferFail::SliceBounds { binary, len, start, end } => e == (EngineError::InvalidSliceBounds { binary, len, start, end }),
        InferFail::Backing(g) => e == (EngineError::NativeType { expected: "list slice backing data", got: g }),
    }
}

/// Whether `res` is what inferring gave as `r`.
pub open spec fn infer_matches(h: Heap, res: Result<RuntimeType, EngineError>, r: Inferred) -> bool {
    match r {
        Inferred::Typed(t) => res matches Ok(x) && type_view(x) == t,
        Inferred::Fail(f) => res matches Err(e) && error_for(h, e, f),
        Inferred::Diverges => false,
    }
}

/// The value in `c` has a type or a failure within finite depth.
pub open spec fn inference_ends(h: Heap, c: CellView) -> bool {
    exists|n: nat| !(#[trigger] infer_cell(h, c, n) is Diverges)
}

/// The type of the value in `c` (or why it has none).
pub open spec fn inferred(h: Heap, c: CellView) -> Inferred {
    infer_cell(h, c, choose|n: nat| !(#[trigger] infer_cell(h, c, n) is Diverges))
}

fn unknown_type(name: &str) -> (e: EngineError)
    ensures
        e matches EngineError::UnknownType(s) && s@ == name@,
{
    EngineError::UnknownType(name.to_string())
}

fn infer_pointer(heap: &Heap, p: &InternalPtr, Ghost(fuel): Ghost<nat>) -> (res: Result<RuntimeType, EngineError>)
    requires
        !(infer_ptr(*heap, *p, fuel) is Diverges),
    ensures
        infer_matches(*heap, res, infer_ptr(*heap, *p, fuel)),
    decreases fuel, 1nat,
{
    match heap.get_cell_from_pointer(p) {
        Ok(c) => infer_cell_fuel(heap, c, Ghost(fuel)),
        Err(e) => Err(e),
    }
}

fn infer_pointers(heap: &Heap, ps: &[InternalPtr], Ghost(fuel): Ghost<nat>) -> (res: Result<Vec<RuntimeType>, EngineError>)
    requires
        !(infer_seq(*heap, ps@, fuel) is Diverges),
    ensures
        match infer_seq(*heap, ps@, fuel) {
            InferredSeq::Typed(ts) => res matches Ok(v) && types_view(v@) == ts,
            InferredSeq::Fail(f) => res matches Err(e) && error_for(*heap, e, f),
            InferredSeq::Diverges => false,
        },
    decreases fuel, ps@.len() + 2,
{
    let mut out: Vec<RuntimeType> = Vec::new();
    let mut i: usize = 0;
    proof {
        assert(ps@.skip(0) =~= ps@);
        assert(types_view(out@) == Seq::<TypeView>::empty());
        match infer_seq(*heap, ps@, fuel) {
            InferredSeq::Typed(ts) => {
                assert(Seq::<TypeView>::empty() + ts =~= ts);
            },
            _ => {},
        }
    }
    while i < ps.len()
        invariant
            0 <= i <= ps@.len(),
            infer_seq(*heap, ps@, fuel) == prefix_then(types_view(out@), infer_seq(*heap, ps@.skip(i as int), fuel)),
            !(infer_seq(*heap, ps@.skip(i as int), fuel) is Diverges),
        decreases ps@.len() - i,
    {
        let ghost rest = ps@.skip(i as int);
        proof {
            assert(rest[0] == ps@[i as int]);
            assert(rest.drop_first() =~= ps@.skip(i + 1));
        }
        let t = match infer_pointer(heap, &ps[i], Ghost(fuel)) {
            Ok(t) => t,
            Err(e) => return Err(e),
        };
        proof {
            lemma_types_view_push(out@, t);
            let tv = type_view(t);
            let tail = infer_seq(*heap, rest.drop_first(), fuel);
            assert(infer_ptr(*heap, rest[0], fuel) == Inferred::Typed(tv));
            assert(infer_seq(*heap, rest, fuel) == prefix_then(seq![tv], tail));
            match tail {
                InferredSeq::Typed(ts) => {
                    assert(types_view(out@) + (seq![tv] + ts) =~= types_view(out@).push(tv) + ts);
                },
                _ => {},
            }
        }
        out.push(t);
        i += 1;
    }
    proof {
        assert(ps@.skip(ps@.len() as int) =~= Seq::<InternalPtr>::empty());
        assert(types_view(out@) + Seq::<TypeView>::empty() =~= types_view(out@));
    }
    Ok(out)
}

/// `front` before the types of `r`.
pub open spec fn prefix_then(front: Seq<TypeView>, r: InferredSeq) -> InferredSeq {
    match r {
        InferredSeq::Typed(ts) => InferredSeq::Typed(front + ts),
        other => other,
    }
}

proof fn lemma_types_view_push(s: Seq<RuntimeType>, t: RuntimeType)
    ensures
        types_view(s.push(t)) == types_view(s).push(type_view(t)),
    decreases s.len(),
{
    if s.len() == 0 {
        let e = Seq::<RuntimeType>::empty();
        assert(types_view(e) == Seq::<TypeView>::empty());
        assert(s.push(t).drop_first() =~= e);
        assert(s.push(t)[0] == t);
        assert(types_view(s.push(t)) == seq![type_view(t)] + types_view(e));
        assert(types_view(s.push(t)) =~= seq![type_view(t)]);
        assert(s =~= e);
    } else {
        lemma_types_view_push(s.drop_first(), t);
        assert(s.push(t).drop_first() =~= s.drop_first().push(t));
        assert(types_view(s.push(t)) =~= types_view(s).push(type_view(t)));
    }
}

fn check_uniform(heap: &Heap, ps: &[InternalPtr], t: &RuntimeType, Ghost(fuel): Ghost<nat>) -> (res: Result<(), EngineError>)
    requires
        !(uniform(*heap, ps@, type_view(*t), fuel) is Diverges),
    ensures
        match uniform(*heap, ps@, type_view(*t), fuel) {
            Uniform::Same => res is Ok,
            Uniform::Fail(f) => res matches Err(e) && error_for(*heap, e, f),
            Uniform::Diverges => false,
        },
    decreases fuel, ps@.len() + 2,
{
    let mut i: usize = 0;
    proof {
        assert(ps@.skip(0) =~= ps@);
    }
    while i < ps.len()
        invariant
            0 <= i <= ps@.len(),
            uniform(*heap, ps@, type_view(*t), fuel) == uniform(*heap, ps@.skip(i as int), type_view(*t), fuel),
            !(uniform(*heap, ps@.skip(i as int), type_view(*t), fuel) is Diverges),
        decreases ps@.len() - i,
    {
        let ghost rest = ps@.skip(i as int);
        proof {
            assert(rest[0] == ps@[i as int]);
            assert(rest.drop_first() =~= ps@.skip(i + 1));
        }
        let u = match infer_pointer(heap, &ps[i], Ghost(fuel)) {
            Ok(u) => u,
            Err(e) => return Err(e),
        };
        if !u.same(t) {
            return Err(EngineError::TypeMismatch { expected: t.copy(), got: u });
        }
        i += 1;
    }
    Ok(())
}

fn infer_cell_fuel(heap: &Heap, cell: &Cell, Ghost(fuel): Ghost<nat>) -> (res: Result<RuntimeType, EngineError>)
    requires
        !(infer_cell(*heap, cell@, fuel) is Diverges),
    ensures
        infer_matches(*heap, res, infer_cell(*heap, cell@, fuel)),
    decreases fuel, 0nat,
{
    proof {
        assert(fuel > 0);
    }
    let ghost f = (fuel - 1) as nat;
    match cell {
        Cell::Bool(..) => Ok(RuntimeType::Builtin(BuiltinType::Bool)),
        Cell::U8(..) => Ok(RuntimeType::Builtin(BuiltinType::U8)),
        Cell::U16(..) => Ok(RuntimeType::Builtin(BuiltinType::U16)),
        Cell::U32(..) => Ok(RuntimeType::Builtin(BuiltinType::U32)),
        Cell::U64(..) => Ok(RuntimeType::Builtin(BuiltinType::U64)),
        Cell::I8(..) => Ok(RuntimeType::Builtin(BuiltinType::I8)),
        Cell::I16(..) => Ok(RuntimeType::Builtin(BuiltinType::I16)),
        Cell::I32(..) => Ok(RuntimeType::Builtin(BuiltinType::I32)),
        Cell::I64(..) => Ok(RuntimeType::Builtin(BuiltinType::I64)),
        Cell::F32(..) => Ok(RuntimeType::Builtin(BuiltinType::F32)),
        Cell::F64(..) => Ok(RuntimeType::Builtin(BuiltinType::F64)),
        Cell::String(..) => Ok(RuntimeType::Builtin(BuiltinType::String)),
        Cell::Uuid(..) => Ok(RuntimeType::Builtin(BuiltinType::Uuid)),
        Cell::Hash(..) => Ok(RuntimeType::Builtin(BuiltinType::Hash)),
        Cell::DateTime(..) => Ok(RuntimeType::Builtin(BuiltinType::DateTime)),
        Cell::Tuple(elems) => match infer_pointers(heap, elems.as_slice(), Ghost(f)) {
            Ok(tys) => Ok(RuntimeType::Tuple(tys)),
            Err(e) => Err(e),
        },
        Cell::Empty => Err(unknown_type("list")),
        Cell::Cons(head, _) => match infer_pointer(heap, head, Ghost(f)) {
            Ok(t) => {
                let r = RuntimeType::List(Box::new(t));
                Ok(r)
            },
            Err(e) => Err(e),
        },
        Cell::ListSlice { start, end, elements } => {
            let backing = match heap.get_cell_from_pointer(elements) {
                Ok(c) => c,
                Err(e) => return Err(e),
            };
            match backing {
                Cell::Data(elems) => {
                    if *start > *end || *end > elems.len() {
                        return Err(EngineError::InvalidSliceBounds { binary: false, len: elems.len(), start: *start, end: *end });
                    }
                    if *start >= elems.len() {
                        return Err(unknown_type("list"));
                    }
                    let elem_ty = match infer_pointer(heap, &elems[*start], Ghost(f)) {
                        Ok(t) => t,
                        Err(e) => return Err(e),
                    };
                    let rest = if *start < *end {
                        slice_of(elems, *start + 1, *end)
                    } else {
                        Vec::new()
                    };
                    proof {
                        assert(rest@ == slice_rest(elems@, *start, *end));
                    }
                    match check_uniform(heap, rest.as_slice(), &elem_ty, Ghost(f)) {
                        Ok(()) => {
                            let r = RuntimeType::List(Box::new(elem_ty));
                            Ok(r)
                        },
                        Err(e) => Err(e),
                    }
                },
                Cell::BinaryData(bytes) => {
                    if *start > *end || *end > bytes.len() {
                        return Err(EngineError::InvalidSliceBounds { binary: true, len: bytes.len(), start: *start, end: *end });
                    }
                    if *start == *end {
                        return Err(unknown_type("list"));
                    }
                    let r = RuntimeType::List(Box::new(RuntimeType::Builtin(BuiltinType::U8)));
                    proof {
                        assert(type_view(RuntimeType::Builtin(BuiltinType::U8)) == TypeView::Builtin(BuiltinType::U8));
                    }
                    Ok(r)
                },
                other => Err(EngineError::NativeType { expected: "list slice backing data", got: other.cell_type_name() }),
            }
        },
        Cell::Data(..) => Err(unknown_type("data")),
        Cell::BinaryData(..) => Err(unknown_type("binary_data")),
        Cell::Dict(entries) => {
            if entries.len() == 0 {
                return Err(unknown_type("dict"));
            }
            proof {
                assert(crate::cell::dict_view(entries@)[0].1 == entries@[0].value);
            }
            let elem_ty = match infer_pointer(heap, &entries[0].value, Ghost(f)) {
                Ok(t) => t,
                Err(e) => return Err(e),
            };
            let mut rest: Vec<InternalPtr> = Vec::new();
            let mut k: usize = 1;
            while k < entries.len()
                invariant
                    1 <= k <= entries@.len(),
                    rest@ == crate::cell::dict_view(entries@).subrange(1, k as int).map_values(|e: (Seq<char>, InternalPtr)| e.1),
                decreases entries@.len() - k,
            {
                rest.push(entries[k].value);
                proof {
                    assert(rest@ =~= crate::cell::dict_view(entries@).subrange(1, k + 1).map_values(
                        |e: (Seq<char>, InternalPtr)| e.1,
                    ));
                }
                k += 1;
            }
            proof {
                assert(crate::cell::dict_view(entries@).subrange(1, entries@.len() as int) =~= crate::cell::dict_view(
                    entries@,
                ).drop_first());
            }
            match check_uniform(heap, rest.as_slice(), &elem_ty, Ghost(f)) {
                Ok(()) => Ok(RuntimeType::Dict(Box::new(elem_ty))),
                Err(e) => Err(e),
            }
        },
        Cell::Adt(tag, args) => {
            if same_text(tag.as_str(), "Some") && args.len() == 1 {
                match infer_pointer(heap, &args[0], Ghost(f)) {
                    Ok(t) => Ok(RuntimeType::Option(Box::new(t))),
                    Err(e) => Err(e),
                }
            } else if same_text(tag.as_str(), "None") && args.len() == 0 {
                Err(unknown_type("option"))
            } else if (same_text(tag.as_str(), "Ok") || same_text(tag.as_str(), "Err")) && args.len() == 1 {
                Err(unknown_type("result"))
            } else {
                Err(unknown_type(tag.as_str()))
            }
        },
        Cell::Uninitialized(..) => Err(unknown_type("uninitialized")),
        Cell::Closure(..) => Err(unknown_type("closure")),
        Cell::Native(..) => Err(unknown_type("native")),
        Cell::Overloaded(..) => Err(unknown_type("overloaded")),
    }
}

fn slice_of(v: &Vec<InternalPtr>, lo: usize, hi: usize) -> (res: Vec<InternalPtr>)
    requires
        lo <= hi <= v@.len(),
    ensures
        res@ == v@.subrange(lo as int, hi as int),
{
    let mut out: Vec<InternalPtr> = Vec::new();
    let mut i = lo;
    while i < hi
        invariant
            lo <= i <= hi <= v@.len(),
            out@ == v@.subrange(lo as int, i as int),
        decreases hi - i,
    {
        out.push(v[i]);
        i += 1;
        proof {
            assert(out@ =~= v@.subrange(lo as int, i as int));
        }
    }
    out
}

/// The pointers after the first element of the slice `start..end`.
pub open spec fn slice_rest(v: Seq<InternalPtr>, start: usize, end: usize) -> Seq<InternalPtr> {
    if start < end {
        v.subrange(start + 1, end as int)
    } else {
        Seq::empty()
    }
}

/// The runtime type of the value in `cell`, or why it has none.
pub fn infer_cell_type(heap: &Heap, cell: &Cell) -> (res: Result<RuntimeType, EngineError>)
    requires
        inference_ends(*heap, cell@),
    ensures
        infer_matches(*heap, res, inferred(*heap, cell@)),
{
    let ghost n = choose|n: nat| !(#[trigger] infer_cell(*heap, cell@, n) is Diverges);
    infer_cell_fuel(heap, cell, Ghost(n))
}

impl Heap {
    /// The runtime type of a rooted value, or why it has none.
    pub fn infer_type(&self, root: RootedPtr) -> (res: Result<RuntimeType, EngineError>)
        requires
            self.wf(),
            self.live_root(root),
            inference_ends(*self, self.cell_at(self.root_target(root))),
        ensures
            infer_matches(*self, res, inferred(*self, self.cell_at(self.root_target(root)))),
    {
        match self.get_cell_from_rooted_ptr(root) {
            Ok(c) => infer_cell_type(self, c),
            Err(e) => Err(e),
        }
    }
}

/// Every pointer held by an object of `h` names an object of lower rank:
/// no object reaches itself through its pointers.
pub open spec fn ranked(h: Heap, rank: spec_fn(InternalPtr) -> nat) -> bool {
    forall|p: InternalPtr, k: int| h.valid_ptr(p) && 0 <= k < children(h.cell_at(p)).len()
        ==> rank(#[trigger] children(h.cell_at(p))[k]) < rank(p)
}

proof fn lemma_ptr_ends(h: Heap, rank: spec_fn(InternalPtr) -> nat, p: InternalPtr, fuel: nat)
    requires
        h.wf(),
        ranked(h, rank),
        rank(p) < fuel,
    ensures
        !(infer_ptr(h, p, fuel) is Diverges),
    decreases fuel, 1nat,
{
    if h.valid_ptr(p) {
        let c = h.cell_at(p);
        assert forall|k: int| 0 <= k < children(c).len() implies h.valid_ptr(#[trigger] children(c)[k])
            && rank(children(c)[k]) < fuel - 1 by {
            assert(h.valid_ptr(children(h.slot_cell(p.index as int))[k]));
        }
        lemma_cell_ends(h, rank, c, fuel);
    }
}

proof fn lemma_seq_ends(h: Heap, rank: spec_fn(InternalPtr) -> nat, ps: Seq<InternalPtr>, fuel: nat)
    requires
        h.wf(),
        ranked(h, rank),
        forall|k: int| 0 <= k < ps.len() ==> rank(#[trigger] ps[k]) < fuel,
    ensures
        !(infer_seq(h, ps, fuel) is Diverges),
    decreases fuel, ps.len() + 2,
{
    if ps.len() > 0 {
        lemma_ptr_ends(h, rank, ps[0], fuel);
        assert forall|k: int| 0 <= k < ps.drop_first().len() implies rank(#[trigger] ps.drop_first()[k]) < fuel by {
            assert(ps.drop_first()[k] == ps[k + 1]);
        }
        lemma_seq_ends(h, rank, ps.drop_first(), fuel);
    }
}

proof fn lemma_uniform_ends(h: Heap, rank: spec_fn(InternalPtr) -> nat, ps: Seq<InternalPtr>, t: TypeView, fuel: nat)
    requires
        h.wf(),
        ranked(h, rank),
        forall|k: int| 0 <= k < ps.len() ==> rank(#[trigger] ps[k]) < fuel,
    ensures
        !(uniform(h, ps, t, fuel) is Diverges),
    decreases fuel, ps.len() + 2,
{
    if ps.len() > 0 {
        lemma_ptr_ends(h, rank, ps[0], fuel);
        assert forall|k: int| 0 <= k < ps.drop_first().len() implies rank(#[trigger] ps.drop_first()[k]) < fuel by {
            assert(ps.drop_first()[k] == ps[k + 1]);
        }
        lemma_uniform_ends(h, rank, ps.drop_first(), t, fuel);
    }
}

proof fn lemma_cell_ends(h: Heap, rank: spec_fn(InternalPtr) -> nat, c: CellView, fuel: nat)
    requires
        h.wf(),
        ranked(h, rank),
        fuel > 0,
        forall|k: int| 0 <= k < children(c).len() ==> h.valid_ptr(#[trigger] children(c)[k])
            && rank(children(c)[k]) < fuel - 1,
    ensures
        !(infer_cell(h, c, fuel) is Diverges),
    decreases fuel, 0nat,
{
    let f = (fuel - 1) as nat;
    match c {
        CellView::Tuple(ps) => {
            assert forall|k: int| 0 <= k < ps.len() implies rank(#[trigger] ps[k]) < f by {
                assert(children(c)[k] == ps[k]);
            }
            lemma_seq_ends(h, rank, ps, f);
        },
        CellView::Cons(head, _) => {
            assert(children(c)[0] == head);
            lemma_ptr_ends(h, rank, head, f);
        },
        CellView::ListSlice { start, end, elements } => {
            assert(children(c)[0] == elements);
            if let CellView::Data(v) = h.cell_at(elements) {
                if start <= end && end <= v.len() && start < v.len() {
                    assert(children(h.cell_at(elements))[start as int] == v[start as int]);
                    lemma_ptr_ends(h, rank, v[start as int], f);
                    let rest = slice_rest(v, start, end);
                    assert forall|k: int| 0 <= k < rest.len() implies rank(#[trigger] rest[k]) < f by {
                        assert(rest[k] == v[start + 1 + k]);
                        assert(children(h.cell_at(elements))[start + 1 + k] == v[start + 1 + k]);
                    }
                    if let Inferred::Typed(t) = infer_ptr(h, v[start as int], f) {
                        lemma_uniform_ends(h, rank, rest, t, f);
                    }
                }
            }
        },
        CellView::Dict(entries) => {
            if entries.len() > 0 {
                assert(children(c)[0] == entries[0].1);
                lemma_ptr_ends(h, rank, entries[0].1, f);
                let rest = entries.drop_first().map_values(|e: (Seq<char>, InternalPtr)| e.1);
                assert forall|k: int| 0 <= k < rest.len() implies rank(#[trigger] rest[k]) < f by {
                    assert(children(c)[k + 1] == entries[k + 1].1);
                }
                if let Inferred::Typed(t) = infer_ptr(h, entries[0].1, f) {
                    lemma_uniform_ends(h, rank, rest, t, f);
                }
            }
        },
        CellView::Adt(tag, args) => {
            if args.len() == 1 {
                assert(children(c)[0] == args[0]);
                lemma_ptr_ends(h, rank, args[0], f);
            }
        },
        _ => {},
    }
}

/// Inference ends on every object of a heap whose objects reach no cycle
/// (some rank falls along every pointer).
pub proof fn law_acyclic_inference_ends(h: Heap, rank: spec_fn(InternalPtr) -> nat, p: InternalPtr)
    requires
        h.wf(),
        ranked(h, rank),
        h.valid_ptr(p),
    ensures
        inference_ends(h, h.cell_at(p)),
{
    lemma_ptr_ends(h, rank, p, rank(p) + 1);
    assert(!(infer_cell(h, h.cell_at(p), rank(p) + 1) is Diverges));
}

/// The name of a builtin type as the language writes it.
pub open spec fn builtin_text(b: BuiltinType) -> Seq<char> {
    match b {
        BuiltinType::Bool => "bool"@,
        BuiltinType::U8 => "u8"@,
        BuiltinType::U16 => "u16"@,
        BuiltinType::U32 => "u32"@,
        BuiltinType::U64 => "u64"@,
        BuiltinType::I8 => "i8"@,
        BuiltinType::I16 => "i16"@,
        BuiltinType::I32 => "i32"@,
        BuiltinType::I64 => "i64"@,
        BuiltinType::F32 => "f32"@,
        BuiltinType::F64 => "f64"@,
        BuiltinType::String => "string"@,
        BuiltinType::Uuid => "uuid"@,
        BuiltinType::Hash => "hash"@,
        BuiltinType::DateTime => "datetime"@,
    }
}

/// A runtime type as the language writes it: a builtin by its name, a
/// tuple as its items in parentheses separated by `, `, and `List`,
/// `Dict` and `Option` before their item type.
pub open spec fn runtime_type_text(t: TypeView) -> Seq<char>
    decreases t,
{
    match t {
        TypeView::Builtin(b) => builtin_text(b),
        TypeView::Tuple(items) => seq!['('] + joined_type_texts(items) + seq![')'],
        TypeView::List(inner) => "List "@ + runtime_type_text(*inner),
        TypeView::Dict(inner) => "Dict "@ + runtime_type_text(*inner),
        TypeView::Option(inner) => "Option "@ + runtime_type_text(*inner),
    }
}

/// The texts of `items`, separated by `, `.
pub open spec fn joined_type_texts(items: Seq<TypeView>) -> Seq<char>
    decreases items,
{
    if items.len() == 0 {
        Seq::empty()
    } else if items.len() == 1 {
        runtime_type_text(items[0])
    } else {
        joined_type_texts(items.drop_last()) + ", "@ + runtime_type_text(items.last())
    }
}

fn builtin_name(b: BuiltinType) -> (s: &'static str)
    ensures
        s@ == builtin_text(b),
{
    match b {
        BuiltinType::Bool => "bool",
        BuiltinType::U8 => "u8",
        BuiltinType::U16 => "u16",
        BuiltinType::U32 => "u32",
        BuiltinType::U64 => "u64",
        BuiltinType::I8 => "i8",
        BuiltinType::I16 => "i16",
        BuiltinType::I32 => "i32",
        BuiltinType::I64 => "i64",
        BuiltinType::F32 => "f32",
        BuiltinType::F64 => "f64",
        BuiltinType::String => "string",
        BuiltinType::Uuid => "uuid",
        BuiltinType::Hash => "hash",
        BuiltinType::DateTime => "datetime",
    }
}

fn push_str_chars(out: &mut Vec<char>, s: &str)
    ensures
        final(out)@ == old(out)@ + s@,
{
    let mut cs = chars_of(s);
    out.append(&mut cs);
}

fn push_type_text(out: &mut Vec<char>, t: &RuntimeType)
    ensures
        final(out)@ == old(out)@ + runtime_type_text(type_view(*t)),
    decreases t,
{
    let ghost o0 = out@;
    match t {
        RuntimeType::Builtin(b) => push_str_chars(out, builtin_name(*b)),
        RuntimeType::Tuple(items) => {
            let ghost tv = types_view(items@);
            proof {
                lemma_types_view_len(items@);
                assert forall|k: int| 0 <= k < items@.len() implies #[trigger] tv[k] == type_view(items@[k]) by {
                    lemma_types_view_index(items@, k);
                }
            }
            out.push('(');
            let mut i: usize = 0;
            proof {
                assert(tv.take(0) =~= Seq::<TypeView>::empty());
                assert(out@ =~= o0 + seq!['('] + joined_type_texts(tv.take(0)));
            }
            while i < items.len()
                invariant
                    0 <= i <= items@.len(),
                    tv == types_view(items@),
                    tv.len() == items@.len(),
                    forall|k: int| 0 <= k < items@.len() ==> #[trigger] tv[k] == type_view(items@[k]),
                    out@ == o0 + seq!['('] + joined_type_texts(tv.take(i as int)),
                    decreases_to!(*t => items),
                decreases items@.len() - i,
            {
                let ghost before = out@;
                if i > 0 {
                    push_str_chars(out, ", ");
                }
                proof {
                    assert(decreases_to!(items => items[i as int]));
                }
                push_type_text(out, &items[i]);
                proof {
                    assert(tv.take(i + 1).drop_last() =~= tv.take(i as int));
                    assert(tv.take(i + 1).last() == type_view(items@[i as int]));
                    if i == 0 {
                        assert(tv.take(1).len() == 1);
                        assert(out@ =~= o0 + seq!['('] + joined_type_texts(tv.take(i + 1)));
                    } else {
                        assert(out@ =~= o0 + seq!['('] + joined_type_texts(tv.take(i + 1)));
                    }
                }
                i += 1;
            }
            out.push(')');
            proof {
                assert(tv.take(i as int) =~= tv);
                assert(out@ =~= o0 + runtime_type_text(type_view(*t)));
            }
        },
        RuntimeType::List(inner) => {
            push_str_chars(out, "List ");
            push_type_text(out, inner);
        },
        RuntimeType::Dict(inner) => {
            push_str_chars(out, "Dict ");
            push_type_text(out, inner);
        },
        RuntimeType::Option(inner) => {
            push_str_chars(out, "Option ");
            push_type_text(out, inner);
        },
    }
}

/// A runtime type as the language writes it, such as `List (i32, string)`.
pub fn type_text(t: &RuntimeType) -> (s: String)
    ensures
        s@ == runtime_type_text(type_view(*t)),
{
    let mut out: Vec<char> = Vec::new();
    push_type_text(&mut out, t);
    proof {
        assert(out@ =~= runtime_type_text(type_view(*t)));
    }
    string_from_chars(&out)
}

/// A run of values found uniform with `t` is a run of values each of type
/// `t`.
proof fn lemma_uniform_same(h: Heap, ps: Seq<InternalPtr>, t: TypeView, f: nat)
    requires
        uniform(h, ps, t, f) == Uniform::Same,
    ensures
        forall|i: int| 0 <= i < ps.len() ==> infer_ptr(h, #[trigger] ps[i], f) == Inferred::Typed(t),
    decreases ps.len(),
{
    if ps.len() > 0 {
        lemma_uniform_same(h, ps.drop_first(), t, f);
        assert forall|i: int| 0 <= i < ps.len() implies infer_ptr(h, #[trigger] ps[i], f) == Inferred::Typed(t) by {
            if i > 0 {
                assert(ps[i] == ps.drop_first()[i - 1]);
            }
        }
    }
}

/// A run whose values have type `t` up to one of type `u` is not uniform
/// with `t`: it fails with the mismatch of `t` and `u`.
proof fn lemma_uniform_mismatch(h: Heap, ps: Seq<InternalPtr>, t: TypeView, f: nat, k: int, u: TypeView)
    requires
        0 <= k < ps.len(),
        forall|j: int| 0 <= j < k ==> infer_ptr(h, #[trigger] ps[j], f) == Inferred::Typed(t),
        infer_ptr(h, ps[k], f) == Inferred::Typed(u),
        u != t,
    ensures
        uniform(h, ps, t, f) == Uniform::Fail(InferFail::Mismatch(t, u)),
    decreases ps.len(),
{
    if k > 0 {
        assert(infer_ptr(h, ps[0], f) == Inferred::Typed(t));
        assert forall|j: int| 0 <= j < k - 1 implies infer_ptr(h, #[trigger] ps.drop_first()[j], f) == Inferred::Typed(t) by {
            assert(ps.drop_first()[j] == ps[j + 1]);
        }
        assert(ps.drop_first()[k - 1] == ps[k]);
        lemma_uniform_mismatch(h, ps.drop_first(), t, f, k - 1, u);
    }
}

/// A dictionary has the type `Dict t` only when every one of its values has
/// the type `t`.
pub proof fn law_dict_values_share_their_type(h: Heap, e: Seq<(Seq<char>, InternalPtr)>, n: nat, t: TypeView)
    requires
        infer_cell(h, CellView::Dict(e), n) == Inferred::Typed(TypeView::Dict(Box::new(t))),
    ensures
        forall|i: int| 0 <= i < e.len() ==> infer_ptr(h, #[trigger] e[i].1, (n - 1) as nat) == Inferred::Typed(t),
{
    let f = (n - 1) as nat;
    let rest = e.drop_first().map_values(|x: (Seq<char>, InternalPtr)| x.1);
    assert(e.len() > 0);
    if let Inferred::Typed(t0) = infer_ptr(h, e[0].1, f) {
        assert(uniform(h, rest, t0, f) == Uniform::Same);
        assert(t0 == t);
        lemma_uniform_same(h, rest, t, f);
        assert forall|i: int| 0 <= i < e.len() implies infer_ptr(h, #[trigger] e[i].1, f) == Inferred::Typed(t) by {
            if i > 0 {
                assert(rest[i - 1] == e[i].1);
            }
        }
    }
}

/// A dictionary whose values have the type of the first one up to a value
/// of another type fails with the mismatch of those two types.
pub proof fn law_dict_value_of_another_type(h: Heap, e: Seq<(Seq<char>, InternalPtr)>, n: nat, k: int, t: TypeView, u: TypeView)
    requires
        n > 0,
        0 < k < e.len(),
        forall|j: int| 0 <= j < k ==> infer_ptr(h, #[trigger] e[j].1, (n - 1) as nat) == Inferred::Typed(t),
        infer_ptr(h, e[k].1, (n - 1) as nat) == Inferred::Typed(u),
        u != t,
    ensures
        infer_cell(h, CellView::Dict(e), n) == Inferred::Fail(InferFail::Mismatch(t, u)),
{
    let f = (n - 1) as nat;
    let rest = e.drop_first().map_values(|x: (Seq<char>, InternalPtr)| x.1);
    assert(infer_ptr(h, e[0].1, f) == Inferred::Typed(t));
    assert forall|j: int| 0 <= j < k - 1 implies infer_ptr(h, #[trigger] rest[j], f) == Inferred::Typed(t) by {
        assert(rest[j] == e[j + 1].1);
    }
    assert(rest[k - 1] == e[k].1);
    lemma_uniform_mismatch(h, rest, t, f, k - 1, u);
}

/// A list slice over pointer data has the type `List t` only when every
/// element of the slice has the type `t`.
pub proof fn law_list_elements_share_their_type(h: Heap, start: usize, end: usize, elements: InternalPtr, n: nat, t: TypeView)
    requires
        infer_cell(h, CellView::ListSlice { start, end, elements }, n) == Inferred::Typed(TypeView::List(Box::new(t))),
        h.valid_ptr(elements),
        h.cell_at(elements) is Data,
    ensures
        forall|i: int| start <= i < end ==> infer_ptr(h, #[trigger] h.cell_at(elements)->Data_0[i], (n - 1) as nat) == Inferred::Typed(t),
{
    let f = (n - 1) as nat;
    let v = h.cell_at(elements)->Data_0;
    if let Inferred::Typed(t0) = infer_ptr(h, v[start as int], f) {
        let rest = slice_rest(v, start, end);
        assert(uniform(h, rest, t0, f) == Uniform::Same);
        lemma_uniform_same(h, rest, t, f);
        assert forall|i: int| start <= i < end implies infer_ptr(h, #[trigger] v[i], f) == Inferred::Typed(t) by {
            if i > start {
                assert(rest[i - start - 1] == v[i]);
            }
        }
    }
}

/// A tuple has the type of the tuple of its items' types: as many types as
/// items, each the type of the item at its place.
pub proof fn law_tuple_items_give_its_type(h: Heap, ps: Seq<InternalPtr>, n: nat, ts: Seq<TypeView>)
    requires
        infer_cell(h, CellView::Tuple(ps), n) == Inferred::Typed(TypeView::Tuple(ts)),
    ensures
        ts.len() == ps.len(),
        forall|i: int| 0 <= i < ps.len() ==> infer_ptr(h, #[trigger] ps[i], (n - 1) as nat) == Inferred::Typed(ts[i]),
{
    lemma_seq_typed(h, ps, (n - 1) as nat, ts);
}

proof fn lemma_seq_typed(h: Heap, ps: Seq<InternalPtr>, f: nat, ts: Seq<TypeView>)
    requires
        infer_seq(h, ps, f) == InferredSeq::Typed(ts),
    ensures
        ts.len() == ps.len(),
        forall|i: int| 0 <= i < ps.len() ==> infer_ptr(h, #[trigger] ps[i], f) == Inferred::Typed(ts[i]),
    decreases ps.len(),
{
    if ps.len() > 0 {
        let t0 = infer_ptr(h, ps[0], f)->Typed_0;
        let rest = infer_seq(h, ps.drop_first(), f)->Typed_0;
        lemma_seq_typed(h, ps.drop_first(), f, rest);
        assert(ts == seq![t0] + rest);
        assert forall|i: int| 0 <= i < ps.len() implies infer_ptr(h, #[trigger] ps[i], f) == Inferred::Typed(ts[i]) by {
            if i > 0 {
                assert(ps[i] == ps.drop_first()[i - 1]);
            }
        }
    }
}

/// The cells that hold a value of a builtin type.
pub open spec fn holds_builtin(c: CellView) -> bool {
    match c {
        CellView::Bool(..) | CellView::U8(..) | CellView::U16(..) | CellView::U32(..) | CellView::U64(..) | CellView::I8(..)
        | CellView::I16(..) | CellView::I32(..) | CellView::I64(..) | CellView::F32(..) | CellView::F64(..) | CellView::String(..)
        | CellView::Uuid(..) | CellView::Hash(..) | CellView::DateTime(..) => true,
        _ => false,
    }
}

/// A value of a builtin type has the builtin type of the same name as its
/// kind.
pub proof fn law_builtin_values_have_their_own_type(h: Heap, c: CellView, n: nat)
    requires
        n > 0,
        holds_builtin(c),
    ensures
        infer_cell(h, c, n) matches Inferred::Typed(TypeView::Builtin(b)) && builtin_text(b) == type_name_of(c)@,
{
    reveal_strlit("bool");
    reveal_strlit("u8");
    reveal_strlit("u16");
    reveal_strlit("u32");
    reveal_strlit("u64");
    reveal_strlit("i8");
    reveal_strlit("i16");
    reveal_strlit("i32");
    reveal_strlit("i64");
    reveal_strlit("f32");
    reveal_strlit("f64");
    reveal_strlit("string");
    reveal_strlit("uuid");
    reveal_strlit("hash");
    reveal_strlit("datetime");
}

/// `Some x` has the type `Option t` when `x` has the type `t`.
pub proof fn law_some_has_the_option_of_its_payload_type(h: Heap, p: InternalPtr, n: nat, t: TypeView)
    requires
        n > 0,
        infer_ptr(h, p, (n - 1) as nat) == Inferred::Typed(t),
    ensures
        infer_cell(h, CellView::Adt("Some"@, seq![p]), n) == Inferred::Typed(TypeView::Option(Box::new(t))),
{
}

} // verus!
