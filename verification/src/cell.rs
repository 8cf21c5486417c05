//! Heap cells: the objects that the Rex heap stores, and the pointers between
//! them.

use vstd::prelude::*;

use crate::error::EngineError;
use crate::lists::map_each;
use crate::tasks::{all_sent, any_failed};

verus! {

/// Raw moving reference to a heap object: a heap, a slot, and the
/// collection epoch in which the object was placed in that slot.
#[derive(Clone, Copy, Debug, PartialEq, Eq, Structural)]
pub struct InternalPtr {
    pub heap_id: u64,
    pub index: u32,
    pub generation: u64,
}

/// Stable token for a value held by the runtime: an entry of the heap's
/// runtime root table, which the collector rewrites when the value moves.
#[derive(Clone, Copy, Debug, PartialEq, Eq, Structural)]
pub struct RootedPtr {
    pub heap_id: u64,
    pub slot: usize,
    pub generation: u64,
}

/// One binding of a closure environment.
#[derive(Debug)]
pub struct EnvBinding {
    pub name: String,
    pub value: InternalPtr,
}

/// A closure: its captured environment (innermost frame first, each frame's
/// bindings in name order), the parameter name, the sizes of the frames, and
/// the identifier of its typed body in the evaluator's code table.
#[derive(Debug)]
pub struct Closure {
    pub env: Vec<EnvBinding>,
    pub frame_sizes: Vec<usize>,
    pub param: String,
    pub code: u64,
}

/// A partially applied host function.
#[derive(Debug)]
pub struct NativeFn {
    pub native_id: u64,
    pub name: String,
    pub arity: usize,
    pub typ: u64,
    pub applied: Vec<InternalPtr>,
    pub applied_types: Vec<u64>,
}

/// A partially applied overloaded function.
#[derive(Debug)]
pub struct OverloadedFn {
    pub name: String,
    pub typ: u64,
    pub applied: Vec<InternalPtr>,
    pub applied_types: Vec<u64>,
}

/// A dictionary field: its name and value.
#[derive(Debug)]
pub struct DictEntry {
    pub key: String,
    pub value: InternalPtr,
}

/// A heap object. Floats are held by their IEEE-754 bits, a UUID by its
/// 128-bit value, a BLAKE3 hash by its 32 bytes, and a UTC date-time by its
/// seconds and nanoseconds since the Unix epoch.
#[derive(Debug)]
pub enum Cell {
    Bool(bool),
    U8(u8),
    U16(u16),
    U32(u32),
    U64(u64),
    I8(i8),
    I16(i16),
    I32(i32),
    I64(i64),
    F32(u32),
    F64(u64),
    String(String),
    Uuid(u128),
    Hash([u8; 32]),
    DateTime(i64, u32),
    Tuple(Vec<InternalPtr>),
    Empty,
    Cons(InternalPtr, InternalPtr),
    ListSlice { start: usize, end: usize, elements: InternalPtr },
    Data(Vec<InternalPtr>),
    BinaryData(Vec<u8>),
    Dict(Vec<DictEntry>),
    Adt(String, Vec<InternalPtr>),
    Uninitialized(String),
    Closure(Closure),
    Native(NativeFn),
    Overloaded(OverloadedFn),
}

/// The mathematical content of a cell.
pub enum CellView {
    Bool(bool),
    U8(u8),
    U16(u16),
    U32(u32),
    U64(u64),
    I8(i8),
    I16(i16),
    I32(i32),
    I64(i64),
    F32(u32),
    F64(u64),
    String(Seq<char>),
    Uuid(u128),
    Hash(Seq<u8>),
    DateTime(i64, u32),
    Tuple(Seq<InternalPtr>),
    Empty,
    Cons(InternalPtr, InternalPtr),
    ListSlice { start: usize, end: usize, elements: InternalPtr },
    Data(Seq<InternalPtr>),
    BinaryData(Seq<u8>),
    Dict(Seq<(Seq<char>, InternalPtr)>),
    Adt(Seq<char>, Seq<InternalPtr>),
    Uninitialized(Seq<char>),
    Closure { env: Seq<(Seq<char>, InternalPtr)>, frame_sizes: Seq<usize>, param: Seq<char>, code: u64 },
    Native { native_id: u64, name: Seq<char>, arity: usize, typ: u64, applied: Seq<InternalPtr>, applied_types: Seq<u64> },
    Overloaded { name: Seq<char>, typ: u64, applied: Seq<InternalPtr>, applied_types: Seq<u64> },
}

pub open spec fn dict_view(v: Seq<DictEntry>) -> Seq<(Seq<char>, InternalPtr)> {
    v.map_values(|e: DictEntry| (e.key@, e.value))
}

pub open spec fn env_view(v: Seq<EnvBinding>) -> Seq<(Seq<char>, InternalPtr)> {
    v.map_values(|e: EnvBinding| (e.name@, e.value))
}

impl View for Cell {
    type V = CellView;

    open spec fn view(&self) -> CellView {
        match self {
            Cell::Bool(v) => CellView::Bool(*v),
            Cell::U8(v) => CellView::U8(*v),
            Cell::U16(v) => CellView::U16(*v),
            Cell::U32(v) => CellView::U32(*v),
            Cell::U64(v) => CellView::U64(*v),
            Cell::I8(v) => CellView::I8(*v),
            Cell::I16(v) => CellView::I16(*v),
            Cell::I32(v) => CellView::I32(*v),
            Cell::I64(v) => CellView::I64(*v),
            Cell::F32(v) => CellView::F32(*v),
            Cell::F64(v) => CellView::F64(*v),
            Cell::String(s) => CellView::String(s@),
            Cell::Uuid(v) => CellView::Uuid(*v),
            Cell::Hash(h) => CellView::Hash(h@),
            Cell::DateTime(s, n) => CellView::DateTime(*s, *n),
            Cell::Tuple(v) => CellView::Tuple(v@),
            Cell::Empty => CellView::Empty,
            Cell::Cons(h, t) => CellView::Cons(*h, *t),
            Cell::ListSlice { start, end, elements } => CellView::ListSlice {
                start: *start,
                end: *end,
                elements: *elements,
            },
            Cell::Data(v) => CellView::Data(v@),
            Cell::BinaryData(v) => CellView::BinaryData(v@),
            Cell::Dict(v) => CellView::Dict(dict_view(v@)),
            Cell::Adt(n, v) => CellView::Adt(n@, v@),
            Cell::Uninitialized(n) => CellView::Uninitialized(n@),
            Cell::Closure(c) => CellView::Closure {
                env: env_view(c.env@),
                frame_sizes: c.frame_sizes@,
                param: c.param@,
                code: c.code,
            },
            Cell::Native(n) => CellView::Native {
                native_id: n.native_id,
                name: n.name@,
                arity: n.arity,
                typ: n.typ,
                applied: n.applied@,
                applied_types: n.applied_types@,
            },
            Cell::Overloaded(o) => CellView::Overloaded {
                name: o.name@,
                typ: o.typ,
                applied: o.applied@,
                applied_types: o.applied_types@,
            },
        }
    }
}

/// The pointers a cell holds, in the order in which the collector traces
/// them.
pub open spec fn children(c: CellView) -> Seq<InternalPtr> {
    match c {
        CellView::Tuple(v) => v,
        CellView::Data(v) => v,
        CellView::Adt(_, v) => v,
        CellView::Cons(h, t) => seq![h, t],
        CellView::ListSlice { elements, .. } => seq![elements],
        CellView::Dict(e) => e.map_values(|x: (Seq<char>, InternalPtr)| x.1),
        CellView::Closure { env, .. } => env.map_values(|x: (Seq<char>, InternalPtr)| x.1),
        CellView::Native { applied, .. } => applied,
        CellView::Overloaded { applied, .. } => applied,
        _ => Seq::empty(),
    }
}

pub open spec fn rekey(e: Seq<(Seq<char>, InternalPtr)>, s: Seq<InternalPtr>) -> Seq<
    (Seq<char>, InternalPtr),
> {
    Seq::new(e.len(), |i: int| (e[i].0, s[i]))
}

/// `c` with its pointers replaced, in trace order, by those of `s`.
pub open spec fn with_children(c: CellView, s: Seq<InternalPtr>) -> CellView {
    match c {
        CellView::Tuple(_) => CellView::Tuple(s),
        CellView::Data(_) => CellView::Data(s),
        CellView::Adt(n, _) => CellView::Adt(n, s),
        CellView::Cons(_, _) => CellView::Cons(s[0], s[1]),
        CellView::ListSlice { start, end, .. } => CellView::ListSlice { start, end, elements: s[0] },
        CellView::Dict(e) => CellView::Dict(rekey(e, s)),
        CellView::Closure { env, frame_sizes, param, code } => CellView::Closure {
            env: rekey(env, s),
            frame_sizes,
            param,
            code,
        },
        CellView::Native { native_id, name, arity, typ, applied_types, .. } => CellView::Native {
            native_id,
            name,
            arity,
            typ,
            applied: s,
            applied_types,
        },
        CellView::Overloaded { name, typ, applied_types, .. } => CellView::Overloaded {
            name,
            typ,
            applied: s,
            applied_types,
        },
        _ => c,
    }
}

/// `c` with every pointer `p` replaced by `f[p]`.
pub open spec fn map_cell(c: CellView, f: Map<InternalPtr, InternalPtr>) -> CellView {
    with_children(c, children(c).map_values(|p: InternalPtr| f[p]))
}

/// The runtime kind name of a cell.
pub open spec fn type_name_of(c: CellView) -> &'static str {
    match c {
        CellView::Bool(..) => "bool",
        CellView::U8(..) => "u8",
        CellView::U16(..) => "u16",
        CellView::U32(..) => "u32",
        CellView::U64(..) => "u64",
        CellView::I8(..) => "i8",
        CellView::I16(..) => "i16",
        CellView::I32(..) => "i32",
        CellView::I64(..) => "i64",
        CellView::F32(..) => "f32",
        CellView::F64(..) => "f64",
        CellView::String(..) => "string",
        CellView::Uuid(..) => "uuid",
        CellView::Hash(..) => "hash",
        CellView::DateTime(..) => "datetime",
        CellView::Tuple(..) => "tuple",
        CellView::Empty => "list",
        CellView::Cons(..) => "list",
        CellView::ListSlice { .. } => "list",
        CellView::Data(..) => "data",
        CellView::BinaryData(..) => "binary_data",
        CellView::Dict(..) => "dict",
        CellView::Adt(..) => "adt",
        CellView::Uninitialized(..) => "uninitialized",
        CellView::Closure { .. } => "closure",
        CellView::Native { .. } => "native",
        CellView::Overloaded { .. } => "overloaded",
    }
}

pub proof fn lemma_children_len_of_with(c: CellView, s: Seq<InternalPtr>)
    requires
        s.len() == children(c).len(),
    ensures
        children(with_children(c, s)) == s,
{
    match c {
        CellView::Cons(_, _) => {
            assert(seq![s[0], s[1]] =~= s);
        },
        CellView::ListSlice { .. } => {
            assert(seq![s[0]] =~= s);
        },
        CellView::Dict(e) => {
            assert(rekey(e, s).map_values(|x: (Seq<char>, InternalPtr)| x.1) =~= s);
        },
        CellView::Closure { env, .. } => {
            assert(rekey(env, s).map_values(|x: (Seq<char>, InternalPtr)| x.1) =~= s);
        },
        _ => {
            assert(s =~= children(with_children(c, s)));
        },
    }
}

pub proof fn lemma_with_twice(c: CellView, s1: Seq<InternalPtr>, s2: Seq<InternalPtr>)
    requires
        s1.len() == children(c).len(),
        s2.len() == children(c).len(),
    ensures
        with_children(with_children(c, s1), s2) == with_children(c, s2),
{
    match c {
        CellView::Dict(e) => {
            assert(rekey(rekey(e, s1), s2) =~= rekey(e, s2));
        },
        CellView::Closure { env, .. } => {
            assert(rekey(rekey(env, s1), s2) =~= rekey(env, s2));
        },
        _ => {},
    }
}

/// Sending a cell's pointers through `f` and then through `g` is sending
/// them through the composition.
pub proof fn lemma_map_cell_compose(
    c: CellView,
    f: Map<InternalPtr, InternalPtr>,
    g: Map<InternalPtr, InternalPtr>,
    h: Map<InternalPtr, InternalPtr>,
)
    requires
        forall|k: int| 0 <= k < children(c).len() ==> f.contains_key(#[trigger] children(c)[k])
            && h.contains_key(children(c)[k]) && h[children(c)[k]] == g[f[children(c)[k]]],
    ensures
        map_cell(map_cell(c, f), g) == map_cell(c, h),
{
    let cf = children(c).map_values(|p: InternalPtr| f[p]);
    lemma_children_len_of_with(c, cf);
    let cg = cf.map_values(|p: InternalPtr| g[p]);
    lemma_with_twice(c, cf, cg);
    assert(cg =~= children(c).map_values(|p: InternalPtr| h[p]));
}

pub proof fn lemma_with_own_children(c: CellView)
    ensures
        with_children(c, children(c)) == c,
{
    match c {
        CellView::Dict(e) => {
            assert(rekey(e, children(c)) =~= e);
        },
        CellView::Closure { env, .. } => {
            assert(rekey(env, children(c)) =~= env);
        },
        _ => {},
    }
}

/// A copy of a sequence of pointers.
pub fn copy_ptrs(v: &Vec<InternalPtr>) -> (res: Vec<InternalPtr>)
    ensures
        res@ == v@,
{
    let mut res: Vec<InternalPtr> = Vec::new();
    let mut i: usize = 0;
    while i < v.len()
        invariant
            0 <= i <= v.len(),
            res@ == v@.take(i as int),
        decreases v.len() - i,
    {
        res.push(v[i]);
        i += 1;
        assert(res@ =~= v@.take(i as int));
    }
    assert(v@.take(v.len() as int) =~= v@);
    res
}

fn copy_bytes(v: &Vec<u8>) -> (res: Vec<u8>)
    ensures
        res@ == v@,
{
    let mut res: Vec<u8> = Vec::new();
    let mut i: usize = 0;
    while i < v.len()
        invariant
            0 <= i <= v.len(),
            res@ == v@.take(i as int),
        decreases v.len() - i,
    {
        res.push(v[i]);
        i += 1;
        assert(res@ =~= v@.take(i as int));
    }
    assert(v@.take(v.len() as int) =~= v@);
    res
}

fn copy_u64s(v: &Vec<u64>) -> (res: Vec<u64>)
    ensures
        res@ == v@,
{
    let mut res: Vec<u64> = Vec::new();
    let mut i: usize = 0;
    while i < v.len()
        invariant
            0 <= i <= v.len(),
            res@ == v@.take(i as int),
        decreases v.len() - i,
    {
        res.push(v[i]);
        i += 1;
        assert(res@ =~= v@.take(i as int));
    }
    assert(v@.take(v.len() as int) =~= v@);
    res
}

fn copy_usizes(v: &Vec<usize>) -> (res: Vec<usize>)
    ensures
        res@ == v@,
{
    let mut res: Vec<usize> = Vec::new();
    let mut i: usize = 0;
    while i < v.len()
        invariant
            0 <= i <= v.len(),
            res@ == v@.take(i as int),
        decreases v.len() - i,
    {
        res.push(v[i]);
        i += 1;
        assert(res@ =~= v@.take(i as int));
    }
    assert(v@.take(v.len() as int) =~= v@);
    res
}

/// Dictionary entries with the same keys and the given values.
fn rekey_dict(e: &Vec<DictEntry>, s: &Vec<InternalPtr>) -> (res: Vec<DictEntry>)
    requires
        s@.len() == e@.len(),
    ensures
        dict_view(res@) == rekey(dict_view(e@), s@),
{
    let mut res: Vec<DictEntry> = Vec::new();
    let mut i: usize = 0;
    while i < e.len()
        invariant
            0 <= i <= e.len(),
            s@.len() == e@.len(),
            res@.len() == i,
            forall|k: int| 0 <= k < i ==> (#[trigger] res@[k]).key@ == e@[k].key@ && res@[k].value == s@[k],
        decreases e.len() - i,
    {
        res.push(DictEntry { key: e[i].key.clone(), value: s[i] });
        i += 1;
    }
    assert(dict_view(res@) =~= rekey(dict_view(e@), s@));
    res
}

fn rekey_env(e: &Vec<EnvBinding>, s: &Vec<InternalPtr>) -> (res: Vec<EnvBinding>)
    requires
        s@.len() == e@.len(),
    ensures
        env_view(res@) == rekey(env_view(e@), s@),
{
    let mut res: Vec<EnvBinding> = Vec::new();
    let mut i: usize = 0;
    while i < e.len()
        invariant
            0 <= i <= e.len(),
            s@.len() == e@.len(),
            res@.len() == i,
            forall|k: int| 0 <= k < i ==> (#[trigger] res@[k]).name@ == e@[k].name@ && res@[k].value == s@[k],
        decreases e.len() - i,
    {
        res.push(EnvBinding { name: e[i].name.clone(), value: s[i] });
        i += 1;
    }
    assert(env_view(res@) =~= rekey(env_view(e@), s@));
    res
}

fn dict_values(e: &Vec<DictEntry>) -> (res: Vec<InternalPtr>)
    ensures
        res@ == dict_view(e@).map_values(|x: (Seq<char>, InternalPtr)| x.1),
{
    let mut res: Vec<InternalPtr> = Vec::new();
    let mut i: usize = 0;
    while i < e.len()
        invariant
            0 <= i <= e.len(),
            res@.len() == i,
            forall|k: int| 0 <= k < i ==> #[trigger] res@[k] == e@[k].value,
        decreases e.len() - i,
    {
        res.push(e[i].value);
        i += 1;
    }
    assert(res@ =~= dict_view(e@).map_values(|x: (Seq<char>, InternalPtr)| x.1));
    res
}

fn env_values(e: &Vec<EnvBinding>) -> (res: Vec<InternalPtr>)
    ensures
        res@ == env_view(e@).map_values(|x: (Seq<char>, InternalPtr)| x.1),
{
    let mut res: Vec<InternalPtr> = Vec::new();
    let mut i: usize = 0;
    while i < e.len()
        invariant
            0 <= i <= e.len(),
            res@.len() == i,
            forall|k: int| 0 <= k < i ==> #[trigger] res@[k] == e@[k].value,
        decreases e.len() - i,
    {
        res.push(e[i].value);
        i += 1;
    }
    assert(res@ =~= env_view(e@).map_values(|x: (Seq<char>, InternalPtr)| x.1));
    res
}

impl Cell {
    /// An independent copy of this cell.
    pub fn copy(&self) -> (res: Cell)
        ensures
            res@ == self@,
    {
        match self {
            Cell::Bool(v) => Cell::Bool(*v),
            Cell::U8(v) => Cell::U8(*v),
            Cell::U16(v) => Cell::U16(*v),
            Cell::U32(v) => Cell::U32(*v),
            Cell::U64(v) => Cell::U64(*v),
            Cell::I8(v) => Cell::I8(*v),
            Cell::I16(v) => Cell::I16(*v),
            Cell::I32(v) => Cell::I32(*v),
            Cell::I64(v) => Cell::I64(*v),
            Cell::F32(v) => Cell::F32(*v),
            Cell::F64(v) => Cell::F64(*v),
            Cell::String(s) => Cell::String(s.clone()),
            Cell::Uuid(v) => Cell::Uuid(*v),
            Cell::Hash(h) => {
                let c = *h;
                Cell::Hash(c)
            },
            Cell::DateTime(s, n) => Cell::DateTime(*s, *n),
            Cell::Tuple(v) => Cell::Tuple(copy_ptrs(v)),
            Cell::Empty => Cell::Empty,
            Cell::Cons(h, t) => Cell::Cons(*h, *t),
            Cell::ListSlice { start, end, elements } => Cell::ListSlice {
                start: *start,
                end: *end,
                elements: *elements,
            },
            Cell::Data(v) => Cell::Data(copy_ptrs(v)),
            Cell::BinaryData(v) => Cell::BinaryData(copy_bytes(v)),
            Cell::Dict(e) => {
                let vals = dict_values(e);
                let res = rekey_dict(e, &vals);
                proof {
                    lemma_with_own_children(self@);
                }
                Cell::Dict(res)
            },
            Cell::Adt(n, v) => Cell::Adt(n.clone(), copy_ptrs(v)),
            Cell::Uninitialized(n) => Cell::Uninitialized(n.clone()),
            Cell::Closure(c) => {
                let vals = env_values(&c.env);
                let env = rekey_env(&c.env, &vals);
                proof {
                    lemma_with_own_children(self@);
                }
                Cell::Closure(
                    Closure {
                        env,
                        frame_sizes: copy_usizes(&c.frame_sizes),
                        param: c.param.clone(),
                        code: c.code,
                    },
                )
            },
            Cell::Native(n) => Cell::Native(
                NativeFn {
                    native_id: n.native_id,
                    name: n.name.clone(),
                    arity: n.arity,
                    typ: n.typ,
                    applied: copy_ptrs(&n.applied),
                    applied_types: copy_u64s(&n.applied_types),
                },
            ),
            Cell::Overloaded(o) => Cell::Overloaded(
                OverloadedFn {
                    name: o.name.clone(),
                    typ: o.typ,
                    applied: copy_ptrs(&o.applied),
                    applied_types: copy_u64s(&o.applied_types),
                },
            ),
        }
    }

    /// The pointers this cell holds, in trace order.
    pub fn trace_pointers(&self) -> (res: Vec<InternalPtr>)
        ensures
            res@ == children(self@),
    {
        match self {
            Cell::Tuple(v) => copy_ptrs(v),
            Cell::Data(v) => copy_ptrs(v),
            Cell::Adt(_, v) => copy_ptrs(v),
            Cell::Cons(h, t) => {
                let mut r = Vec::new();
                r.push(*h);
                r.push(*t);
                assert(r@ =~= seq![*h, *t]);
                r
            },
            Cell::ListSlice { elements, .. } => {
                let mut r = Vec::new();
                r.push(*elements);
                assert(r@ =~= seq![*elements]);
                r
            },
            Cell::Dict(e) => dict_values(e),
            Cell::Closure(c) => env_values(&c.env),
            Cell::Native(n) => copy_ptrs(&n.applied),
            Cell::Overloaded(o) => copy_ptrs(&o.applied),
            _ => Vec::new(),
        }
    }

    /// This cell with its pointers replaced, in trace order, by `s`.
    pub fn with_children(self, s: Vec<InternalPtr>) -> (res: Cell)
        requires
            s@.len() == children(self@).len(),
        ensures
            res@ == with_children(self@, s@),
    {
        match self {
            Cell::Tuple(_) => Cell::Tuple(s),
            Cell::Data(_) => Cell::Data(s),
            Cell::Adt(n, _) => Cell::Adt(n, s),
            Cell::Cons(_, _) => Cell::Cons(s[0], s[1]),
            Cell::ListSlice { start, end, .. } => Cell::ListSlice { start, end, elements: s[0] },
            Cell::Dict(e) => Cell::Dict(rekey_dict(&e, &s)),
            Cell::Closure(c) => Cell::Closure(
                Closure {
                    env: rekey_env(&c.env, &s),
                    frame_sizes: c.frame_sizes,
                    param: c.param,
                    code: c.code,
                },
            ),
            Cell::Native(n) => Cell::Native(
                NativeFn {
                    native_id: n.native_id,
                    name: n.name,
                    arity: n.arity,
                    typ: n.typ,
                    applied: s,
                    applied_types: n.applied_types,
                },
            ),
            Cell::Overloaded(o) => Cell::Overloaded(
                OverloadedFn { name: o.name, typ: o.typ, applied: s, applied_types: o.applied_types },
            ),
            other => other,
        }
    }

    /// This cell with each pointer it holds sent through `map`, in trace
    /// order, stopping at the first failure.
    pub fn map_pointers<E, F: Fn(InternalPtr) -> Result<InternalPtr, E>>(self, map: &F) -> (res: Result<Cell, E>)
        requires
            forall|p: InternalPtr| #[trigger] map.requires((p,)),
        ensures
            match res {
                Ok(c) => exists|w: Seq<InternalPtr>| #[trigger] all_sent(*map, children(self@), w) && c@ == with_children(self@, w),
                Err(e) => any_failed(*map, children(self@), e),
            },
    {
        let ptrs = self.trace_pointers();
        match map_each(ptrs, map) {
            Ok(w) => {
                proof {
                    assert(all_sent(*map, children(self@), w@));
                }
                Ok(self.with_children(w))
            },
            Err(e) => Err(e),
        }
    }

    /// The runtime kind name of this cell.
    pub fn cell_type_name(&self) -> (name: &'static str)
        ensures
            name == type_name_of(self@),
    {
        match self {
            Cell::Bool(..) => "bool",
            Cell::U8(..) => "u8",
            Cell::U16(..) => "u16",
            Cell::U32(..) => "u32",
            Cell::U64(..) => "u64",
            Cell::I8(..) => "i8",
            Cell::I16(..) => "i16",
            Cell::I32(..) => "i32",
            Cell::I64(..) => "i64",
            Cell::F32(..) => "f32",
            Cell::F64(..) => "f64",
            Cell::String(..) => "string",
            Cell::Uuid(..) => "uuid",
            Cell::Hash(..) => "hash",
            Cell::DateTime(..) => "datetime",
            Cell::Tuple(..) => "tuple",
            Cell::Empty => "list",
            Cell::Cons(..) => "list",
            Cell::ListSlice { .. } => "list",
            Cell::Data(..) => "data",
            Cell::BinaryData(..) => "binary_data",
            Cell::Dict(..) => "dict",
            Cell::Adt(..) => "adt",
            Cell::Uninitialized(..) => "uninitialized",
            Cell::Closure(..) => "closure",
            Cell::Native(..) => "native",
            Cell::Overloaded(..) => "overloaded",
        }
    }

    /// The `Bool` payload of this cell.
    pub fn cell_as_bool(&self) -> (res: Result<bool, EngineError>)
        ensures
            match self@ {
                CellView::Bool(v) => res matches Ok(x) && x == v,
                other => res matches Err(EngineError::NativeType { expected, got }) && expected == "bool"
                    && got == type_name_of(other),
            },
    {
        match self {
            Cell::Bool(v) => Ok(*v),
            _ => Err(self.cell_type_error("bool")),
        }
    }

    /// The `U8` payload of this cell.
    pub fn cell_as_u8(&self) -> (res: Result<u8, EngineError>)
        ensures
            match self@ {
                CellView::U8(v) => res matches Ok(x) && x == v,
                other => res matches Err(EngineError::NativeType { expected, got }) && expected == "u8"
                    && got == type_name_of(other),
            },
    {
        match self {
            Cell::U8(v) => Ok(*v),
            _ => Err(self.cell_type_error("u8")),
        }
    }

    /// The `U16` payload of this cell.
    pub fn cell_as_u16(&self) -> (res: Result<u16, EngineError>)
        ensures
            match self@ {
                CellView::U16(v) => res matches Ok(x) && x == v,
                other => res matches Err(EngineError::NativeType { expected, got }) && expected == "u16"
                    && got == type_name_of(other),
            },
    {
        match self {
            Cell::U16(v) => Ok(*v),
            _ => Err(self.cell_type_error("u16")),
        }
    }

    /// The `U32` payload of this cell.
    pub fn cell_as_u32(&self) -> (res: Result<u32, EngineError>)
        ensures
            match self@ {
                CellView::U32(v) => res matches Ok(x) && x == v,
                other => res matches Err(EngineError::NativeType { expected, got }) && expected == "u32"
                    && got == type_name_of(other),
            },
    {
        match self {
            Cell::U32(v) => Ok(*v),
            _ => Err(self.cell_type_error("u32")),
        }
    }

    /// The `U64` payload of this cell.
    pub fn cell_as_u64(&self) -> (res: Result<u64, EngineError>)
        ensures
            match self@ {
                CellView::U64(v) => res matches Ok(x) && x == v,
                other => res matches Err(EngineError::NativeType { expected, got }) && expected == "u64"
                    && got == type_name_of(other),
            },
    {
        match self {
            Cell::U64(v) => Ok(*v),
            _ => Err(self.cell_type_error("u64")),
        }
    }

    /// The `I8` payload of this cell.
    pub fn cell_as_i8(&self) -> (res: Result<i8, EngineError>)
        ensures
            match self@ {
                CellView::I8(v) => res matches Ok(x) && x == v,
                other => res matches Err(EngineError::NativeType { expected, got }) && expected == "i8"
                    && got == type_name_of(other),
            },
    {
        match self {
            Cell::I8(v) => Ok(*v),
            _ => Err(self.cell_type_error("i8")),
        }
    }

    /// The `I16` payload of this cell.
    pub fn cell_as_i16(&self) -> (res: Result<i16, EngineError>)
        ensures
            match self@ {
                CellView::I16(v) => res matches Ok(x) && x == v,
                other => res matches Err(EngineError::NativeType { expected, got }) && expected == "i16"
                    && got == type_name_of(other),
            },
    {
        match self {
            Cell::I16(v) => Ok(*v),
            _ => Err(self.cell_type_error("i16")),
        }
    }

    /// The `I32` payload of this cell.
    pub fn cell_as_i32(&self) -> (res: Result<i32, EngineError>)
        ensures
            match self@ {
                CellView::I32(v) => res matches Ok(x) && x == v,
                other => res matches Err(EngineError::NativeType { expected, got }) && expected == "i32"
                    && got == type_name_of(other),
            },
    {
        match self {
            Cell::I32(v) => Ok(*v),
            _ => Err(self.cell_type_error("i32")),
        }
    }

    /// The `I64` payload of this cell.
    pub fn cell_as_i64(&self) -> (res: Result<i64, EngineError>)
        ensures
            match self@ {
                CellView::I64(v) => res matches Ok(x) && x == v,
                other => res matches Err(EngineError::NativeType { expected, got }) && expected == "i64"
                    && got == type_name_of(other),
            },
    {
        match self {
            Cell::I64(v) => Ok(*v),
            _ => Err(self.cell_type_error("i64")),
        }
    }

    /// The `F32` payload of this cell.
    pub fn cell_as_f32_bits(&self) -> (res: Result<u32, EngineError>)
        ensures
            match self@ {
                CellView::F32(v) => res matches Ok(x) && x == v,
                other => res matches Err(EngineError::NativeType { expected, got }) && expected == "f32"
                    && got == type_name_of(other),
            },
    {
        match self {
            Cell::F32(v) => Ok(*v),
            _ => Err(self.cell_type_error("f32")),
        }
    }

    /// The `F64` payload of this cell.
    pub fn cell_as_f64_bits(&self) -> (res: Result<u64, EngineError>)
        ensures
            match self@ {
                CellView::F64(v) => res matches Ok(x) && x == v,
                other => res matches Err(EngineError::NativeType { expected, got }) && expected == "f64"
                    && got == type_name_of(other),
            },
    {
        match self {
            Cell::F64(v) => Ok(*v),
            _ => Err(self.cell_type_error("f64")),
        }
    }

    /// The `Uuid` payload of this cell.
    pub fn cell_as_uuid(&self) -> (res: Result<u128, EngineError>)
        ensures
            match self@ {
                CellView::Uuid(v) => res matches Ok(x) && x == v,
                other => res matches Err(EngineError::NativeType { expected, got }) && expected == "uuid"
                    && got == type_name_of(other),
            },
    {
        match self {
            Cell::Uuid(v) => Ok(*v),
            _ => Err(self.cell_type_error("uuid")),
        }
    }

    /// The text of a `String` cell.
    pub fn cell_as_string(&self) -> (res: Result<String, EngineError>)
        ensures
            match self@ {
                CellView::String(v) => res matches Ok(x) && x@ == v,
                other => res matches Err(EngineError::NativeType { expected, got }) && expected == "string"
                    && got == type_name_of(other),
            },
    {
        match self {
            Cell::String(v) => Ok(v.clone()),
            _ => Err(self.cell_type_error("string")),
        }
    }

    /// The bytes of a `Hash` cell.
    pub fn cell_as_hash(&self) -> (res: Result<[u8; 32], EngineError>)
        ensures
            match self@ {
                CellView::Hash(v) => res matches Ok(x) && x@ == v,
                other => res matches Err(EngineError::NativeType { expected, got }) && expected == "hash"
                    && got == type_name_of(other),
            },
    {
        match self {
            Cell::Hash(v) => Ok(*v),
            _ => Err(self.cell_type_error("hash")),
        }
    }

    /// The seconds and nanoseconds of a `DateTime` cell.
    pub fn cell_as_datetime(&self) -> (res: Result<(i64, u32), EngineError>)
        ensures
            match self@ {
                CellView::DateTime(secs, nanos) => res matches Ok(x) && x == (secs, nanos),
                other => res matches Err(EngineError::NativeType { expected, got }) && expected == "datetime"
                    && got == type_name_of(other),
            },
    {
        match self {
            Cell::DateTime(secs, nanos) => Ok((*secs, *nanos)),
            _ => Err(self.cell_type_error("datetime")),
        }
    }

    /// The elements of a `Tuple` cell.
    pub fn cell_as_tuple(&self) -> (res: Result<Vec<InternalPtr>, EngineError>)
        ensures
            match self@ {
                CellView::Tuple(v) => res matches Ok(x) && x@ == v,
                other => res matches Err(EngineError::NativeType { expected, got }) && expected == "tuple"
                    && got == type_name_of(other),
            },
    {
        match self {
            Cell::Tuple(v) => Ok(copy_ptrs(v)),
            _ => Err(self.cell_type_error("tuple")),
        }
    }

    /// The elements of a `Data` cell.
    pub fn cell_as_data(&self) -> (res: Result<Vec<InternalPtr>, EngineError>)
        ensures
            match self@ {
                CellView::Data(v) => res matches Ok(x) && x@ == v,
                other => res matches Err(EngineError::NativeType { expected, got }) && expected == "data"
                    && got == type_name_of(other),
            },
    {
        match self {
            Cell::Data(v) => Ok(copy_ptrs(v)),
            _ => Err(self.cell_type_error("data")),
        }
    }

    /// The fields of a `Dict` cell, in key order.
    pub fn cell_as_dict(&self) -> (res: Result<Vec<DictEntry>, EngineError>)
        ensures
            match self@ {
                CellView::Dict(v) => res matches Ok(x) && dict_view(x@) == v,
                other => res matches Err(EngineError::NativeType { expected, got }) && expected == "dict"
                    && got == type_name_of(other),
            },
    {
        match self {
            Cell::Dict(e) => {
                let vals = dict_values(e);
                let res = rekey_dict(e, &vals);
                proof {
                    lemma_with_own_children(self@);
                }
                Ok(res)
            },
            _ => Err(self.cell_type_error("dict")),
        }
    }

    /// The constructor name and fields of an `Adt` cell.
    pub fn cell_as_adt(&self) -> (res: Result<(String, Vec<InternalPtr>), EngineError>)
        ensures
            match self@ {
                CellView::Adt(n, v) => res matches Ok(x) && x.0@ == n && x.1@ == v,
                other => res matches Err(EngineError::NativeType { expected, got }) && expected == "adt"
                    && got == type_name_of(other),
            },
    {
        match self {
            Cell::Adt(n, v) => Ok((n.clone(), copy_ptrs(v))),
            _ => Err(self.cell_type_error("adt")),
        }
    }

    /// The error for reading this cell as `expected`.
    pub fn cell_type_error(&self, expected: &'static str) -> (e: EngineError)
        ensures
            e == (EngineError::NativeType { expected, got: type_name_of(self@) }),
    {
        EngineError::NativeType { expected, got: self.cell_type_name() }
    }
}

} // verus!
