//! The evaluator's view of the heap: allocation that roots its result, and
//! typed reads through runtime-root tokens.

use vstd::prelude::*;

use crate::cell::{
    children, dict_view, env_view, type_name_of, Cell, CellView, Closure, DictEntry, EnvBinding,
    InternalPtr, NativeFn, OverloadedFn, RootedPtr, copy_ptrs,
};
use crate::dicts::{dict_insert_field, dict_of, fields_view, lemma_insert_entries};
use crate::error::EngineError;
use crate::heap::{
    all_live, rooted_all, rooted_alloc, targets, Heap,
};

verus! {

/// The objects that the tokens of `rs` stand for, read from the heap.
fn resolve_all(h: &Heap, rs: &Vec<RootedPtr>) -> (ps: Vec<InternalPtr>)
    requires
        h.wf(),
        all_live(*h, rs@),
    ensures
        ps@ == targets(*h, rs@),
        forall|k: int| 0 <= k < ps@.len() ==> h.valid_ptr(#[trigger] ps@[k]),
{
    let mut ps: Vec<InternalPtr> = Vec::new();
    let mut k: usize = 0;
    while k < rs.len()
        invariant
            0 <= k <= rs@.len(),
            h.wf(),
            all_live(*h, rs@),
            ps@.len() == k,
            forall|j: int| 0 <= j < k ==> #[trigger] ps@[j] == h.root_target(rs@[j]),
        decreases rs@.len() - k,
    {
        proof {
            assert(h.live_root(rs@[k as int]));
        }
        ps.push(h.resolve_runtime_root(rs[k]));
        k += 1;
    }
    proof {
        assert forall|j: int| 0 <= j < ps@.len() implies h.valid_ptr(#[trigger] ps@[j]) by {
            assert(h.live_root(rs@[j]));
            assert(h.root_pointer(rs@[j].slot as int) is Some);
        }
    }
    assert(ps@ =~= targets(*h, rs@));
    ps
}

impl Heap {
    /// Allocates a `Bool` object and roots it.
    pub fn alloc_root_bool(&mut self, value: bool) -> (res: Result<RootedPtr, EngineError>)
        requires
            old(self).wf(),
        ensures
            final(self).wf(),
            rooted_alloc(*old(self), *final(self), CellView::Bool(value), res),
    {
        self.alloc_root(Cell::Bool(value))
    }

    /// Reads a rooted `Bool` object.
    pub fn root_as_bool(&self, root: RootedPtr) -> (res: Result<bool, EngineError>)
        requires
            self.wf(),
            self.live_root(root),
        ensures
            match self.cell_at(self.root_target(root)) {
                CellView::Bool(v) => res matches Ok(x) && x == v,
                other => res matches Err(EngineError::NativeType { expected, got }) && expected == "bool"
                    && got == type_name_of(other),
            },
    {
        match self.get_cell_from_rooted_ptr(root) {
            Ok(c) => c.cell_as_bool(),
            Err(e) => Err(e),
        }
    }

    /// Allocates a `U8` object and roots it.
    pub fn alloc_root_u8(&mut self, value: u8) -> (res: Result<RootedPtr, EngineError>)
        requires
            old(self).wf(),
        ensures
            final(self).wf(),
            rooted_alloc(*old(self), *final(self), CellView::U8(value), res),
    {
        self.alloc_root(Cell::U8(value))
    }

    /// Reads a rooted `U8` object.
    pub fn root_as_u8(&self, root: RootedPtr) -> (res: Result<u8, EngineError>)
        requires
            self.wf(),
            self.live_root(root),
        ensures
            match self.cell_at(self.root_target(root)) {
                CellView::U8(v) => res matches Ok(x) && x == v,
                other => res matches Err(EngineError::NativeType { expected, got }) && expected == "u8"
                    && got == type_name_of(other),
            },
    {
        match self.get_cell_from_rooted_ptr(root) {
            Ok(c) => c.cell_as_u8(),
            Err(e) => Err(e),
        }
    }

    /// Allocates a `U16` object and roots it.
    pub fn alloc_root_u16(&mut self, value: u16) -> (res: Result<RootedPtr, EngineError>)
        requires
            old(self).wf(),
        ensures
            final(self).wf(),
            rooted_alloc(*old(self), *final(self), CellView::U16(value), res),
    {
        self.alloc_root(Cell::U16(value))
    }

    /// Reads a rooted `U16` object.
    pub fn root_as_u16(&self, root: RootedPtr) -> (res: Result<u16, EngineError>)
        requires
            self.wf(),
            self.live_root(root),
        ensures
            match self.cell_at(self.root_target(root)) {
                CellView::U16(v) => res matches Ok(x) && x == v,
                other => res matches Err(EngineError::NativeType { expected, got }) && expected == "u16"
                    && got == type_name_of(other),
            },
    {
        match self.get_cell_from_rooted_ptr(root) {
            Ok(c) => c.cell_as_u16(),
            Err(e) => Err(e),
        }
    }

    /// Allocates a `U32` object and roots it.
    pub fn alloc_root_u32(&mut self, value: u32) -> (res: Result<RootedPtr, EngineError>)
        requires
            old(self).wf(),
        ensures
            final(self).wf(),
            rooted_alloc(*old(self), *final(self), CellView::U32(value), res),
    {
        self.alloc_root(Cell::U32(value))
    }

    /// Reads a rooted `U32` object.
    pub fn root_as_u32(&self, root: RootedPtr) -> (res: Result<u32, EngineError>)
        requires
            self.wf(),
            self.live_root(root),
        ensures
            match self.cell_at(self.root_target(root)) {
                CellView::U32(v) => res matches Ok(x) && x == v,
                other => res matches Err(EngineError::NativeType { expected, got }) && expected == "u32"
                    && got == type_name_of(other),
            },
    {
        match self.get_cell_from_rooted_ptr(root) {
            Ok(c) => c.cell_as_u32(),
            Err(e) => Err(e),
        }
    }

    /// Allocates a `U64` object and roots it.
    pub fn alloc_root_u64(&mut self, value: u64) -> (res: Result<RootedPtr, EngineError>)
        requires
            old(self).wf(),
        ensures
            final(self).wf(),
            rooted_alloc(*old(self), *final(self), CellView::U64(value), res),
    {
        self.alloc_root(Cell::U64(value))
    }

    /// Reads a rooted `U64` object.
    pub fn root_as_u64(&self, root: RootedPtr) -> (res: Result<u64, EngineError>)
        requires
            self.wf(),
            self.live_root(root),
        ensures
            match self.cell_at(self.root_target(root)) {
                CellView::U64(v) => res matches Ok(x) && x == v,
                other => res matches Err(EngineError::NativeType { expected, got }) && expected == "u64"
                    && got == type_name_of(other),
            },
    {
        match self.get_cell_from_rooted_ptr(root) {
            Ok(c) => c.cell_as_u64(),
            Err(e) => Err(e),
        }
    }

    /// Allocates a `I8` object and roots it.
    pub fn alloc_root_i8(&mut self, value: i8) -> (res: Result<RootedPtr, EngineError>)
        requires
            old(self).wf(),
        ensures
            final(self).wf(),
            rooted_alloc(*old(self), *final(self), CellView::I8(value), res),
    {
        self.alloc_root(Cell::I8(value))
    }

    /// Reads a rooted `I8` object.
    pub fn root_as_i8(&self, root: RootedPtr) -> (res: Result<i8, EngineError>)
        requires
            self.wf(),
            self.live_root(root),
        ensures
            match self.cell_at(self.root_target(root)) {
                CellView::I8(v) => res matches Ok(x) && x == v,
                other => res matches Err(EngineError::NativeType { expected, got }) && expected == "i8"
                    && got == type_name_of(other),
            },
    {
        match self.get_cell_from_rooted_ptr(root) {
            Ok(c) => c.cell_as_i8(),
            Err(e) => Err(e),
        }
    }

    /// Allocates a `I16` object and roots it.
    pub fn alloc_root_i16(&mut self, value: i16) -> (res: Result<RootedPtr, EngineError>)
        requires
            old(self).wf(),
        ensures
            final(self).wf(),
            rooted_alloc(*old(self), *final(self), CellView::I16(value), res),
    {
        self.alloc_root(Cell::I16(value))
    }

    /// Reads a rooted `I16` object.
    pub fn root_as_i16(&self, root: RootedPtr) -> (res: Result<i16, EngineError>)
        requires
            self.wf(),
            self.live_root(root),
        ensures
            match self.cell_at(self.root_target(root)) {
                CellView::I16(v) => res matches Ok(x) && x == v,
                other => res matches Err(EngineError::NativeType { expected, got }) && expected == "i16"
                    && got == type_name_of(other),
            },
    {
        match self.get_cell_from_rooted_ptr(root) {
            Ok(c) => c.cell_as_i16(),
            Err(e) => Err(e),
        }
    }

    /// Allocates a `I32` object and roots it.
    pub fn alloc_root_i32(&mut self, value: i32) -> (res: Result<RootedPtr, EngineError>)
        requires
            old(self).wf(),
        ensures
            final(self).wf(),
            rooted_alloc(*old(self), *final(self), CellView::I32(value), res),
    {
        self.alloc_root(Cell::I32(value))
    }

    /// Reads a rooted `I32` object.
    pub fn root_as_i32(&self, root: RootedPtr) -> (res: Result<i32, EngineError>)
        requires
            self.wf(),
            self.live_root(root),
        ensures
            match self.cell_at(self.root_target(root)) {
                CellView::I32(v) => res matches Ok(x) && x == v,
                other => res matches Err(EngineError::NativeType { expected, got }) && expected == "i32"
                    && got == type_name_of(other),
            },
    {
        match self.get_cell_from_rooted_ptr(root) {
            Ok(c) => c.cell_as_i32(),
            Err(e) => Err(e),
        }
    }

    /// Allocates a `I64` object and roots it.
    pub fn alloc_root_i64(&mut self, value: i64) -> (res: Result<RootedPtr, EngineError>)
        requires
            old(self).wf(),
        ensures
            final(self).wf(),
            rooted_alloc(*old(self), *final(self), CellView::I64(value), res),
    {
        self.alloc_root(Cell::I64(value))
    }

    /// Reads a rooted `I64` object.
    pub fn root_as_i64(&self, root: RootedPtr) -> (res: Result<i64, EngineError>)
        requires
            self.wf(),
            self.live_root(root),
        ensures
            match self.cell_at(self.root_target(root)) {
                CellView::I64(v) => res matches Ok(x) && x == v,
                other => res matches Err(EngineError::NativeType { expected, got }) && expected == "i64"
                    && got == type_name_of(other),
            },
    {
        match self.get_cell_from_rooted_ptr(root) {
            Ok(c) => c.cell_as_i64(),
            Err(e) => Err(e),
        }
    }

    /// Allocates a `F32` object and roots it.
    pub fn alloc_root_f32_bits(&mut self, value: u32) -> (res: Result<RootedPtr, EngineError>)
        requires
            old(self).wf(),
        ensures
            final(self).wf(),
            rooted_alloc(*old(self), *final(self), CellView::F32(value), res),
    {
        self.alloc_root(Cell::F32(value))
    }

    /// Reads a rooted `F32` object.
    pub fn root_as_f32_bits(&self, root: RootedPtr) -> (res: Result<u32, EngineError>)
        requires
            self.wf(),
            self.live_root(root),
        ensures
            match self.cell_at(self.root_target(root)) {
                CellView::F32(v) => res matches Ok(x) && x == v,
                other => res matches Err(EngineError::NativeType { expected, got }) && expected == "f32"
                    && got == type_name_of(other),
            },
    {
        match self.get_cell_from_rooted_ptr(root) {
            Ok(c) => c.cell_as_f32_bits(),
            Err(e) => Err(e),
        }
    }

    /// Allocates a `F64` object and roots it.
    pub fn alloc_root_f64_bits(&mut self, value: u64) -> (res: Result<RootedPtr, EngineError>)
        requires
            old(self).wf(),
        ensures
            final(self).wf(),
            rooted_alloc(*old(self), *final(self), CellView::F64(value), res),
    {
        self.alloc_root(Cell::F64(value))
    }

    /// Reads a rooted `F64` object.
    pub fn root_as_f64_bits(&self, root: RootedPtr) -> (res: Result<u64, EngineError>)
        requires
            self.wf(),
            self.live_root(root),
        ensures
            match self.cell_at(self.root_target(root)) {
                CellView::F64(v) => res matches Ok(x) && x == v,
                other => res matches Err(EngineError::NativeType { expected, got }) && expected == "f64"
                    && got == type_name_of(other),
            },
    {
        match self.get_cell_from_rooted_ptr(root) {
            Ok(c) => c.cell_as_f64_bits(),
            Err(e) => Err(e),
        }
    }

    /// Allocates a `Uuid` object and roots it.
    pub fn alloc_root_uuid(&mut self, value: u128) -> (res: Result<RootedPtr, EngineError>)
        requires
            old(self).wf(),
        ensures
            final(self).wf(),
            rooted_alloc(*old(self), *final(self), CellView::Uuid(value), res),
    {
        self.alloc_root(Cell::Uuid(value))
    }

    /// Reads a rooted `Uuid` object.
    pub fn root_as_uuid(&self, root: RootedPtr) -> (res: Result<u128, EngineError>)
        requires
            self.wf(),
            self.live_root(root),
        ensures
            match self.cell_at(self.root_target(root)) {
                CellView::Uuid(v) => res matches Ok(x) && x == v,
                other => res matches Err(EngineError::NativeType { expected, got }) && expected == "uuid"
                    && got == type_name_of(other),
            },
    {
        match self.get_cell_from_rooted_ptr(root) {
            Ok(c) => c.cell_as_uuid(),
            Err(e) => Err(e),
        }
    }

    /// Allocates a `String` object and roots it.
    pub fn alloc_root_string(&mut self, value: String) -> (res: Result<RootedPtr, EngineError>)
        requires
            old(self).wf(),
        ensures
            final(self).wf(),
            rooted_alloc(*old(self), *final(self), CellView::String(value@), res),
    {
        self.alloc_root(Cell::String(value))
    }

    /// Reads a rooted `String` object.
    pub fn root_as_string(&self, root: RootedPtr) -> (res: Result<String, EngineError>)
        requires
            self.wf(),
            self.live_root(root),
        ensures
            match self.cell_at(self.root_target(root)) {
                CellView::String(v) => res matches Ok(x) && x@ == v,
                other => res matches Err(EngineError::NativeType { expected, got }) && expected == "string"
                    && got == type_name_of(other),
            },
    {
        match self.get_cell_from_rooted_ptr(root) {
            Ok(c) => c.cell_as_string(),
            Err(e) => Err(e),
        }
    }

    /// Allocates a `Hash` object and roots it.
    pub fn alloc_root_hash(&mut self, value: [u8; 32]) -> (res: Result<RootedPtr, EngineError>)
        requires
            old(self).wf(),
        ensures
            final(self).wf(),
            rooted_alloc(*old(self), *final(self), CellView::Hash(value@), res),
    {
        self.alloc_root(Cell::Hash(value))
    }

    /// Reads a rooted `Hash` object.
    pub fn root_as_hash(&self, root: RootedPtr) -> (res: Result<[u8; 32], EngineError>)
        requires
            self.wf(),
            self.live_root(root),
        ensures
            match self.cell_at(self.root_target(root)) {
                CellView::Hash(v) => res matches Ok(x) && x@ == v,
                other => res matches Err(EngineError::NativeType { expected, got }) && expected == "hash"
                    && got == type_name_of(other),
            },
    {
        match self.get_cell_from_rooted_ptr(root) {
            Ok(c) => c.cell_as_hash(),
            Err(e) => Err(e),
        }
    }

    /// Allocates a `DateTime` object (seconds and nanoseconds since the Unix
    /// epoch, UTC) and roots it.
    pub fn alloc_root_datetime(&mut self, secs: i64, nanos: u32) -> (res: Result<RootedPtr, EngineError>)
        requires
            old(self).wf(),
        ensures
            final(self).wf(),
            rooted_alloc(*old(self), *final(self), CellView::DateTime(secs, nanos), res),
    {
        self.alloc_root(Cell::DateTime(secs, nanos))
    }

    /// Reads a rooted `DateTime` object.
    pub fn root_as_datetime(&self, root: RootedPtr) -> (res: Result<(i64, u32), EngineError>)
        requires
            self.wf(),
            self.live_root(root),
        ensures
            match self.cell_at(self.root_target(root)) {
                CellView::DateTime(s, n) => res matches Ok(x) && x == (s, n),
                other => res matches Err(EngineError::NativeType { expected, got }) && expected == "datetime"
                    && got == type_name_of(other),
            },
    {
        match self.get_cell_from_rooted_ptr(root) {
            Ok(c) => c.cell_as_datetime(),
            Err(e) => Err(e),
        }
    }

    /// Allocates a placeholder for a recursive binding and roots it.
    pub fn alloc_root_uninitialized(&mut self, name: String) -> (res: Result<RootedPtr, EngineError>)
        requires
            old(self).wf(),
        ensures
            final(self).wf(),
            rooted_alloc(*old(self), *final(self), CellView::Uninitialized(name@), res),
    {
        self.alloc_root(Cell::Uninitialized(name))
    }

    /// Allocates the empty list and roots it.
    pub fn alloc_root_empty(&mut self) -> (res: Result<RootedPtr, EngineError>)
        requires
            old(self).wf(),
        ensures
            final(self).wf(),
            rooted_alloc(*old(self), *final(self), CellView::Empty, res),
    {
        self.alloc_root(Cell::Empty)
    }

    /// Allocates a tuple of the given values and roots it.
    pub fn alloc_root_tuple(&mut self, values: &Vec<RootedPtr>) -> (res: Result<RootedPtr, EngineError>)
        requires
            old(self).wf(),
            all_live(*old(self), values@),
        ensures
            final(self).wf(),
            rooted_alloc(*old(self), *final(self), CellView::Tuple(targets(*old(self), values@)), res),
    {
        let ps = resolve_all(self, values);
        self.alloc_root(Cell::Tuple(ps))
    }

    /// Allocates list backing data holding the given values and roots it.
    pub fn alloc_root_data(&mut self, values: &Vec<RootedPtr>) -> (res: Result<RootedPtr, EngineError>)
        requires
            old(self).wf(),
            all_live(*old(self), values@),
        ensures
            final(self).wf(),
            rooted_alloc(*old(self), *final(self), CellView::Data(targets(*old(self), values@)), res),
    {
        let ps = resolve_all(self, values);
        self.alloc_root(Cell::Data(ps))
    }

    /// Allocates binary list backing data and roots it.
    pub fn alloc_root_binary_data(&mut self, values: Vec<u8>) -> (res: Result<RootedPtr, EngineError>)
        requires
            old(self).wf(),
        ensures
            final(self).wf(),
            rooted_alloc(*old(self), *final(self), CellView::BinaryData(values@), res),
    {
        self.alloc_root(Cell::BinaryData(values))
    }

    /// Allocates a constructor application and roots it.
    pub fn alloc_root_adt(&mut self, name: String, args: &Vec<RootedPtr>) -> (res: Result<RootedPtr, EngineError>)
        requires
            old(self).wf(),
            all_live(*old(self), args@),
        ensures
            final(self).wf(),
            rooted_alloc(*old(self), *final(self), CellView::Adt(name@, targets(*old(self), args@)), res),
    {
        let ps = resolve_all(self, args);
        self.alloc_root(Cell::Adt(name, ps))
    }

    /// Allocates a list cell with the given head and tail and roots it.
    pub fn alloc_root_cons(&mut self, head: RootedPtr, tail: RootedPtr) -> (res: Result<RootedPtr, EngineError>)
        requires
            old(self).wf(),
            old(self).live_root(head),
            old(self).live_root(tail),
        ensures
            final(self).wf(),
            rooted_alloc(*old(self), *final(self), CellView::Cons(old(self).root_target(head), old(self).root_target(tail)), res),
    {
        let h = self.resolve_runtime_root(head);
        let t = self.resolve_runtime_root(tail);
        proof {
            assert(self.root_pointer(head.slot as int) is Some);
            assert(self.root_pointer(tail.slot as int) is Some);
            assert(children(CellView::Cons(h, t)) =~= seq![h, t]);
        }
        self.alloc_root(Cell::Cons(h, t))
    }

    /// Allocates a dictionary with the given field names and values and roots
    /// it. The fields are set one after another, as `BTreeMap::from_iter`
    /// sets them: the dictionary keeps them in name order, and of two fields
    /// with one name the later wins.
    pub fn alloc_root_dict(&mut self, keys: Vec<String>, values: &Vec<RootedPtr>) -> (res: Result<RootedPtr, EngineError>)
        requires
            old(self).wf(),
            all_live(*old(self), values@),
            keys@.len() == values@.len(),
        ensures
            final(self).wf(),
            rooted_alloc(
                *old(self),
                *final(self),
                CellView::Dict(dict_of(Seq::new(keys@.len(), |i: int| (keys@[i]@, old(self).root_target(values@[i]))))),
                res,
            ),
    {
        let ghost h0 = *self;
        let ghost pairs = Seq::new(keys@.len(), |i: int| (keys@[i]@, h0.root_target(values@[i])));
        let ps = resolve_all(self, values);
        let n = ps.len();
        let ghost key_views = keys@.map_values(|k: String| k@);
        // Reverse the names, so that popping hands them out in order.
        let mut pending = keys;
        let mut rest: Vec<String> = Vec::new();
        while pending.len() > 0
            invariant
                pending@.len() + rest@.len() == n,
                key_views.len() == n,
                forall|j: int| 0 <= j < pending@.len() ==> (#[trigger] pending@[j])@ == key_views[j],
                forall|j: int| 0 <= j < rest@.len() ==> (#[trigger] rest@[j])@ == key_views[n - 1 - j],
            decreases pending@.len(),
        {
            match pending.pop() {
                Some(k) => rest.push(k),
                None => {},
            }
        }
        let mut fields: Vec<(String, InternalPtr)> = Vec::new();
        let mut i: usize = 0;
        while rest.len() > 0
            invariant
                i + rest@.len() == n,
                ps@.len() == n,
                pairs.len() == n,
                forall|j: int| 0 <= j < n ==> (#[trigger] pairs[j]).0 == key_views[j] && pairs[j].1 == ps@[j],
                forall|j: int| 0 <= j < rest@.len() ==> (#[trigger] rest@[j])@ == key_views[n - 1 - j],
                fields_view(fields@) == dict_of(pairs.take(i as int)),
                forall|j: int| 0 <= j < fields@.len() ==> self.valid_ptr(#[trigger] fields@[j].1),
                forall|j: int| 0 <= j < ps@.len() ==> self.valid_ptr(#[trigger] ps@[j]),
            decreases rest@.len(),
        {
            let k = match rest.pop() {
                Some(k) => k,
                None => String::new(),
            };
            let ghost before = fields_view(fields@);
            let ghost before_raw = fields@;
            let p = ps[i];
            proof {
                assert(pairs.take(i + 1).drop_last() =~= pairs.take(i as int));
                assert(pairs.take(i + 1).last() == pairs[i as int]);
                assert(k@ == key_views[i as int]);
            }
            dict_insert_field(&mut fields, k, p);
            proof {
                assert forall|j: int| 0 <= j < fields@.len() implies self.valid_ptr(#[trigger] fields@[j].1) by {
                    let r = fields_view(fields@);
                    assert(r[j].1 == fields@[j].1);
                    lemma_insert_entries(before, key_views[i as int], p, j);
                    if r[j] != (key_views[i as int], p) {
                        let m = choose|m: int| 0 <= m < before.len() && #[trigger] before[m] == r[j];
                        assert(before[m].1 == before_raw[m].1);
                        assert(self.valid_ptr(before_raw[m].1));
                    }
                }
            }
            i += 1;
        }
        proof {
            assert(pairs.take(n as int) =~= pairs);
        }
        let mut entries: Vec<DictEntry> = Vec::new();
        let ghost fv = fields_view(fields@);
        let mut pending_fields = fields;
        let mut back: Vec<(String, InternalPtr)> = Vec::new();
        let m = pending_fields.len();
        while pending_fields.len() > 0
            invariant
                pending_fields@.len() + back@.len() == m,
                fv.len() == m,
                forall|j: int| 0 <= j < pending_fields@.len() ==> (#[trigger] pending_fields@[j]).0@ == fv[j].0
                    && pending_fields@[j].1 == fv[j].1,
                forall|j: int| 0 <= j < back@.len() ==> (#[trigger] back@[j]).0@ == fv[m - 1 - j].0
                    && back@[j].1 == fv[m - 1 - j].1,
            decreases pending_fields@.len(),
        {
            match pending_fields.pop() {
                Some(f) => back.push(f),
                None => {},
            }
        }
        while back.len() > 0
            invariant
                entries@.len() + back@.len() == m,
                fv.len() == m,
                forall|j: int| 0 <= j < back@.len() ==> (#[trigger] back@[j]).0@ == fv[m - 1 - j].0
                    && back@[j].1 == fv[m - 1 - j].1,
                forall|j: int| 0 <= j < entries@.len() ==> (#[trigger] entries@[j]).key@ == fv[j].0
                    && entries@[j].value == fv[j].1,
            decreases back@.len(),
        {
            match back.pop() {
                Some(f) => entries.push(DictEntry { key: f.0, value: f.1 }),
                None => {},
            }
        }
        proof {
            assert(dict_view(entries@) =~= fv);
            assert forall|j: int| 0 <= j < children(CellView::Dict(dict_view(entries@))).len()
                implies self.valid_ptr(#[trigger] children(CellView::Dict(dict_view(entries@)))[j]) by {
                assert(children(CellView::Dict(dict_view(entries@)))[j] == fv[j].1);
            }
        }
        self.alloc_root(Cell::Dict(entries))
    }

    /// Allocates a partially applied host function and roots it.
    pub fn alloc_root_native(
        &mut self,
        native_id: u64,
        name: String,
        arity: usize,
        typ: u64,
        applied: &Vec<RootedPtr>,
        applied_types: Vec<u64>,
    ) -> (res: Result<RootedPtr, EngineError>)
        requires
            old(self).wf(),
            all_live(*old(self), applied@),
        ensures
            final(self).wf(),
            rooted_alloc(
                *old(self),
                *final(self),
                CellView::Native {
                    native_id,
                    name: name@,
                    arity,
                    typ,
                    applied: targets(*old(self), applied@),
                    applied_types: applied_types@,
                },
                res,
            ),
    {
        let ps = resolve_all(self, applied);
        self.alloc_root(Cell::Native(NativeFn { native_id, name, arity, typ, applied: ps, applied_types }))
    }

    /// Allocates a partially applied overloaded function and roots it.
    pub fn alloc_root_overloaded(
        &mut self,
        name: String,
        typ: u64,
        applied: &Vec<RootedPtr>,
        applied_types: Vec<u64>,
    ) -> (res: Result<RootedPtr, EngineError>)
        requires
            old(self).wf(),
            all_live(*old(self), applied@),
        ensures
            final(self).wf(),
            rooted_alloc(
                *old(self),
                *final(self),
                CellView::Overloaded {
                    name: name@,
                    typ,
                    applied: targets(*old(self), applied@),
                    applied_types: applied_types@,
                },
                res,
            ),
    {
        let ps = resolve_all(self, applied);
        self.alloc_root(Cell::Overloaded(OverloadedFn { name, typ, applied: ps, applied_types }))
    }

    /// The runtime kind name of a rooted object.
    pub fn root_type_name(&self, root: RootedPtr) -> (res: Result<&'static str, EngineError>)
        requires
            self.wf(),
            self.live_root(root),
        ensures
            res matches Ok(n) && n == type_name_of(self.cell_at(self.root_target(root))),
    {
        match self.get_cell_from_rooted_ptr(root) {
            Ok(c) => Ok(c.cell_type_name()),
            Err(e) => Err(e),
        }
    }

    /// Roots the elements of a rooted tuple.
    pub fn root_as_tuple(&mut self, root: RootedPtr) -> (res: Result<Vec<RootedPtr>, EngineError>)
        requires
            old(self).wf(),
            old(self).live_root(root),
        ensures
            final(self).wf(),
            match old(self).cell_at(old(self).root_target(root)) {
                CellView::Tuple(v) => res matches Ok(rs) && rooted_all(*old(self), *final(self), v, rs@),
                other => res matches Err(EngineError::NativeType { expected, got }) && expected == "tuple"
                    && got == type_name_of(other) && *final(self) == *old(self),
            },
    {
        let items = match self.get_cell_from_rooted_ptr(root) {
            Ok(c) => c.cell_as_tuple(),
            Err(e) => Err(e),
        };
        match items {
            Ok(ps) => {
                proof {
                    let c = self.cell_at(self.root_target(root));
                    assert(self.root_pointer(root.slot as int) is Some);
                    assert forall|k: int| 0 <= k < ps@.len() implies self.valid_ptr(#[trigger] ps@[k]) by {
                        assert(ps@[k] == children(c)[k]);
                        assert(self.valid_ptr(children(self.slot_cell(self.root_target(root).index as int))[k]));
                    }
                }
                Ok(self.root_all(&ps))
            },
            Err(e) => Err(e),
        }
    }

    /// Roots the fields of a rooted constructor application.
    pub fn root_as_adt(&mut self, root: RootedPtr) -> (res: Result<(String, Vec<RootedPtr>), EngineError>)
        requires
            old(self).wf(),
            old(self).live_root(root),
        ensures
            final(self).wf(),
            match old(self).cell_at(old(self).root_target(root)) {
                CellView::Adt(n, v) => res matches Ok(x) && x.0@ == n && rooted_all(*old(self), *final(self), v, x.1@),
                other => res matches Err(EngineError::NativeType { expected, got }) && expected == "adt"
                    && got == type_name_of(other) && *final(self) == *old(self),
            },
    {
        let items = match self.get_cell_from_rooted_ptr(root) {
            Ok(c) => c.cell_as_adt(),
            Err(e) => Err(e),
        };
        match items {
            Ok((name, ps)) => {
                proof {
                    let c = self.cell_at(self.root_target(root));
                    assert(self.root_pointer(root.slot as int) is Some);
                    assert forall|k: int| 0 <= k < ps@.len() implies self.valid_ptr(#[trigger] ps@[k]) by {
                        assert(ps@[k] == children(c)[k]);
                        assert(self.valid_ptr(children(self.slot_cell(self.root_target(root).index as int))[k]));
                    }
                }
                let rs = self.root_all(&ps);
                Ok((name, rs))
            },
            Err(e) => Err(e),
        }
    }

    /// Roots the field values of a rooted record, keeping the field names, in
    /// the record's field order.
    pub fn root_as_dict(&mut self, root: RootedPtr) -> (res: Result<Vec<(String, RootedPtr)>, EngineError>)
        requires
            old(self).wf(),
            old(self).live_root(root),
        ensures
            final(self).wf(),
            match old(self).cell_at(old(self).root_target(root)) {
                CellView::Dict(e) => res matches Ok(x) && x@.len() == e.len()
                    && (forall|k: int| 0 <= k < e.len() ==> (#[trigger] x@[k]).0@ == e[k].0)
                    && rooted_all(*old(self), *final(self), children(CellView::Dict(e)), x@.map_values(|f: (String, RootedPtr)| f.1)),
                other => res matches Err(EngineError::NativeType { expected, got }) && expected == "dict"
                    && got == type_name_of(other) && *final(self) == *old(self),
            },
    {
        let entries = match self.get_cell_from_rooted_ptr(root) {
            Ok(c) => c.cell_as_dict(),
            Err(e) => Err(e),
        };
        match entries {
            Ok(entries) => {
                let ghost c = self.cell_at(self.root_target(root));
                let mut ptrs: Vec<InternalPtr> = Vec::new();
                let mut k: usize = 0;
                while k < entries.len()
                    invariant
                        0 <= k <= entries@.len(),
                        ptrs@ == dict_view(entries@).take(k as int).map_values(|x: (Seq<char>, InternalPtr)| x.1),
                    decreases entries@.len() - k,
                {
                    ptrs.push(entries[k].value);
                    k += 1;
                    proof {
                        assert(ptrs@ =~= dict_view(entries@).take(k as int).map_values(|x: (Seq<char>, InternalPtr)| x.1));
                    }
                }
                proof {
                    assert(dict_view(entries@).take(entries@.len() as int) =~= dict_view(entries@));
                    assert(ptrs@ == children(c));
                    assert(self.root_pointer(root.slot as int) is Some);
                    assert forall|j: int| 0 <= j < ptrs@.len() implies self.valid_ptr(#[trigger] ptrs@[j]) by {
                        assert(self.valid_ptr(children(self.slot_cell(self.root_target(root).index as int))[j]));
                    }
                }
                let rs = self.root_all(&ptrs);
                let mut out: Vec<(String, RootedPtr)> = Vec::new();
                let mut i: usize = 0;
                while i < entries.len()
                    invariant
                        0 <= i <= entries@.len(),
                        rs@.len() == entries@.len(),
                        out@.len() == i,
                        forall|j: int| 0 <= j < i ==> (#[trigger] out@[j]).0@ == entries@[j].key@ && out@[j].1 == rs@[j],
                    decreases entries@.len() - i,
                {
                    out.push((entries[i].key.clone(), rs[i]));
                    i += 1;
                }
                proof {
                    assert(out@.map_values(|f: (String, RootedPtr)| f.1) =~= rs@);
                }
                Ok(out)
            },
            Err(e) => Err(e),
        }
    }

    /// Replaces the object that `target` stands for with a copy of the object
    /// that `value` stands for.
    pub fn overwrite_root(&mut self, target: RootedPtr, value: RootedPtr) -> (res: Result<(), EngineError>)
        requires
            old(self).wf(),
            old(self).live_root(target),
            old(self).live_root(value),
        ensures
            final(self).wf(),
            res is Ok,
            final(self).same_roots(&*old(self)),
            final(self).cell_at(old(self).root_target(target)) == old(self).cell_at(old(self).root_target(value)),
            forall|q: InternalPtr| #[trigger] old(self).valid_ptr(q) ==> final(self).valid_ptr(q)
                && (q.index != old(self).root_target(target).index ==> final(self).cell_at(q) == old(self).cell_at(q)),
    {
        let cell = match self.get_cell_from_rooted_ptr(value) {
            Ok(c) => c.copy(),
            Err(e) => {
                return Err(e);
            },
        };
        let t = self.resolve_runtime_root(target);
        proof {
            assert(self.root_pointer(target.slot as int) is Some);
            assert(self.root_pointer(value.slot as int) is Some);
            let vp = self.root_target(value);
            assert forall|k: int| 0 <= k < children(cell@).len() implies self.valid_ptr(#[trigger] children(cell@)[k]) by {
                assert(self.valid_ptr(children(self.slot_cell(vp.index as int))[k]));
            }
        }
        self.overwrite(&t, cell)
    }
}

} // verus!
