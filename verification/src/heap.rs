//! Single-owner heap storage, cells, and copying-collector roots.
//!
//! A heap owns its slots and its runtime root table. Cells refer to one
//! another by [`InternalPtr`]; the runtime refers to cells through
//! [`RootedPtr`] tokens, whose table entries the collector rewrites when the
//! objects move. Any allocation may collect before it creates its result.

use vstd::prelude::*;

use crate::cell::{children, map_cell, Cell, CellView, InternalPtr, RootedPtr};
use crate::error::EngineError;
use crate::gc_order::{
    has_source, identity_destinations, is_permutation, lemma_permutation_onto,
    moves_every_object, randomized_gc_destinations, all_distinct, gc_destinations,
};

verus! {

/// The number of slots at which a fresh heap first collects.
pub const DEFAULT_GC_SLOT_THRESHOLD: usize = 4096;

/// One slot of the heap: the epoch in which its object was placed there, and
/// the object.
#[derive(Debug)]
pub struct HeapSlot {
    pub generation: u64,
    pub cell: Option<Cell>,
}

/// One entry of the runtime root table.
#[derive(Debug, Clone, Copy)]
pub struct RootSlot {
    pub generation: u64,
    pub pointer: Option<InternalPtr>,
}

/// Mutable storage and collector state for one Rex heap.
#[derive(Debug)]
pub struct Heap {
    id: u64,
    slots: Vec<HeapSlot>,
    runtime_roots: Vec<RootSlot>,
    free_runtime_root_list: Vec<usize>,
    next_gc_slot_count: usize,
    extreme_stress: bool,
    collection_epoch: u64,
    defer_collection: bool,
}

/// The slot threshold after a collection that left `live` objects: half as
/// many again as are live, or 4096 more than are live, whichever is larger
/// (each sum saturating), and never below 4096.
pub open spec fn next_threshold(live: int) -> int {
    let grown = if live + live / 2 > usize::MAX { usize::MAX as int } else { live + live / 2 };
    let slack = if live + 4096 > usize::MAX { usize::MAX as int } else { live + 4096 };
    let m = if grown > slack { grown } else { slack };
    if m > 4096 { m } else { 4096 }
}

impl Heap {
    pub closed spec fn id(&self) -> u64 {
        self.id
    }

    pub closed spec fn slot_count(&self) -> nat {
        self.slots@.len()
    }

    pub closed spec fn slot_generation(&self, i: int) -> u64 {
        self.slots@[i].generation
    }

    pub closed spec fn epoch(&self) -> u64 {
        self.collection_epoch
    }

    pub closed spec fn threshold(&self) -> usize {
        self.next_gc_slot_count
    }

    pub closed spec fn stress(&self) -> bool {
        self.extreme_stress
    }

    pub closed spec fn deferred(&self) -> bool {
        self.defer_collection
    }

    pub closed spec fn root_count(&self) -> nat {
        self.runtime_roots@.len()
    }

    pub closed spec fn root_generation(&self, i: int) -> u64 {
        self.runtime_roots@[i].generation
    }

    pub closed spec fn root_pointer(&self, i: int) -> Option<InternalPtr> {
        self.runtime_roots@[i].pointer
    }

    pub closed spec fn free_roots(&self) -> Seq<usize> {
        self.free_runtime_root_list@
    }

    /// Both heaps hold the same objects and roots.
    pub closed spec fn same_objects(&self, other: &Heap) -> bool {
        &&& self.slots == other.slots
        &&& self.same_roots(other)
    }

    /// Heaps with the same objects and roots agree on every object, pointer
    /// and root.
    pub proof fn lemma_same_objects(a: Heap, b: Heap)
        requires
            b.same_objects(&a),
        ensures
            b.id() == a.id(),
            b.slot_count() == a.slot_count(),
            b.root_count() == a.root_count(),
            b.free_roots() == a.free_roots(),
            forall|i: int| #[trigger] b.slot_generation(i) == a.slot_generation(i),
            forall|i: int| #[trigger] b.slot_has_cell(i) == a.slot_has_cell(i),
            forall|i: int| #[trigger] b.slot_cell(i) == a.slot_cell(i),
            forall|i: int| #[trigger] b.root_pointer(i) == a.root_pointer(i),
            forall|i: int| #[trigger] b.root_generation(i) == a.root_generation(i),
            forall|p: InternalPtr| #[trigger] b.valid_ptr(p) == a.valid_ptr(p) && b.cell_at(p) == a.cell_at(p),
            forall|r: RootedPtr| #[trigger] b.live_root(r) == a.live_root(r) && b.root_target(r) == a.root_target(r),
    {
    }

    /// Both heaps hold the same slots.
    pub closed spec fn same_slots(&self, other: &Heap) -> bool {
        self.slots == other.slots
    }

    /// Heaps with the same slots and identity agree on every object and
    /// pointer.
    pub proof fn lemma_same_slots(a: Heap, b: Heap)
        requires
            b.same_slots(&a),
            b.id() == a.id(),
        ensures
            b.slot_count() == a.slot_count(),
            forall|i: int| #[trigger] b.slot_generation(i) == a.slot_generation(i),
            forall|i: int| #[trigger] b.slot_has_cell(i) == a.slot_has_cell(i),
            forall|i: int| #[trigger] b.slot_cell(i) == a.slot_cell(i),
            forall|p: InternalPtr| #[trigger] b.valid_ptr(p) == a.valid_ptr(p) && b.cell_at(p) == a.cell_at(p),
    {
    }

    /// Heaps with the same roots agree on their identity and every root
    /// entry.
    pub proof fn lemma_same_roots(a: Heap, b: Heap)
        requires
            b.same_roots(&a),
        ensures
            b.id() == a.id(),
            b.root_count() == a.root_count(),
            b.free_roots() == a.free_roots(),
            forall|i: int| #[trigger] b.root_pointer(i) == a.root_pointer(i),
            forall|i: int| #[trigger] b.root_generation(i) == a.root_generation(i),
    {
    }

    /// Both heaps have the same identity and root table.
    pub closed spec fn same_roots(&self, other: &Heap) -> bool {
        &&& self.id == other.id
        &&& self.runtime_roots == other.runtime_roots
        &&& self.free_runtime_root_list == other.free_runtime_root_list
    }

    /// This heap holds the slots of `other`, unchanged, and possibly more.
    pub closed spec fn extends(&self, other: &Heap) -> bool {
        &&& self.slots@.len() >= other.slots@.len()
        &&& forall|i: int| 0 <= i < other.slots@.len() ==> #[trigger] self.slots@[i] == other.slots@[i]
    }

    /// `p` names the object now in its slot of this heap.
    pub open spec fn valid_ptr(&self, p: InternalPtr) -> bool {
        &&& p.heap_id == self.id()
        &&& p.index < self.slot_count()
        &&& self.slot_generation(p.index as int) == p.generation
        &&& self.slot_has_cell(p.index as int)
    }

    pub closed spec fn slot_has_cell(&self, i: int) -> bool {
        self.slots@[i].cell is Some
    }

    /// The object in slot `i`.
    pub closed spec fn slot_cell(&self, i: int) -> CellView {
        self.slots@[i].cell.unwrap()@
    }

    /// The object that `p` names.
    pub open spec fn cell_at(&self, p: InternalPtr) -> CellView {
        self.slot_cell(p.index as int)
    }

    /// Whether the collector would run before the next allocation.
    pub open spec fn needs_collection(&self) -> bool {
        self.stress() || self.slot_count() >= self.threshold()
    }

    /// `r` is a live token of this heap.
    pub open spec fn live_root(&self, r: RootedPtr) -> bool {
        &&& r.heap_id == self.id()
        &&& r.slot < self.root_count()
        &&& self.root_generation(r.slot as int) == r.generation
        &&& self.root_pointer(r.slot as int) is Some
    }

    /// The object that the live token `r` stands for.
    pub open spec fn root_target(&self, r: RootedPtr) -> InternalPtr {
        self.root_pointer(r.slot as int).unwrap()
    }

    /// The heap's internal consistency: every slot holds an object placed in
    /// an epoch that has begun, every pointer held by an object or by the
    /// root table names a live object, and the free list names distinct
    /// empty root entries.
    pub open spec fn wf(&self) -> bool {
        &&& self.slot_count() <= u32::MAX as nat + 1
        &&& forall|i: int| 0 <= i < self.slot_count() ==> #[trigger] self.slot_has_cell(i)
        &&& forall|i: int| 0 <= i < self.slot_count() ==> #[trigger] self.slot_generation(i) <= self.epoch()
        &&& forall|i: int, k: int|
            0 <= i < self.slot_count() && 0 <= k < children(self.slot_cell(i)).len()
                ==> self.valid_ptr(#[trigger] children(self.slot_cell(i))[k])
        &&& forall|i: int| 0 <= i < self.root_count() && (#[trigger] self.root_pointer(i)) is Some
            ==> self.valid_ptr(self.root_pointer(i).unwrap())
        &&& forall|k: int| 0 <= k < self.free_roots().len() ==> (#[trigger] self.free_roots()[k]) < self.root_count()
            && self.root_pointer(self.free_roots()[k] as int) is None
        &&& forall|a: int, b: int| 0 <= a < b < self.free_roots().len() ==> #[trigger] self.free_roots()[a] != #[trigger] self.free_roots()[b]
    }

    /// Every pointer that `c` holds names a live object.
    pub open spec fn holds_valid(&self, c: CellView) -> bool {
        forall|k: int| 0 <= k < children(c).len() ==> self.valid_ptr(#[trigger] children(c)[k])
    }
}

/// How the heap `b` relates to the heap `a` after an operation that may have
/// moved objects: `f` sends each object of `a` that survived to its new
/// address. Surviving objects keep their contents, with their pointers sent
/// through `f`; distinct objects stay distinct; every live root follows its
/// object; a released root stays released.
pub open spec fn evolves(a: Heap, b: Heap, f: Map<InternalPtr, InternalPtr>) -> bool {
    evolves_except(a, b, f, Set::empty())
}

/// As `evolves`, except that the root entries in `fresh` are new tokens
/// that the operation handed out.
pub open spec fn evolves_except(
    a: Heap,
    b: Heap,
    f: Map<InternalPtr, InternalPtr>,
    fresh: Set<int>,
) -> bool {
    &&& b.id() == a.id()
    &&& b.root_count() >= a.root_count()
    &&& forall|i: int| 0 <= i < a.root_count() && (#[trigger] a.root_pointer(i)) is Some ==> {
        &&& !fresh.contains(i)
        &&& f.contains_key(a.root_pointer(i).unwrap())
        &&& b.root_pointer(i) == Some(f[a.root_pointer(i).unwrap()])
        &&& b.root_generation(i) == a.root_generation(i)
    }
    &&& forall|i: int| 0 <= i < a.root_count() && (#[trigger] a.root_pointer(i)) is None && !fresh.contains(i) ==> b.root_pointer(i) is None
    &&& forall|i: int| a.root_count() <= i < b.root_count() && !fresh.contains(i) ==> (#[trigger] b.root_pointer(i)) is None
    &&& forall|p: InternalPtr| #[trigger] f.contains_key(p) ==> {
        &&& a.valid_ptr(p)
        &&& b.valid_ptr(f[p])
        &&& forall|k: int| 0 <= k < children(a.cell_at(p)).len() ==> f.contains_key(#[trigger] children(a.cell_at(p))[k])
        &&& b.cell_at(f[p]) == map_cell(a.cell_at(p), f)
    }
    &&& forall|p: InternalPtr, q: InternalPtr|
        #[trigger] f.contains_key(p) && #[trigger] f.contains_key(q) && p != q ==> f[p] != f[q]
}

/// The identity on the live objects of `h`.
pub open spec fn identity_on(h: Heap) -> Map<InternalPtr, InternalPtr> {
    Map::new(|p: InternalPtr| h.valid_ptr(p), |p: InternalPtr| p)
}

pub proof fn lemma_map_cell_identity(c: CellView, f: Map<InternalPtr, InternalPtr>)
    requires
        forall|k: int| 0 <= k < children(c).len() ==> f.contains_key(#[trigger] children(c)[k])
            && f[children(c)[k]] == children(c)[k],
    ensures
        map_cell(c, f) == c,
{
    assert(children(c).map_values(|p: InternalPtr| f[p]) =~= children(c));
    crate::cell::lemma_with_own_children(c);
}

/// The part of `wf` that concerns slots carries over between heaps with the
/// same identity, slots and epoch.
proof fn lemma_slots_frame(a: Heap, b: Heap)
    requires
        a.wf(),
        a.slots == b.slots,
        a.id == b.id,
        a.collection_epoch == b.collection_epoch,
    ensures
        forall|p: InternalPtr| #[trigger] b.valid_ptr(p) == a.valid_ptr(p),
        forall|p: InternalPtr| #[trigger] b.cell_at(p) == a.cell_at(p),
        b.slot_count() <= u32::MAX as nat + 1,
        forall|i: int| 0 <= i < b.slot_count() ==> #[trigger] b.slot_has_cell(i),
        forall|i: int| 0 <= i < b.slot_count() ==> #[trigger] b.slot_generation(i) <= b.epoch(),
        forall|i: int, k: int|
            0 <= i < b.slot_count() && 0 <= k < children(b.slot_cell(i)).len()
                ==> b.valid_ptr(#[trigger] children(b.slot_cell(i))[k]),
{
    assert forall|i: int, k: int|
        0 <= i < b.slot_count() && 0 <= k < children(b.slot_cell(i)).len()
            implies b.valid_ptr(#[trigger] children(b.slot_cell(i))[k]) by {
        assert(a.slot_cell(i) == b.slot_cell(i));
        assert(a.valid_ptr(children(a.slot_cell(i))[k]));
    }
    assert forall|i: int| 0 <= i < b.slot_count() implies #[trigger] b.slot_has_cell(i) by {
        assert(a.slot_has_cell(i));
    }
    assert forall|i: int| 0 <= i < b.slot_count() implies #[trigger] b.slot_generation(i) <= b.epoch() by {
        assert(a.slot_generation(i) <= a.epoch());
    }
}

pub proof fn lemma_valid_same_index(h: Heap, p: InternalPtr, q: InternalPtr)
    requires
        h.valid_ptr(p),
        h.valid_ptr(q),
        p.index == q.index,
    ensures
        p == q,
{
}

impl Heap {
    /// An empty heap with the given identity.
    pub fn new(id: u64) -> (h: Heap)
        ensures
            h.wf(),
            h.id() == id,
            h.slot_count() == 0,
            h.root_count() == 0,
            h.epoch() == 0,
            h.threshold() == DEFAULT_GC_SLOT_THRESHOLD,
            !h.stress(),
            !h.deferred(),
    {
        Heap {
            id,
            slots: Vec::new(),
            runtime_roots: Vec::new(),
            free_runtime_root_list: Vec::new(),
            next_gc_slot_count: DEFAULT_GC_SLOT_THRESHOLD,
            extreme_stress: false,
            collection_epoch: 0,
            defer_collection: false,
        }
    }

    /// This heap's identity.
    pub fn heap_id(&self) -> (id: u64)
        ensures
            id == self.id(),
    {
        self.id
    }

    /// The number of occupied slots.
    pub fn len(&self) -> (n: usize)
        ensures
            n == self.slot_count(),
    {
        self.slots.len()
    }

    /// The number of completed collections.
    pub fn collection_count(&self) -> (n: u64)
        ensures
            n == self.epoch(),
    {
        self.collection_epoch
    }

    /// Whether the next allocation collects first.
    pub fn collect_needed(&self) -> (b: bool)
        ensures
            b == self.needs_collection(),
    {
        self.extreme_stress || self.slots.len() >= self.next_gc_slot_count
    }

    /// Turns stress mode on or off: in stress mode every allocation collects
    /// and every collection moves every object when more than one is live.
    pub fn set_extreme_stress(&mut self, enabled: bool)
        requires
            old(self).wf(),
        ensures
            final(self).wf(),
            final(self).stress() == enabled,
            final(self).same_objects(&*old(self)),
            final(self).threshold() == old(self).threshold(),
            final(self).epoch() == old(self).epoch(),
            final(self).deferred() == old(self).deferred(),
    {
        let ghost h0 = *self;
        self.extreme_stress = enabled;
        proof {
            Heap::lemma_same_objects(h0, *self);
        }
    }

    /// Sets the slot count at which the next allocation collects (at least 1).
    pub fn set_gc_slot_threshold(&mut self, threshold: usize)
        requires
            old(self).wf(),
        ensures
            final(self).wf(),
            final(self).threshold() == (if threshold >= 1 { threshold } else { 1 }),
            final(self).same_objects(&*old(self)),
            final(self).stress() == old(self).stress(),
            final(self).epoch() == old(self).epoch(),
            final(self).deferred() == old(self).deferred(),
    {
        let ghost h0 = *self;
        self.next_gc_slot_count = if threshold >= 1 { threshold } else { 1 };
        proof {
            Heap::lemma_same_objects(h0, *self);
        }
    }

    /// Sets the number of completed collections.
    pub fn set_collection_count(&mut self, epoch: u64)
        requires
            old(self).wf(),
            forall|i: int| 0 <= i < old(self).slot_count() ==> #[trigger] old(self).slot_generation(i) <= epoch,
        ensures
            final(self).wf(),
            final(self).epoch() == epoch,
            final(self).same_objects(&*old(self)),
            final(self).stress() == old(self).stress(),
            final(self).threshold() == old(self).threshold(),
            final(self).deferred() == old(self).deferred(),
    {
        let ghost h0 = *self;
        self.collection_epoch = epoch;
        proof {
            Heap::lemma_same_objects(h0, *self);
        }
    }

    /// While deferred, allocations never collect (the evaluator's machine
    /// scopes hold unrooted pointers).
    pub fn set_defer_collection(&mut self, defer: bool)
        requires
            old(self).wf(),
        ensures
            final(self).wf(),
            final(self).deferred() == defer,
            final(self).same_objects(&*old(self)),
            final(self).stress() == old(self).stress(),
            final(self).threshold() == old(self).threshold(),
            final(self).epoch() == old(self).epoch(),
    {
        let ghost h0 = *self;
        self.defer_collection = defer;
        proof {
            Heap::lemma_same_objects(h0, *self);
        }
    }

    fn update_next_gc_slot_count(&mut self)
        ensures
            final(self).threshold() == next_threshold(old(self).slot_count() as int),
            final(self).same_objects(&*old(self)),
            final(self).stress() == old(self).stress(),
            final(self).epoch() == old(self).epoch(),
            final(self).deferred() == old(self).deferred(),
    {
        let live = self.slots.len();
        let grown = live.saturating_add(live / 2);
        let with_slack = live.saturating_add(DEFAULT_GC_SLOT_THRESHOLD);
        let m = if grown > with_slack { grown } else { with_slack };
        self.next_gc_slot_count = if m > DEFAULT_GC_SLOT_THRESHOLD { m } else { DEFAULT_GC_SLOT_THRESHOLD };
    }

    /// Checks a pointer against this heap.
    pub fn get_cell_from_pointer(&self, pointer: &InternalPtr) -> (res: Result<&Cell, EngineError>)
        ensures
            match res {
                Ok(c) => self.valid_ptr(*pointer) && c@ == self.cell_at(*pointer),
                Err(e) => !self.valid_ptr(*pointer) && (if pointer.heap_id != self.id() {
                    e == (EngineError::WrongHeapPointer {
                        pointer_heap_id: pointer.heap_id,
                        heap_id: self.id(),
                        slot: pointer.index,
                        generation: pointer.generation,
                    })
                } else {
                    e == (EngineError::InvalidPointer {
                        heap_id: self.id(),
                        slot: pointer.index,
                        generation: pointer.generation,
                    })
                }),
            },
    {
        if pointer.heap_id != self.id {
            return Err(
                EngineError::WrongHeapPointer {
                    pointer_heap_id: pointer.heap_id,
                    heap_id: self.id,
                    slot: pointer.index,
                    generation: pointer.generation,
                },
            );
        }
        let index = pointer.index as usize;
        if index >= self.slots.len() {
            return Err(
                EngineError::InvalidPointer {
                    heap_id: self.id,
                    slot: pointer.index,
                    generation: pointer.generation,
                },
            );
        }
        let slot = &self.slots[index];
        if slot.generation != pointer.generation {
            return Err(
                EngineError::InvalidPointer {
                    heap_id: self.id,
                    slot: pointer.index,
                    generation: pointer.generation,
                },
            );
        }
        match &slot.cell {
            Some(c) => Ok(c),
            None => Err(
                EngineError::InvalidPointer {
                    heap_id: self.id,
                    slot: pointer.index,
                    generation: pointer.generation,
                },
            ),
        }
    }

    /// Whether `pointer` names a live object of this heap.
    pub fn check_pointer(&self, pointer: &InternalPtr) -> (b: bool)
        ensures
            b == self.valid_ptr(*pointer),
    {
        self.get_cell_from_pointer(pointer).is_ok()
    }

    /// Places `cell` in a new slot, stamped with the current epoch.
    pub fn push_cell(&mut self, cell: Cell) -> (res: Result<InternalPtr, EngineError>)
        requires
            old(self).wf(),
            old(self).holds_valid(cell@),
        ensures
            final(self).wf(),
            match res {
                Ok(p) => {
                    &&& old(self).slot_count() <= u32::MAX
                    &&& p == (InternalPtr {
                        heap_id: old(self).id(),
                        index: old(self).slot_count() as u32,
                        generation: old(self).epoch(),
                    })
                    &&& final(self).slot_count() == old(self).slot_count() + 1
                    &&& final(self).extends(&*old(self))
                    &&& final(self).valid_ptr(p)
                    &&& final(self).cell_at(p) == cell@
                },
                Err(e) => {
                    &&& old(self).slot_count() > u32::MAX
                    &&& e is HeapExhausted
                    &&& final(self).same_objects(&*old(self))
                },
            },
            final(self).same_roots(&*old(self)),
            final(self).stress() == old(self).stress(),
            final(self).threshold() == old(self).threshold(),
            final(self).epoch() == old(self).epoch(),
            final(self).deferred() == old(self).deferred(),
    {
        let len = self.slots.len();
        if len > u32::MAX as usize {
            return Err(EngineError::HeapExhausted);
        }
        let index = len as u32;
        let generation = self.collection_epoch;
        let ghost pre = *self;
        self.slots.push(HeapSlot { generation, cell: Some(cell) });
        proof {
            assert forall|p: InternalPtr| pre.valid_ptr(p) implies self.valid_ptr(p) by {
                assert(self.slots@[p.index as int] == pre.slots@[p.index as int]);
            }
            assert forall|i: int| 0 <= i < self.slot_count() implies #[trigger] self.slot_has_cell(i) by {
                if i < len {
                    assert(pre.slot_has_cell(i));
                }
            }
            assert forall|i: int| 0 <= i < self.slot_count() implies #[trigger] self.slot_generation(i) <= self.epoch() by {
                if i < len {
                    assert(pre.slot_generation(i) <= pre.epoch());
                }
            }
            assert forall|i: int, k: int|
                0 <= i < self.slot_count() && 0 <= k < children(self.slot_cell(i)).len()
                implies self.valid_ptr(#[trigger] children(self.slot_cell(i))[k]) by {
                if i < len {
                    assert(self.slot_cell(i) == pre.slot_cell(i));
                    assert(pre.valid_ptr(children(pre.slot_cell(i))[k]));
                } else {
                    assert(self.slot_cell(i) == cell@);
                    assert(pre.valid_ptr(children(cell@)[k]));
                }
            }
            assert forall|i: int| 0 <= i < self.root_count() && (#[trigger] self.root_pointer(i)) is Some
                implies self.valid_ptr(self.root_pointer(i).unwrap()) by {
                assert(pre.valid_ptr(pre.root_pointer(i).unwrap()));
            }
        }
        Ok(InternalPtr { heap_id: self.id, index, generation })
    }
}

impl Heap {
    /// Records `pointer` in the runtime root table and returns its token.
    pub fn register_runtime_root(&mut self, pointer: InternalPtr) -> (r: RootedPtr)
        requires
            old(self).wf(),
            old(self).valid_ptr(pointer),
        ensures
            final(self).wf(),
            final(self).live_root(r),
            final(self).root_target(r) == pointer,
            r.slot < old(self).root_count() ==> old(self).root_pointer(r.slot as int) is None,
            r.slot <= old(self).root_count(),
            final(self).root_count() == (if r.slot == old(self).root_count() { old(self).root_count() + 1 } else { old(self).root_count() }),
            forall|i: int| 0 <= i < old(self).root_count() && i != r.slot ==> #[trigger] final(self).root_pointer(i) == old(self).root_pointer(i)
                && final(self).root_generation(i) == old(self).root_generation(i),
            final(self).same_slots(&*old(self)),
            final(self).id() == old(self).id(),
            final(self).threshold() == old(self).threshold(),
            final(self).stress() == old(self).stress(),
            final(self).epoch() == old(self).epoch(),
            final(self).deferred() == old(self).deferred(),
    {
        let ghost pre = *self;
        let slot = match self.free_runtime_root_list.pop() {
            Some(slot) => {
                let generation = self.runtime_roots[slot].generation;
                self.runtime_roots.set(slot, RootSlot { generation, pointer: Some(pointer) });
                proof {
                    assert forall|k: int| 0 <= k < self.free_roots().len() implies (#[trigger] self.free_roots()[k]) < self.root_count()
                        && self.root_pointer(self.free_roots()[k] as int) is None by {
                        assert(pre.free_roots()[k] != pre.free_roots()[pre.free_roots().len() - 1]);
                    }
                }
                slot
            },
            None => {
                let slot = self.runtime_roots.len();
                self.runtime_roots.push(RootSlot { generation: 0, pointer: Some(pointer) });
                slot
            },
        };
        proof {
            assert forall|i: int| 0 <= i < self.root_count() && (#[trigger] self.root_pointer(i)) is Some
                implies self.valid_ptr(self.root_pointer(i).unwrap()) by {
                if i != slot {
                    assert(pre.root_pointer(i) is Some);
                }
            }
        }
        proof {
            lemma_slots_frame(pre, *self);
        }
        RootedPtr { heap_id: self.id, slot, generation: self.runtime_roots[slot].generation }
    }

    /// Releases a live token; a token that is not live is ignored.
    pub fn unregister_runtime_root(&mut self, root: RootedPtr)
        requires
            old(self).wf(),
        ensures
            final(self).wf(),
            final(self).root_count() == old(self).root_count(),
            forall|i: int| 0 <= i < old(self).root_count() && i != root.slot ==> #[trigger] final(self).root_pointer(i) == old(self).root_pointer(i)
                && final(self).root_generation(i) == old(self).root_generation(i),
            old(self).live_root(root) ==> final(self).root_pointer(root.slot as int) is None
                && final(self).root_generation(root.slot as int) == old(self).root_generation(root.slot as int).wrapping_add(1),
            !old(self).live_root(root) ==> final(self).same_objects(&*old(self)),
            final(self).same_slots(&*old(self)),
            final(self).id() == old(self).id(),
            final(self).threshold() == old(self).threshold(),
            final(self).stress() == old(self).stress(),
            final(self).epoch() == old(self).epoch(),
            final(self).deferred() == old(self).deferred(),
    {
        if root.heap_id != self.id {
            return;
        }
        if root.slot >= self.runtime_roots.len() {
            return;
        }
        let entry = self.runtime_roots[root.slot];
        if entry.generation != root.generation || entry.pointer.is_none() {
            return;
        }
        let ghost pre = *self;
        self.runtime_roots.set(
            root.slot,
            RootSlot { generation: entry.generation.wrapping_add(1), pointer: None },
        );
        self.free_runtime_root_list.push(root.slot);
        proof {
            lemma_slots_frame(pre, *self);
            assert forall|k: int| 0 <= k < self.free_roots().len() implies (#[trigger] self.free_roots()[k]) < self.root_count()
                && self.root_pointer(self.free_roots()[k] as int) is None by {
                if k < pre.free_roots().len() {
                    assert(pre.free_roots()[k] < pre.root_count());
                }
            }
            assert forall|a: int, b: int| 0 <= a < b < self.free_roots().len() implies #[trigger] self.free_roots()[a] != #[trigger] self.free_roots()[b] by {
                if b == pre.free_roots().len() {
                    assert(pre.root_pointer(pre.free_roots()[a] as int) is None);
                }
            }
            assert forall|i: int| 0 <= i < self.root_count() && (#[trigger] self.root_pointer(i)) is Some
                implies self.valid_ptr(self.root_pointer(i).unwrap()) by {
                assert(pre.root_pointer(i) is Some);
            }
        }
    }

    /// The object that a live token stands for.
    pub fn resolve_runtime_root(&self, root: RootedPtr) -> (p: InternalPtr)
        requires
            self.live_root(root),
        ensures
            p == self.root_target(root),
    {
        match self.runtime_roots[root.slot].pointer {
            Some(p) => p,
            None => {
                proof {
                    assert(false);
                }
                InternalPtr { heap_id: 0, index: 0, generation: 0 }
            },
        }
    }

    /// Replaces the object that `pointer` names; pointers to it stay valid.
    pub fn overwrite(&mut self, pointer: &InternalPtr, cell: Cell) -> (res: Result<(), EngineError>)
        requires
            old(self).wf(),
            old(self).holds_valid(cell@),
        ensures
            final(self).wf(),
            final(self).same_roots(&*old(self)),
            final(self).slot_count() == old(self).slot_count(),
            final(self).threshold() == old(self).threshold(),
            final(self).stress() == old(self).stress(),
            final(self).epoch() == old(self).epoch(),
            final(self).deferred() == old(self).deferred(),
            match res {
                Ok(()) => old(self).valid_ptr(*pointer)
                    && final(self).cell_at(*pointer) == cell@
                    && forall|q: InternalPtr| #[trigger] old(self).valid_ptr(q) ==> final(self).valid_ptr(q)
                        && (q.index != pointer.index ==> final(self).cell_at(q) == old(self).cell_at(q)),
                Err(_) => !old(self).valid_ptr(*pointer) && final(self).same_objects(&*old(self)),
            },
    {
        if pointer.heap_id != self.id {
            return Err(
                EngineError::WrongHeapPointer {
                    pointer_heap_id: pointer.heap_id,
                    heap_id: self.id,
                    slot: pointer.index,
                    generation: pointer.generation,
                },
            );
        }
        let index = pointer.index as usize;
        if index >= self.slots.len() || self.slots[index].generation != pointer.generation {
            return Err(
                EngineError::InvalidPointer {
                    heap_id: self.id,
                    slot: pointer.index,
                    generation: pointer.generation,
                },
            );
        }
        let ghost pre = *self;
        let generation = self.slots[index].generation;
        self.slots.set(index, HeapSlot { generation, cell: Some(cell) });
        proof {
            assert forall|q: InternalPtr| pre.valid_ptr(q) implies self.valid_ptr(q) by {}
            assert forall|i: int, k: int|
                0 <= i < self.slot_count() && 0 <= k < children(self.slot_cell(i)).len()
                implies self.valid_ptr(#[trigger] children(self.slot_cell(i))[k]) by {
                if i != index {
                    assert(pre.valid_ptr(children(pre.slot_cell(i))[k]));
                } else {
                    assert(pre.valid_ptr(children(cell@)[k]));
                }
            }
            assert forall|i: int| 0 <= i < self.root_count() && (#[trigger] self.root_pointer(i)) is Some
                implies self.valid_ptr(self.root_pointer(i).unwrap()) by {
                assert(pre.valid_ptr(pre.root_pointer(i).unwrap()));
            }
            assert forall|i: int| 0 <= i < self.slot_count() implies #[trigger] self.slot_generation(i) <= self.epoch() by {
                assert(pre.slot_generation(i) <= pre.epoch());
            }
            assert forall|i: int| 0 <= i < self.slot_count() implies #[trigger] self.slot_has_cell(i) by {
                assert(pre.slot_has_cell(i));
            }
        }
        Ok(())
    }
}

/// The objects that the root entries `0..r` name, in table order.
pub open spec fn root_list(h: Heap, r: nat) -> Seq<InternalPtr>
    decreases r,
{
    if r == 0 {
        Seq::empty()
    } else {
        let rest = root_list(h, (r - 1) as nat);
        match h.root_pointer(r - 1) {
            Some(p) => rest.push(p),
            None => rest,
        }
    }
}

/// Some object of `live` sits in slot `i`.
pub open spec fn holds_index(live: Seq<InternalPtr>, i: int) -> bool {
    exists|k: int| 0 <= k < live.len() && (#[trigger] live[k]).index == i
}

/// The breadth-first walk of the collector: `live` are the objects found so
/// far, in order, and `work` the objects still to visit from position
/// `head` on. An object whose slot was already found is skipped; a new one
/// is found and its pointers join the end of the work.
pub open spec fn walk_from(h: Heap, work: Seq<InternalPtr>, head: nat, live: Seq<InternalPtr>) -> Seq<InternalPtr>
    decreases h.slot_count() - live.len(), work.len() - head,
{
    if live.len() >= h.slot_count() || head >= work.len() {
        live
    } else {
        let p = work[head as int];
        if holds_index(live, p.index as int) {
            walk_from(h, work, head + 1, live)
        } else {
            walk_from(h, work + children(h.cell_at(p)), head + 1, live.push(p))
        }
    }
}

/// The objects a collection keeps, in the order the walk from the root
/// entries (in table order) finds them.
pub open spec fn walk_order(h: Heap) -> Seq<InternalPtr> {
    walk_from(h, root_list(h, h.root_count()), 0, Seq::empty())
}

/// The new slot of each kept object, by its place in the walk: the same
/// place, or in stress mode the shuffled destinations seeded by the number
/// of completed collections.
pub open spec fn slot_layout(h: Heap) -> Seq<usize> {
    let order = walk_order(h);
    if h.stress() {
        gc_destinations(order.map_values(|p: InternalPtr| p.index), h.epoch())
    } else {
        Seq::new(order.len(), |k: int| k as usize)
    }
}

/// What a completed collection leaves: `f` relates the heaps as `evolves`
/// says; the collection count went up by one; every slot of `b` holds a copy
/// of exactly one survivor, stamped with the new epoch, so no pointer into
/// `a` names an object of `b`; the threshold was recomputed from the
/// survivors; and in stress mode, with more than one survivor, every
/// survivor changed slot.
pub open spec fn collected(a: Heap, b: Heap, f: Map<InternalPtr, InternalPtr>) -> bool {
    &&& evolves(a, b, f)
    &&& forall|s: Set<InternalPtr>, p: InternalPtr| #[trigger] root_closed(a, s) && #[trigger] f.contains_key(p) ==> s.contains(p)
    &&& b.slot_count() == walk_order(a).len()
    &&& forall|k: int| 0 <= k < walk_order(a).len() ==> f.contains_key(#[trigger] walk_order(a)[k])
        && f[walk_order(a)[k]].index as int == slot_layout(a)[k] as int
    &&& b.root_count() == a.root_count()
    &&& b.epoch() == a.epoch() + 1
    &&& b.slot_count() <= a.slot_count()
    &&& forall|i: int| 0 <= i < b.slot_count() ==> #[trigger] b.slot_generation(i) == b.epoch()
    &&& forall|i: int| 0 <= i < b.slot_count() ==> #[trigger] is_image_index(f, i)
    &&& forall|p: InternalPtr| #[trigger] a.valid_ptr(p) ==> !b.valid_ptr(p)
    &&& b.threshold() == next_threshold(b.slot_count() as int)
    &&& b.stress() == a.stress()
    &&& b.deferred() == a.deferred()
    &&& (a.stress() && b.slot_count() > 1 ==> forall|p: InternalPtr| #[trigger] f.contains_key(p) ==> f[p].index != p.index)
}

/// `s` holds every object a root names and every object that an object of
/// `s` holds: the objects reachable from the roots lie in any such set.
pub open spec fn root_closed(h: Heap, s: Set<InternalPtr>) -> bool {
    &&& forall|i: int| 0 <= i < h.root_count() && (#[trigger] h.root_pointer(i)) is Some ==> s.contains(h.root_pointer(i).unwrap())
    &&& forall|p: InternalPtr, k: int| s.contains(p) && h.valid_ptr(p) && 0 <= k < children(h.cell_at(p)).len()
        ==> s.contains(#[trigger] children(h.cell_at(p))[k])
}

/// Some survivor moved to slot `i`.
pub open spec fn is_image_index(f: Map<InternalPtr, InternalPtr>, i: int) -> bool {
    exists|p: InternalPtr| #[trigger] f.contains_key(p) && f[p].index == i
}

proof fn lemma_contains_grows(a: Seq<InternalPtr>, b: Seq<InternalPtr>, x: InternalPtr)
    requires
        a.contains(x),
        b.len() >= a.len(),
        forall|j: int| 0 <= j < a.len() ==> a[j] == b[j],
    ensures
        b.contains(x),
{
    let j = choose|j: int| 0 <= j < a.len() && a[j] == x;
    assert(b[j] == x);
}

impl Heap {
    /// Copies every object reachable from the runtime roots into a fresh
    /// slot table, in breadth-first order (shuffled in stress mode), and
    /// rewrites every pointer and root entry to the copies.
    #[verifier::loop_isolation(false)]
    #[verifier::rlimit(50)]
    pub fn collect(&mut self) -> (res: Result<(), EngineError>)
        requires
            old(self).wf(),
        ensures
            final(self).wf(),
            match res {
                Ok(()) => old(self).epoch() < u64::MAX
                    && exists|f: Map<InternalPtr, InternalPtr>| collected(*old(self), *final(self), f),
                Err(e) => old(self).epoch() == u64::MAX && e is CollectionCountExhausted
                    && final(self).same_objects(&*old(self))
                    && final(self).epoch() == old(self).epoch()
                    && final(self).threshold() == old(self).threshold()
                    && final(self).stress() == old(self).stress()
                    && final(self).deferred() == old(self).deferred(),
            },
    {
        if self.collection_epoch == u64::MAX {
            return Err(EngineError::CollectionCountExhausted);
        }
        let next_epoch = self.collection_epoch + 1;
        let ghost h = *self;
        let n = self.slots.len();

        // The roots, in table order, start the breadth-first walk.
        let mut work: Vec<InternalPtr> = Vec::new();
        let mut r: usize = 0;
        while r < self.runtime_roots.len()
            invariant
                0 <= r <= self.runtime_roots.len(),
                *self == h,
                work@ == root_list(h, r as nat),
                forall|j: int| 0 <= j < work@.len() ==> h.valid_ptr(#[trigger] work@[j]),
                forall|i: int| 0 <= i < r && (#[trigger] h.root_pointer(i)) is Some ==> work@.contains(h.root_pointer(i).unwrap()),
                forall|c: Set<InternalPtr>, j: int| #![trigger root_closed(h, c), work@[j]] root_closed(h, c) && 0 <= j < work@.len() ==> c.contains(work@[j]),
            decreases self.runtime_roots.len() - r,
        {
            match self.runtime_roots[r].pointer {
                Some(p) => {
                    let ghost before = work@;
                    proof {
                        assert(h.root_pointer(r as int) == Some(p));
                        assert(h.valid_ptr(p));
                    }
                    work.push(p);
                    proof {
                        assert(work@[work@.len() - 1] == p);
                        assert forall|c: Set<InternalPtr>, j: int| #![trigger root_closed(h, c), work@[j]] root_closed(h, c) && 0 <= j < work@.len() implies c.contains(work@[j]) by {
                            if j < before.len() {
                                assert(work@[j] == before[j]);
                            }
                        }
                        assert forall|i: int| 0 <= i < r && (#[trigger] h.root_pointer(i)) is Some implies work@.contains(h.root_pointer(i).unwrap()) by {
                            lemma_contains_grows(before, work@, h.root_pointer(i).unwrap());
                        }
                    }
                },
                None => {},
            }
            r += 1;
        }

        let mut seen: Vec<bool> = Vec::new();
        let mut z: usize = 0;
        while z < n
            invariant
                0 <= z <= n,
                seen@.len() == z,
                forall|i: int| 0 <= i < z ==> !(#[trigger] seen@[i]),
            decreases n - z,
        {
            seen.push(false);
            z += 1;
        }

        let mut live: Vec<InternalPtr> = Vec::new();
        let mut live_cells: Vec<Cell> = Vec::new();
        let ghost mut pos: Map<int, int> = Map::empty();
        let ghost mut unseen: Set<int> = vstd::set_lib::set_int_range(0, n as int);
        proof {
            vstd::set_lib::lemma_int_range(0, n as int);
        }
        let mut head: usize = 0;
        proof {
            assert(live@ =~= Seq::<InternalPtr>::empty());
        }
        while head < work.len()
            invariant
                *self == h,
                n == h.slot_count(),
                walk_from(h, work@, head as nat, live@) == walk_order(h),
                seen@.len() == n,
                0 <= head <= work@.len(),
                forall|j: int| 0 <= j < work@.len() ==> h.valid_ptr(#[trigger] work@[j]),
                forall|j: int| 0 <= j < head ==> #[trigger] seen@[work@[j].index as int],
                live@.len() == live_cells@.len(),
                forall|k: int| 0 <= k < live@.len() ==> {
                    &&& h.valid_ptr(#[trigger] live@[k])
                    &&& live_cells@[k]@ == h.cell_at(live@[k])
                    &&& seen@[live@[k].index as int]
                    &&& pos.contains_key(live@[k].index as int)
                    &&& pos[live@[k].index as int] == k
                },
                forall|i: int| 0 <= i < n && #[trigger] seen@[i] ==> pos.contains_key(i) && 0 <= pos[i] < live@.len()
                    && live@[pos[i]].index == i,
                forall|k: int, t: int| 0 <= k < live@.len() && 0 <= t < children(live_cells@[k]@).len()
                    ==> work@.contains(#[trigger] children(live_cells@[k]@)[t]),
                forall|i: int| 0 <= i < h.root_count() && (#[trigger] h.root_pointer(i)) is Some ==> work@.contains(h.root_pointer(i).unwrap()),
                forall|c: Set<InternalPtr>, j: int| #![trigger root_closed(h, c), work@[j]] root_closed(h, c) && 0 <= j < work@.len() ==> c.contains(work@[j]),
                forall|k: int| 0 <= k < live@.len() ==> work@.contains(#[trigger] live@[k]),
                unseen.finite(),
                unseen.len() + live@.len() == n,
                forall|i: int| #[trigger] unseen.contains(i) <==> 0 <= i < n && !seen@[i],
            decreases unseen.len(), work@.len() - head,
        {
            let p = work[head];
            proof {
                if live@.len() < n {
                    if seen@[p.index as int] {
                        assert(live@[pos[p.index as int]].index == p.index);
                        assert(holds_index(live@, p.index as int));
                    } else {
                        if holds_index(live@, p.index as int) {
                            let k = choose|k: int| 0 <= k < live@.len() && (#[trigger] live@[k]).index == p.index as int;
                            assert(seen@[live@[k].index as int]);
                        }
                    }
                }
            }
            let ghost old_head = head;
            head += 1;
            let idx = p.index as usize;
            if seen[idx] {
                proof {
                    assert(walk_from(h, work@, old_head as nat, live@) == walk_from(h, work@, head as nat, live@));
                }
                continue;
            }
            proof {
                assert(unseen.contains(idx as int));
                assert(unseen.remove(idx as int).len() == unseen.len() - 1);
                assert(live@.len() < n);
            }
            let ghost before_work = work@;
            let cell = match &self.slots[idx].cell {
                Some(c) => c.copy(),
                None => {
                    proof {
                        assert(h.slot_has_cell(idx as int));
                        assert(false);
                    }
                    Cell::Empty
                },
            };
            let mut kids = cell.trace_pointers();
            proof {
                assert(cell@ == h.cell_at(p));
                assert forall|t: int| 0 <= t < kids@.len() implies h.valid_ptr(#[trigger] kids@[t]) by {
                    assert(h.valid_ptr(children(h.slot_cell(idx as int))[t]));
                }
            }
            let ghost kids_view = kids@;
            work.append(&mut kids);
            seen.set(idx, true);
            proof {
                pos = pos.insert(idx as int, live@.len() as int);
                assert(unseen.contains(idx as int));
                unseen = unseen.remove(idx as int);
            }
            live.push(p);
            live_cells.push(cell);
            proof {
                assert(work@ == before_work + kids_view);
                assert forall|j: int| 0 <= j < work@.len() implies h.valid_ptr(#[trigger] work@[j]) by {
                    if j >= before_work.len() {
                        assert(work@[j] == kids_view[j - before_work.len()]);
                    }
                }
                assert forall|c: Set<InternalPtr>, j: int| #![trigger root_closed(h, c), work@[j]] root_closed(h, c) && 0 <= j < work@.len() implies c.contains(work@[j]) by {
                    if j >= before_work.len() {
                        assert(work@[j] == kids_view[j - before_work.len()]);
                        assert(c.contains(before_work[head - 1]));
                        assert(kids_view[j - before_work.len()] == children(h.cell_at(p))[j - before_work.len()]);
                    } else {
                        assert(work@[j] == before_work[j]);
                    }
                }
                assert forall|kk: int| 0 <= kk < live@.len() implies work@.contains(#[trigger] live@[kk]) by {
                    if kk == live@.len() - 1 {
                        assert(work@[head - 1] == p);
                    } else {
                        lemma_contains_grows(before_work, work@, live@[kk]);
                    }
                }
                assert forall|k: int, t: int| 0 <= k < live@.len() && 0 <= t < children(live_cells@[k]@).len()
                    implies work@.contains(#[trigger] children(live_cells@[k]@)[t]) by {
                    if k == live@.len() - 1 {
                        assert(work@[before_work.len() + t] == kids_view[t]);
                    } else {
                        lemma_contains_grows(before_work, work@, children(live_cells@[k]@)[t]);
                    }
                }
                assert forall|i: int| 0 <= i < h.root_count() && (#[trigger] h.root_pointer(i)) is Some implies work@.contains(h.root_pointer(i).unwrap()) by {
                    lemma_contains_grows(before_work, work@, h.root_pointer(i).unwrap());
                }
                assert forall|k: int| 0 <= k < live@.len() implies {
                    &&& h.valid_ptr(#[trigger] live@[k])
                    &&& live_cells@[k]@ == h.cell_at(live@[k])
                    &&& seen@[live@[k].index as int]
                    &&& pos.contains_key(live@[k].index as int)
                    &&& pos[live@[k].index as int] == k
                } by {
                    if k < live@.len() - 1 {
                        assert(live@[k].index != idx);
                    }
                }
            }
        }
        let m = live.len();
        proof {
            assert(live@ == walk_order(h));
            // Every child of a copied object was itself copied.
            assert forall|x: InternalPtr| work@.contains(x) implies #[trigger] seen@[x.index as int] by {
                let j = choose|j: int| 0 <= j < work@.len() && work@[j] == x;
                assert(seen@[work@[j].index as int]);
            }
            assert forall|kk: int, t: int| 0 <= kk < live@.len() && 0 <= t < children(h.cell_at(live@[kk])).len()
                implies work@.contains(#[trigger] children(h.cell_at(live@[kk]))[t]) by {
                assert(live_cells@[kk]@ == h.cell_at(live@[kk]));
            }
        }

        // Old slot of each survivor, in walk order.
        let mut old_indices: Vec<u32> = Vec::new();
        let mut q: usize = 0;
        while q < m
            invariant
                0 <= q <= m,
                m == live@.len(),
                old_indices@.len() == q,
                forall|k: int| 0 <= k < q ==> #[trigger] old_indices@[k] == live@[k].index,
            decreases m - q,
        {
            old_indices.push(live[q].index);
            q += 1;
        }
        proof {
            assert forall|a: int, b: int| 0 <= a < old_indices@.len() && 0 <= b < old_indices@.len() && a != b
                implies #[trigger] old_indices@[a] != #[trigger] old_indices@[b] by {
                assert(pos[live@[a].index as int] == a);
                assert(pos[live@[b].index as int] == b);
            }
        }
        let destinations = if self.extreme_stress {
            randomized_gc_destinations(&old_indices, self.collection_epoch)
        } else {
            identity_destinations(m)
        };
        proof {
            lemma_permutation_onto(destinations@, m as nat);
            assert(old_indices@ =~= live@.map_values(|p: InternalPtr| p.index));
            if h.stress() {
                assert(destinations@ == slot_layout(h));
            } else {
                assert(destinations@ =~= slot_layout(h));
            }
        }

        // Forwarding address of each old slot.
        let ghost fptr = |k: int| InternalPtr { heap_id: h.id, index: destinations@[k] as u32, generation: next_epoch };
        let mut forwarding: Vec<Option<InternalPtr>> = Vec::new();
        let mut z2: usize = 0;
        while z2 < n
            invariant
                0 <= z2 <= n,
                forwarding@.len() == z2,
                forall|i: int| 0 <= i < z2 ==> (#[trigger] forwarding@[i]) is None,
            decreases n - z2,
        {
            forwarding.push(None);
            z2 += 1;
        }
        let mut k: usize = 0;
        while k < m
            invariant
                0 <= k <= m,
                forwarding@.len() == n,
                forall|i: int| 0 <= i < n ==> #[trigger] forwarding@[i] == (if seen@[i] && pos[i] < k {
                    Some(fptr(pos[i]))
                } else {
                    None::<InternalPtr>
                }),
            decreases m - k,
        {
            let d = destinations[k];
            let target = InternalPtr { heap_id: self.id, index: d as u32, generation: next_epoch };
            let li = live[k].index as usize;
            forwarding.set(li, Some(target));
            proof {
                assert forall|i: int| 0 <= i < n implies #[trigger] forwarding@[i] == (if seen@[i] && pos[i] < k + 1 {
                    Some(fptr(pos[i]))
                } else {
                    None::<InternalPtr>
                }) by {
                    if i == li as int {
                        assert(pos[li as int] == k);
                    } else if seen@[i] && pos[i] == k {
                        assert(live@[k as int].index == i);
                    }
                }
            }
            k += 1;
        }

        let ghost f = Map::new(|p: InternalPtr| h.valid_ptr(p) && seen@[p.index as int], |p: InternalPtr| fptr(pos[p.index as int]));
        proof {
            assert forall|c: InternalPtr| h.valid_ptr(c) && work@.contains(c) implies f.contains_key(c) by {}
        }

        // Copy each survivor, with its pointers forwarded, into its new slot.
        let mut new_slots: Vec<HeapSlot> = Vec::new();
        let mut z3: usize = 0;
        while z3 < m
            invariant
                0 <= z3 <= m,
                new_slots@.len() == z3,
                forall|i: int| 0 <= i < z3 ==> (#[trigger] new_slots@[i]).generation == next_epoch,
            decreases m - z3,
        {
            new_slots.push(HeapSlot { generation: next_epoch, cell: None });
            z3 += 1;
        }
        while live_cells.len() > 0
            invariant
                new_slots@.len() == m,
                live_cells@.len() <= m,
                forall|i: int| 0 <= i < m ==> (#[trigger] new_slots@[i]).generation == next_epoch,
                forall|j: int| 0 <= j < live_cells@.len() ==> #[trigger] live_cells@[j]@ == h.cell_at(live@[j]),
                forall|j: int| live_cells@.len() <= j < m ==> {
                    &&& (#[trigger] new_slots@[destinations@[j] as int]).cell is Some
                    &&& new_slots@[destinations@[j] as int].cell.unwrap()@ == map_cell(h.cell_at(live@[j]), f)
                },
            decreases live_cells@.len(),
        {
            let cell = match live_cells.pop() {
                Some(c) => c,
                None => {
                    proof {
                        assert(false);
                    }
                    Cell::Empty
                },
            };
            let kj = live_cells.len();
            let kids = cell.trace_pointers();
            let mut mapped: Vec<InternalPtr> = Vec::new();
            let mut t: usize = 0;
            while t < kids.len()
                invariant
                    0 <= t <= kids@.len(),
                    kids@ == children(h.cell_at(live@[kj as int])),
                    mapped@.len() == t,
                    forall|u: int| 0 <= u < t ==> #[trigger] mapped@[u] == f[kids@[u]],
                decreases kids@.len() - t,
            {
                let c = kids[t];
                proof {
                    assert(children(h.cell_at(live@[kj as int]))[t as int] == c);
                    assert(work@.contains(c));
                    assert(h.valid_ptr(c));
                    assert(seen@[c.index as int]);
                }
                let fc = match forwarding[c.index as usize] {
                    Some(x) => x,
                    None => {
                        proof {
                            assert(false);
                        }
                        c
                    },
                };
                mapped.push(fc);
                t += 1;
            }
            proof {
                assert(mapped@ =~= children(h.cell_at(live@[kj as int])).map_values(|p: InternalPtr| f[p]));
            }
            let moved = cell.with_children(mapped);
            let d = destinations[kj];
            new_slots.set(d, HeapSlot { generation: next_epoch, cell: Some(moved) });
            proof {
                assert forall|j: int| live_cells@.len() <= j < m implies {
                    &&& (#[trigger] new_slots@[destinations@[j] as int]).cell is Some
                    &&& new_slots@[destinations@[j] as int].cell.unwrap()@ == map_cell(h.cell_at(live@[j]), f)
                } by {
                    if j != kj {
                        assert(destinations@[j] != destinations@[kj as int]);
                    }
                }
            }
        }

        // Point every root entry at its object's copy.
        let mut ri: usize = 0;
        while ri < self.runtime_roots.len()
            invariant
                0 <= ri <= self.runtime_roots.len(),
                self.runtime_roots@.len() == h.runtime_roots@.len(),
                self.slots == h.slots,
                self.id == h.id,
                self.free_runtime_root_list == h.free_runtime_root_list,
                self.collection_epoch == h.collection_epoch,
                self.next_gc_slot_count == h.next_gc_slot_count,
                self.extreme_stress == h.extreme_stress,
                self.defer_collection == h.defer_collection,
                forall|i: int| 0 <= i < ri ==> (#[trigger] self.runtime_roots@[i]).generation == h.runtime_roots@[i].generation
                    && self.runtime_roots@[i].pointer == (match h.runtime_roots@[i].pointer {
                        Some(p) => Some(f[p]),
                        None => None::<InternalPtr>,
                    }),
                forall|i: int| ri <= i < self.runtime_roots@.len() ==> #[trigger] self.runtime_roots@[i] == h.runtime_roots@[i],
            decreases self.runtime_roots.len() - ri,
        {
            let entry = self.runtime_roots[ri];
            match entry.pointer {
                Some(p) => {
                    proof {
                        assert(h.root_pointer(ri as int) is Some);
                        assert(work@.contains(p));
                    }
                    let fp = match forwarding[p.index as usize] {
                        Some(x) => x,
                        None => {
                            proof {
                                assert(false);
                            }
                            p
                        },
                    };
                    self.runtime_roots.set(ri, RootSlot { generation: entry.generation, pointer: Some(fp) });
                },
                None => {},
            }
            ri += 1;
        }
        self.slots = new_slots;
        self.collection_epoch = next_epoch;
        self.update_next_gc_slot_count();
        proof {
            let b = *self;
            assert(m <= n);
            assert forall|i: int| 0 <= i < m implies b.slot_has_cell(i) && b.slot_generation(i) == next_epoch by {
                assert(has_source(destinations@, i));
                let j = choose|j: int| 0 <= j < destinations@.len() && #[trigger] destinations@[j] == i;
                assert(new_slots@[destinations@[j] as int].cell is Some);
            }
            assert forall|p: InternalPtr| #[trigger] f.contains_key(p) implies b.valid_ptr(f[p]) by {
                let j = pos[p.index as int];
                assert(destinations@[j] < m);
                assert(b.slot_has_cell(destinations@[j] as int));
            }
            assert forall|p: InternalPtr| #[trigger] f.contains_key(p) implies {
                &&& h.valid_ptr(p)
                &&& b.valid_ptr(f[p])
                &&& forall|kk: int| 0 <= kk < children(h.cell_at(p)).len() ==> f.contains_key(#[trigger] children(h.cell_at(p))[kk])
                &&& b.cell_at(f[p]) == map_cell(h.cell_at(p), f)
            } by {
                let j = pos[p.index as int];
                lemma_valid_same_index(h, p, live@[j]);
                assert forall|kk: int| 0 <= kk < children(h.cell_at(p)).len() implies f.contains_key(#[trigger] children(h.cell_at(p))[kk]) by {
                    assert(h.valid_ptr(children(h.slot_cell(p.index as int))[kk]));
                    assert(work@.contains(children(h.cell_at(live@[j]))[kk]));
                }
                assert(b.cell_at(f[p]) == new_slots@[destinations@[j] as int].cell.unwrap()@);
            }
            assert forall|p: InternalPtr, q: InternalPtr|
                #[trigger] f.contains_key(p) && #[trigger] f.contains_key(q) && p != q implies f[p] != f[q] by {
                let jp = pos[p.index as int];
                let jq = pos[q.index as int];
                if f[p] == f[q] {
                    assert(destinations@[jp] as u32 == destinations@[jq] as u32);
                    assert(destinations@[jp] == destinations@[jq]);
                    assert(jp == jq);
                    lemma_valid_same_index(h, p, q);
                }
            }
            assert forall|i: int| 0 <= i < h.root_count() && (#[trigger] h.root_pointer(i)) is Some implies {
                &&& f.contains_key(h.root_pointer(i).unwrap())
                &&& b.root_pointer(i) == Some(f[h.root_pointer(i).unwrap()])
                &&& b.root_generation(i) == h.root_generation(i)
            } by {
                assert(work@.contains(h.root_pointer(i).unwrap()));
                assert(h.valid_ptr(h.root_pointer(i).unwrap()));
            }
            assert forall|i: int| 0 <= i < h.root_count() && (#[trigger] h.root_pointer(i)) is None implies b.root_pointer(i) is None by {}
            assert(evolves(h, b, f));
            assert forall|c: Set<InternalPtr>, p: InternalPtr| #[trigger] root_closed(h, c) && #[trigger] f.contains_key(p) implies c.contains(p) by {
                let j = pos[p.index as int];
                lemma_valid_same_index(h, p, live@[j]);
                let w = choose|w: int| 0 <= w < work@.len() && work@[w] == live@[j];
                assert(c.contains(work@[w]));
            }
            // wf of the new heap.
            assert forall|i: int, kk: int|
                0 <= i < b.slot_count() && 0 <= kk < children(b.slot_cell(i)).len()
                implies b.valid_ptr(#[trigger] children(b.slot_cell(i))[kk]) by {
                assert(has_source(destinations@, i));
                let j = choose|j: int| 0 <= j < destinations@.len() && #[trigger] destinations@[j] == i;
                let c0 = h.cell_at(live@[j]);
                assert(b.slot_cell(i) == map_cell(c0, f));
                crate::cell::lemma_children_len_of_with(c0, children(c0).map_values(|p: InternalPtr| f[p]));
                let c = children(c0)[kk];
                assert(work@.contains(c));
                assert(h.valid_ptr(children(h.slot_cell(live@[j].index as int))[kk]));
                assert(f.contains_key(c));
            }
            assert forall|i: int| 0 <= i < b.root_count() && (#[trigger] b.root_pointer(i)) is Some
                implies b.valid_ptr(b.root_pointer(i).unwrap()) by {
                assert(h.root_pointer(i) is Some);
            }
            assert forall|kk: int| 0 <= kk < b.free_roots().len() implies (#[trigger] b.free_roots()[kk]) < b.root_count()
                && b.root_pointer(b.free_roots()[kk] as int) is None by {
                assert(h.root_pointer(h.free_roots()[kk] as int) is None);
            }
            assert forall|i: int| 0 <= i < b.slot_count() implies #[trigger] b.slot_has_cell(i) by {}
            assert forall|i: int| 0 <= i < b.slot_count() implies #[trigger] b.slot_generation(i) <= b.epoch() by {}
            assert(b.wf());
            // The rest of `collected`.
            assert forall|i: int| 0 <= i < b.slot_count() implies #[trigger] is_image_index(f, i) by {
                assert(has_source(destinations@, i));
                let j = choose|j: int| 0 <= j < destinations@.len() && #[trigger] destinations@[j] == i;
                let p = live@[j];
                assert(f.contains_key(p));
                assert(f[p].index == i);
            }
            assert forall|p: InternalPtr| #[trigger] h.valid_ptr(p) implies !b.valid_ptr(p) by {
                assert(h.slot_generation(p.index as int) <= h.epoch());
                if p.index < m {
                    assert(b.slot_generation(p.index as int) == next_epoch);
                }
            }
            if h.stress() && m > 1 {
                assert(moves_every_object(destinations@, old_indices@));
                assert forall|p: InternalPtr| #[trigger] f.contains_key(p) implies f[p].index != p.index by {
                    let j = pos[p.index as int];
                    assert(destinations@[j] != old_indices@[j] as usize);
                }
            }
            assert forall|k: int| 0 <= k < walk_order(h).len() implies f.contains_key(#[trigger] walk_order(h)[k])
                && f[walk_order(h)[k]].index as int == slot_layout(h)[k] as int by {
                assert(pos[live@[k].index as int] == k);
                assert(destinations@[k] < m);
            }
            assert(collected(h, b, f));
        }
        Ok(())
    }
}

/// Entry `i` of the root table is the same in both heaps.
pub open spec fn same_root_entry(a: Heap, b: Heap, i: int) -> bool {
    b.root_pointer(i) == a.root_pointer(i) && b.root_generation(i) == a.root_generation(i)
}

/// `roots` holds the slot `i`.
pub open spec fn holds_slot(roots: Seq<RootedPtr>, i: int) -> bool {
    exists|k: int| 0 <= k < roots.len() && (#[trigger] roots[k]).slot == i
}

impl Heap {
    /// Roots every pointer of `ptrs`, in order.
    fn register_all(&mut self, ptrs: &Vec<InternalPtr>) -> (res: Vec<RootedPtr>)
        requires
            old(self).wf(),
            forall|k: int| 0 <= k < ptrs@.len() ==> old(self).valid_ptr(#[trigger] ptrs@[k]),
        ensures
            final(self).wf(),
            final(self).same_slots(&*old(self)),
            final(self).id() == old(self).id(),
            final(self).epoch() == old(self).epoch(),
            final(self).threshold() == old(self).threshold(),
            final(self).stress() == old(self).stress(),
            final(self).deferred() == old(self).deferred(),
            final(self).root_count() >= old(self).root_count(),
            res@.len() == ptrs@.len(),
            forall|k: int| 0 <= k < res@.len() ==> final(self).live_root(#[trigger] res@[k])
                && final(self).root_target(res@[k]) == ptrs@[k],
            forall|k: int| 0 <= k < res@.len() && (#[trigger] res@[k]).slot < old(self).root_count()
                ==> old(self).root_pointer(res@[k].slot as int) is None,
            forall|i: int| 0 <= i < old(self).root_count() && !holds_slot(res@, i)
                ==> #[trigger] same_root_entry(*old(self), *final(self), i),
            forall|i: int| old(self).root_count() <= i < final(self).root_count() && !holds_slot(res@, i)
                ==> (#[trigger] final(self).root_pointer(i)) is None,
    {
        let ghost h0 = *self;
        let mut res: Vec<RootedPtr> = Vec::new();
        let mut k: usize = 0;
        while k < ptrs.len()
            invariant
                0 <= k <= ptrs@.len(),
                self.wf(),
                self.same_slots(&h0),
                self.id() == h0.id(),
                self.epoch() == h0.epoch(),
                self.threshold() == h0.threshold(),
                self.stress() == h0.stress(),
                self.deferred() == h0.deferred(),
                self.root_count() >= h0.root_count(),
                forall|j: int| 0 <= j < ptrs@.len() ==> h0.valid_ptr(#[trigger] ptrs@[j]),
                res@.len() == k,
                forall|j: int| 0 <= j < res@.len() ==> self.live_root(#[trigger] res@[j])
                    && self.root_target(res@[j]) == ptrs@[j],
                forall|j: int| 0 <= j < res@.len() && (#[trigger] res@[j]).slot < h0.root_count()
                    ==> h0.root_pointer(res@[j].slot as int) is None,
                forall|i: int| 0 <= i < h0.root_count() && !holds_slot(res@, i)
                    ==> #[trigger] same_root_entry(h0, *self, i),
                forall|i: int| h0.root_count() <= i < self.root_count() && !holds_slot(res@, i)
                    ==> (#[trigger] self.root_pointer(i)) is None,
            decreases ptrs@.len() - k,
        {
            let ghost before = *self;
            let ghost before_res = res@;
            proof {
                assert(before.valid_ptr(ptrs@[k as int]));
            }
            let r = self.register_runtime_root(ptrs[k]);
            res.push(r);
            proof {
                assert(res@[k as int] == r);
                assert forall|j: int| 0 <= j < res@.len() implies self.live_root(#[trigger] res@[j])
                    && self.root_target(res@[j]) == ptrs@[j] by {
                    if j < k {
                        assert(before.live_root(before_res[j]));
                        assert(before_res[j].slot != r.slot);
                    }
                }
                assert forall|j: int| 0 <= j < res@.len() && (#[trigger] res@[j]).slot < h0.root_count()
                    implies h0.root_pointer(res@[j].slot as int) is None by {
                    if j == k {
                        if !holds_slot(before_res, r.slot as int) {
                            assert(same_root_entry(h0, before, r.slot as int));
                        } else {
                            let t = choose|t: int| 0 <= t < before_res.len() && (#[trigger] before_res[t]).slot == r.slot;
                            assert(before.live_root(before_res[t]));
                        }
                    } else {
                        assert(res@[j] == before_res[j]);
                    }
                }
                assert forall|i: int| 0 <= i < h0.root_count() && !holds_slot(res@, i)
                    implies #[trigger] same_root_entry(h0, *self, i) by {
                    assert(res@[k as int].slot == r.slot);
                    assert(i != r.slot);
                    if holds_slot(before_res, i) {
                        let t = choose|t: int| 0 <= t < before_res.len() && (#[trigger] before_res[t]).slot == i;
                        assert(res@[t].slot == i);
                    }
                    assert(same_root_entry(h0, before, i));
                    assert(i < before.root_count());
                    assert(self.root_pointer(i) == before.root_pointer(i));
                    assert(self.root_generation(i) == before.root_generation(i));
                }
                assert forall|i: int| h0.root_count() <= i < self.root_count() && !holds_slot(res@, i)
                    implies (#[trigger] self.root_pointer(i)) is None by {
                    assert(i != r.slot);
                    if holds_slot(before_res, i) {
                        let t = choose|t: int| 0 <= t < before_res.len() && (#[trigger] before_res[t]).slot == i;
                        assert(res@[t].slot == i);
                    }
                }
            }
            k += 1;
        }
        res
    }

    /// Releases every token of `roots`.
    fn release_all(&mut self, roots: &Vec<RootedPtr>)
        requires
            old(self).wf(),
        ensures
            final(self).wf(),
            final(self).same_slots(&*old(self)),
            final(self).id() == old(self).id(),
            final(self).epoch() == old(self).epoch(),
            final(self).threshold() == old(self).threshold(),
            final(self).stress() == old(self).stress(),
            final(self).deferred() == old(self).deferred(),
            final(self).root_count() == old(self).root_count(),
            forall|i: int| 0 <= i < old(self).root_count() && !holds_slot(roots@, i)
                ==> #[trigger] same_root_entry(*old(self), *final(self), i),
            forall|k: int| 0 <= k < roots@.len() && old(self).live_root(#[trigger] roots@[k])
                ==> final(self).root_pointer(roots@[k].slot as int) is None,
            forall|i: int| 0 <= i < old(self).root_count() && old(self).root_pointer(i) is None
                ==> (#[trigger] final(self).root_pointer(i)) is None,
    {
        let ghost h0 = *self;
        let mut k: usize = 0;
        while k < roots.len()
            invariant
                0 <= k <= roots@.len(),
                self.wf(),
                self.same_slots(&h0),
                self.id() == h0.id(),
                self.epoch() == h0.epoch(),
                self.threshold() == h0.threshold(),
                self.stress() == h0.stress(),
                self.deferred() == h0.deferred(),
                self.root_count() == h0.root_count(),
                forall|i: int| 0 <= i < h0.root_count() && !holds_slot(roots@, i)
                    ==> #[trigger] same_root_entry(h0, *self, i),
                forall|j: int| 0 <= j < k && h0.live_root(#[trigger] roots@[j])
                    ==> self.root_pointer(roots@[j].slot as int) is None,
                forall|j: int| k <= j < roots@.len() && h0.live_root(#[trigger] roots@[j])
                    ==> self.live_root(roots@[j]) || self.root_pointer(roots@[j].slot as int) is None,
                forall|i: int| 0 <= i < h0.root_count() && h0.root_pointer(i) is None
                    ==> (#[trigger] self.root_pointer(i)) is None,
            decreases roots@.len() - k,
        {
            let ghost before = *self;
            let r = roots[k];
            self.unregister_runtime_root(r);
            proof {
                assert forall|i: int| 0 <= i < h0.root_count() && !holds_slot(roots@, i)
                    implies #[trigger] same_root_entry(h0, *self, i) by {
                    assert(roots@[k as int].slot == r.slot);
                    if i == r.slot {
                        assert(holds_slot(roots@, i));
                    }
                    assert(i != r.slot);
                    assert(same_root_entry(h0, before, i));
                    assert(self.root_pointer(i) == before.root_pointer(i));
                    assert(self.root_generation(i) == before.root_generation(i));
                }
                assert forall|j: int| 0 <= j < k + 1 && h0.live_root(#[trigger] roots@[j])
                    implies self.root_pointer(roots@[j].slot as int) is None by {
                    if j < k {
                        if roots@[j].slot != r.slot {
                            assert(before.root_pointer(roots@[j].slot as int) is None);
                        }
                    }
                }
                assert forall|j: int| k + 1 <= j < roots@.len() && h0.live_root(#[trigger] roots@[j])
                    implies self.live_root(roots@[j]) || self.root_pointer(roots@[j].slot as int) is None by {
                    assert(before.live_root(roots@[j]) || before.root_pointer(roots@[j].slot as int) is None);
                    if roots@[j].slot == r.slot {
                    }
                }
                assert forall|i: int| 0 <= i < h0.root_count() && h0.root_pointer(i) is None
                    implies (#[trigger] self.root_pointer(i)) is None by {
                    assert(before.root_pointer(i) is None);
                }
            }
            k += 1;
        }
    }
}

/// What an allocation of a cell with contents `c` leaves, given that `f`
/// relates the heaps before and after it: the result is a fresh live object
/// holding `c` with its pointers sent through `f`; a collection ran exactly
/// when one was due and allowed; an error means the collection count or the
/// slot indices ran out.
pub open spec fn allocated(
    a: Heap,
    b: Heap,
    f: Map<InternalPtr, InternalPtr>,
    c: CellView,
    res: Result<InternalPtr, EngineError>,
) -> bool {
    &&& evolves(a, b, f)
    &&& forall|k: int| 0 <= k < children(c).len() ==> f.contains_key(#[trigger] children(c)[k])
    &&& b.stress() == a.stress()
    &&& b.deferred() == a.deferred()
    &&& (a.deferred() || !a.needs_collection() ==> f == identity_on(a) && b.epoch() == a.epoch())
    &&& match res {
        Ok(p) => {
            &&& b.valid_ptr(p)
            &&& b.cell_at(p) == map_cell(c, f)
            &&& forall|q: InternalPtr| #[trigger] f.contains_key(q) ==> f[q] != p
            &&& (!a.deferred() && a.needs_collection() ==> b.epoch() == a.epoch() + 1)
        },
        Err(e) => {
            ||| (e is CollectionCountExhausted && a.epoch() == u64::MAX && b.epoch() == u64::MAX && !a.deferred() && a.needs_collection())
            ||| (e is HeapExhausted && a.slot_count() > u32::MAX && b.slot_count() > u32::MAX)
        },
    }
}

proof fn lemma_identity_evolves(a: Heap, b: Heap)
    requires
        a.wf(),
        b.extends(&a),
        b.same_roots(&a),
    ensures
        evolves(a, b, identity_on(a)),
{
    let f = identity_on(a);
    assert forall|p: InternalPtr| #[trigger] f.contains_key(p) implies {
        &&& a.valid_ptr(p)
        &&& b.valid_ptr(f[p])
        &&& forall|k: int| 0 <= k < children(a.cell_at(p)).len() ==> f.contains_key(#[trigger] children(a.cell_at(p))[k])
        &&& b.cell_at(f[p]) == map_cell(a.cell_at(p), f)
    } by {
        assert(b.slots@[p.index as int] == a.slots@[p.index as int]);
        assert forall|k: int| 0 <= k < children(a.cell_at(p)).len() implies f.contains_key(#[trigger] children(a.cell_at(p))[k]) by {
            assert(a.valid_ptr(children(a.slot_cell(p.index as int))[k]));
        }
        lemma_map_cell_identity(a.cell_at(p), f);
    }
    assert forall|i: int| 0 <= i < a.root_count() && (#[trigger] a.root_pointer(i)) is Some implies {
        &&& f.contains_key(a.root_pointer(i).unwrap())
        &&& b.root_pointer(i) == Some(f[a.root_pointer(i).unwrap()])
        &&& b.root_generation(i) == a.root_generation(i)
    } by {}
}

impl Heap {
    /// The single ordinary allocation path. When a collection is due (and
    /// not deferred), the cell's pointers are rooted for its duration and
    /// rewritten to the moved objects before the cell is placed.
    #[verifier::rlimit(50)]
    pub fn alloc_reference(&mut self, cell: Cell) -> (res: Result<InternalPtr, EngineError>)
        requires
            old(self).wf(),
            old(self).holds_valid(cell@),
        ensures
            final(self).wf(),
            exists|f: Map<InternalPtr, InternalPtr>| allocated(*old(self), *final(self), f, cell@, res),
    {
        let ghost h0 = *self;
        let ghost c0 = cell@;
        if self.defer_collection || !self.collect_needed() {
            let res = self.push_cell(cell);
            proof {
                lemma_identity_evolves(h0, *self);
                let f = identity_on(h0);
                assert forall|k: int| 0 <= k < children(c0).len() implies f.contains_key(#[trigger] children(c0)[k]) by {}
                if let Ok(p) = res {
                    lemma_map_cell_identity(c0, f);
                    assert forall|q: InternalPtr| #[trigger] f.contains_key(q) implies f[q] != p by {}
                }
                assert(allocated(h0, *self, f, c0, res));
            }
            return res;
        }
        let pointers = cell.trace_pointers();
        let roots = self.register_all(&pointers);
        let ghost h1 = *self;
        proof {
            lemma_slots_frame(h0, h1);
        }
        match self.collect() {
            Ok(()) => {},
            Err(e) => {
                self.release_all(&roots);
                proof {
                    let h3 = *self;
                    lemma_slots_frame(h0, h3);
                    let f = identity_on(h0);
                    assert forall|i: int| 0 <= i < h0.root_count() && (#[trigger] h0.root_pointer(i)) is None
                        implies h3.root_pointer(i) is None by {
                        if holds_slot(roots@, i) {
                            let k = choose|k: int| 0 <= k < roots@.len() && (#[trigger] roots@[k]).slot == i;
                            assert(h1.live_root(roots@[k]));
                        } else {
                            assert(same_root_entry(h0, h1, i));
                        }
                    }
                    assert forall|i: int| h0.root_count() <= i < h3.root_count() implies (#[trigger] h3.root_pointer(i)) is None by {
                        if holds_slot(roots@, i) {
                            let k = choose|k: int| 0 <= k < roots@.len() && (#[trigger] roots@[k]).slot == i;
                            assert(h1.live_root(roots@[k]));
                        }
                    }
                    assert forall|i: int| 0 <= i < h0.root_count() && (#[trigger] h0.root_pointer(i)) is Some implies {
                        &&& f.contains_key(h0.root_pointer(i).unwrap())
                        &&& h3.root_pointer(i) == Some(f[h0.root_pointer(i).unwrap()])
                        &&& h3.root_generation(i) == h0.root_generation(i)
                    } by {
                        if holds_slot(roots@, i) {
                            let k = choose|k: int| 0 <= k < roots@.len() && (#[trigger] roots@[k]).slot == i;
                        }
                        assert(same_root_entry(h0, h1, i));
                        assert(same_root_entry(h1, h3, i));
                    }
                    assert forall|p: InternalPtr| #[trigger] f.contains_key(p) implies {
                        &&& h0.valid_ptr(p)
                        &&& h3.valid_ptr(f[p])
                        &&& forall|k: int| 0 <= k < children(h0.cell_at(p)).len() ==> f.contains_key(#[trigger] children(h0.cell_at(p))[k])
                        &&& h3.cell_at(f[p]) == map_cell(h0.cell_at(p), f)
                    } by {
                        assert forall|k: int| 0 <= k < children(h0.cell_at(p)).len() implies f.contains_key(#[trigger] children(h0.cell_at(p))[k]) by {
                            assert(h0.valid_ptr(children(h0.slot_cell(p.index as int))[k]));
                        }
                        lemma_map_cell_identity(h0.cell_at(p), f);
                    }
                    assert(evolves(h0, h3, f));
                    assert(allocated(h0, h3, f, c0, Err(e)));
                }
                return Err(e);
            },
        }
        let ghost h2 = *self;
        let ghost f = choose|f: Map<InternalPtr, InternalPtr>| collected(h1, h2, f);
        let mut relocated: Vec<InternalPtr> = Vec::new();
        let mut k: usize = 0;
        while k < roots.len()
            invariant
                0 <= k <= roots@.len(),
                *self == h2,
                collected(h1, h2, f),
                roots@.len() == pointers@.len(),
                forall|j: int| 0 <= j < roots@.len() ==> h1.live_root(#[trigger] roots@[j])
                    && h1.root_target(roots@[j]) == pointers@[j],
                relocated@.len() == k,
                forall|j: int| 0 <= j < k ==> #[trigger] relocated@[j] == f[pointers@[j]],
            decreases roots@.len() - k,
        {
            let r = roots[k];
            proof {
                assert(h1.live_root(r));
                assert(h1.root_pointer(r.slot as int) is Some);
            }
            let p = self.resolve_runtime_root(r);
            relocated.push(p);
            k += 1;
        }
        self.release_all(&roots);
        let ghost h3 = *self;
        proof {
            assert(relocated@ =~= children(c0).map_values(|p: InternalPtr| f[p]));
            assert forall|t: int| 0 <= t < children(c0).len() implies h3.valid_ptr(#[trigger] relocated@[t]) by {
                assert(h1.valid_ptr(pointers@[t]));
                assert(h1.live_root(roots@[t]));
                assert(h1.root_pointer(roots@[t].slot as int) is Some);
                assert(f.contains_key(pointers@[t]));
                lemma_slots_frame(h2, h3);
            }
        }
        let moved = cell.with_children(relocated);
        proof {
            crate::cell::lemma_children_len_of_with(c0, children(c0).map_values(|p: InternalPtr| f[p]));
        }
        let res = self.push_cell(moved);
        proof {
            let h4 = *self;
            lemma_slots_frame(h2, h3);
            assert forall|i: int| 0 <= i < h0.root_count() && (#[trigger] h0.root_pointer(i)) is Some implies {
                &&& f.contains_key(h0.root_pointer(i).unwrap())
                &&& h4.root_pointer(i) == Some(f[h0.root_pointer(i).unwrap()])
                &&& h4.root_generation(i) == h0.root_generation(i)
            } by {
                if holds_slot(roots@, i) {
                    let k = choose|k: int| 0 <= k < roots@.len() && (#[trigger] roots@[k]).slot == i;
                }
                assert(same_root_entry(h0, h1, i));
                assert(h1.root_pointer(i) is Some);
                assert(same_root_entry(h2, h3, i));
            }
            assert forall|i: int| 0 <= i < h0.root_count() && (#[trigger] h0.root_pointer(i)) is None
                implies h4.root_pointer(i) is None by {
                assert(h4.root_pointer(i) == h3.root_pointer(i));
                if holds_slot(roots@, i) {
                    let k = choose|k: int| 0 <= k < roots@.len() && (#[trigger] roots@[k]).slot == i;
                    assert(h1.live_root(roots@[k]));
                    assert(h1.root_pointer(i) is Some);
                    assert(h2.root_pointer(i) is Some);
                    assert(h2.live_root(roots@[k]));
                } else {
                    assert(same_root_entry(h0, h1, i));
                    assert(h2.root_pointer(i) is None);
                    assert(same_root_entry(h2, h3, i));
                }
            }
            assert forall|i: int| h0.root_count() <= i < h4.root_count() implies (#[trigger] h4.root_pointer(i)) is None by {
                assert(h4.root_pointer(i) == h3.root_pointer(i));
                if holds_slot(roots@, i) {
                    let k = choose|k: int| 0 <= k < roots@.len() && (#[trigger] roots@[k]).slot == i;
                    assert(h1.live_root(roots@[k]));
                    assert(h1.root_pointer(i) is Some);
                    assert(h2.root_pointer(i) is Some);
                    assert(h2.live_root(roots@[k]));
                } else {
                    assert(h1.root_pointer(i) is None);
                    assert(h2.root_pointer(i) is None);
                    assert(same_root_entry(h2, h3, i));
                }
            }
            assert forall|p: InternalPtr| #[trigger] f.contains_key(p) implies {
                &&& h0.valid_ptr(p)
                &&& h4.valid_ptr(f[p])
                &&& forall|k: int| 0 <= k < children(h0.cell_at(p)).len() ==> f.contains_key(#[trigger] children(h0.cell_at(p))[k])
                &&& h4.cell_at(f[p]) == map_cell(h0.cell_at(p), f)
            } by {
                assert(h1.valid_ptr(p));
                assert(h2.valid_ptr(f[p]));
                assert(h2.cell_at(f[p]) == map_cell(h1.cell_at(p), f));
                if res is Ok {
                    assert(h4.slots@[f[p].index as int] == h3.slots@[f[p].index as int]);
                }
            }
            assert(evolves(h0, h4, f));
            assert forall|t: int| 0 <= t < children(c0).len() implies f.contains_key(#[trigger] children(c0)[t]) by {
                assert(h1.live_root(roots@[t]));
                assert(h1.root_pointer(roots@[t].slot as int) is Some);
            }
            if let Ok(p) = res {
                assert forall|q: InternalPtr| #[trigger] f.contains_key(q) implies f[q] != p by {
                    assert(h2.valid_ptr(f[q]));
                }
            }
            assert(allocated(h0, h4, f, c0, res));
        }
        res
    }
}

/// The root-table slots of the tokens `rs`.
pub open spec fn token_slots(rs: Seq<RootedPtr>) -> Set<int> {
    Set::new(|i: int| holds_slot(rs, i))
}

/// The objects that the tokens `rs` stand for in `h`.
pub open spec fn targets(h: Heap, rs: Seq<RootedPtr>) -> Seq<InternalPtr> {
    rs.map_values(|r: RootedPtr| h.root_target(r))
}

/// Every token of `rs` is live in `h`.
pub open spec fn all_live(h: Heap, rs: Seq<RootedPtr>) -> bool {
    forall|k: int| 0 <= k < rs.len() ==> h.live_root(#[trigger] rs[k])
}

/// What rooting `ptrs` leaves: the objects are untouched, the tokens `rs`
/// are new and stand for `ptrs`, and every other root entry is as it was.
pub open spec fn rooted_all(a: Heap, b: Heap, ptrs: Seq<InternalPtr>, rs: Seq<RootedPtr>) -> bool {
    &&& evolves_except(a, b, identity_on(a), token_slots(rs))
    &&& all_live(b, rs)
    &&& targets(b, rs) == ptrs
    &&& forall|p: InternalPtr| #[trigger] a.valid_ptr(p) ==> b.valid_ptr(p) && b.cell_at(p) == a.cell_at(p)
    &&& b.slot_count() == a.slot_count()
    &&& b.epoch() == a.epoch()
    &&& b.threshold() == a.threshold()
    &&& b.stress() == a.stress()
    &&& b.deferred() == a.deferred()
}

/// What an allocation that roots its result leaves, given `f`.
pub open spec fn rooted_alloc_with(
    a: Heap,
    b: Heap,
    f: Map<InternalPtr, InternalPtr>,
    c: CellView,
    res: Result<RootedPtr, EngineError>,
) -> bool {
    &&& forall|k: int| 0 <= k < children(c).len() ==> f.contains_key(#[trigger] children(c)[k])
    &&& b.stress() == a.stress()
    &&& b.deferred() == a.deferred()
    &&& (a.deferred() || !a.needs_collection() ==> f == identity_on(a) && b.epoch() == a.epoch())
    &&& match res {
        Ok(r) => {
            &&& evolves_except(a, b, f, set![r.slot as int])
            &&& b.live_root(r)
            &&& b.cell_at(b.root_target(r)) == map_cell(c, f)
            &&& forall|q: InternalPtr| #[trigger] f.contains_key(q) ==> f[q] != b.root_target(r)
            &&& (!a.deferred() && a.needs_collection() ==> b.epoch() == a.epoch() + 1)
        },
        Err(e) => {
            &&& evolves(a, b, f)
            &&& {
                ||| (e is CollectionCountExhausted && a.epoch() == u64::MAX && b.epoch() == u64::MAX && !a.deferred() && a.needs_collection())
                ||| (e is HeapExhausted && a.slot_count() > u32::MAX && b.slot_count() > u32::MAX)
            }
        },
    }
}

/// What an allocation that roots its result leaves.
pub open spec fn rooted_alloc(a: Heap, b: Heap, c: CellView, res: Result<RootedPtr, EngineError>) -> bool {
    exists|f: Map<InternalPtr, InternalPtr>| #[trigger] rooted_alloc_with(a, b, f, c, res)
}

impl Heap {
    /// Roots every pointer of `ptrs`, in order.
    pub fn root_all(&mut self, ptrs: &Vec<InternalPtr>) -> (rs: Vec<RootedPtr>)
        requires
            old(self).wf(),
            forall|k: int| 0 <= k < ptrs@.len() ==> old(self).valid_ptr(#[trigger] ptrs@[k]),
        ensures
            final(self).wf(),
            rooted_all(*old(self), *final(self), ptrs@, rs@),
    {
        let ghost h0 = *self;
        let rs = self.register_all(ptrs);
        proof {
            let b = *self;
            lemma_slots_frame(h0, b);
            let f = identity_on(h0);
            let fresh = token_slots(rs@);
            assert forall|i: int| 0 <= i < h0.root_count() && (#[trigger] h0.root_pointer(i)) is Some implies {
                &&& !fresh.contains(i)
                &&& f.contains_key(h0.root_pointer(i).unwrap())
                &&& b.root_pointer(i) == Some(f[h0.root_pointer(i).unwrap()])
                &&& b.root_generation(i) == h0.root_generation(i)
            } by {
                if holds_slot(rs@, i) {
                    let k = choose|k: int| 0 <= k < rs@.len() && (#[trigger] rs@[k]).slot == i;
                }
                assert(same_root_entry(h0, b, i));
            }
            assert forall|i: int| 0 <= i < h0.root_count() && (#[trigger] h0.root_pointer(i)) is None && !fresh.contains(i)
                implies b.root_pointer(i) is None by {
                assert(same_root_entry(h0, b, i));
            }
            assert forall|p: InternalPtr| #[trigger] f.contains_key(p) implies {
                &&& h0.valid_ptr(p)
                &&& b.valid_ptr(f[p])
                &&& forall|k: int| 0 <= k < children(h0.cell_at(p)).len() ==> f.contains_key(#[trigger] children(h0.cell_at(p))[k])
                &&& b.cell_at(f[p]) == map_cell(h0.cell_at(p), f)
            } by {
                assert forall|k: int| 0 <= k < children(h0.cell_at(p)).len() implies f.contains_key(#[trigger] children(h0.cell_at(p))[k]) by {
                    assert(h0.valid_ptr(children(h0.slot_cell(p.index as int))[k]));
                }
                lemma_map_cell_identity(h0.cell_at(p), f);
            }
            assert(targets(b, rs@) =~= ptrs@);
        }
        rs
    }

    /// Allocates `cell` and roots the result.
    pub fn alloc_root(&mut self, cell: Cell) -> (res: Result<RootedPtr, EngineError>)
        requires
            old(self).wf(),
            old(self).holds_valid(cell@),
        ensures
            final(self).wf(),
            rooted_alloc(*old(self), *final(self), cell@, res),
    {
        let ghost h0 = *self;
        let ghost c0 = cell@;
        let res = self.alloc_reference(cell);
        let ghost h1 = *self;
        let ghost f = choose|f: Map<InternalPtr, InternalPtr>| allocated(h0, h1, f, c0, res);
        match res {
            Ok(p) => {
                let r = self.register_runtime_root(p);
                proof {
                    let h2 = *self;
                    lemma_slots_frame(h1, h2);
                    let fresh = set![r.slot as int];
                    assert forall|i: int| 0 <= i < h0.root_count() && (#[trigger] h0.root_pointer(i)) is Some implies {
                        &&& !fresh.contains(i)
                        &&& f.contains_key(h0.root_pointer(i).unwrap())
                        &&& h2.root_pointer(i) == Some(f[h0.root_pointer(i).unwrap()])
                        &&& h2.root_generation(i) == h0.root_generation(i)
                    } by {
                        assert(h1.root_pointer(i) is Some);
                        assert(i != r.slot);
                    }
                    assert forall|i: int| 0 <= i < h0.root_count() && (#[trigger] h0.root_pointer(i)) is None && !fresh.contains(i)
                        implies h2.root_pointer(i) is None by {
                        assert(h1.root_pointer(i) is None);
                    }
                    assert forall|i: int| h0.root_count() <= i < h2.root_count() && !fresh.contains(i)
                        implies (#[trigger] h2.root_pointer(i)) is None by {
                        assert(h1.root_pointer(i) is None);
                    }
                    assert(evolves_except(h0, h2, f, fresh));
                    assert(rooted_alloc_with(h0, h2, f, c0, Ok(r)));
                }
                Ok(r)
            },
            Err(e) => {
                proof {
                    assert(rooted_alloc_with(h0, h1, f, c0, Err(e)));
                }
                Err(e)
            },
        }
    }

    /// The object that a live token stands for (always found in a
    /// consistent heap).
    pub fn get_cell_from_rooted_ptr(&self, root: RootedPtr) -> (res: Result<&Cell, EngineError>)
        requires
            self.wf(),
            self.live_root(root),
        ensures
            res is Ok,
            res matches Ok(c) ==> c@ == self.cell_at(self.root_target(root)),
    {
        let p = self.resolve_runtime_root(root);
        proof {
            assert(self.root_pointer(root.slot as int) is Some);
        }
        self.get_cell_from_pointer(&p)
    }
}

/// The composition of two forwarding maps.
pub open spec fn compose(f: Map<InternalPtr, InternalPtr>, g: Map<InternalPtr, InternalPtr>) -> Map<InternalPtr, InternalPtr> {
    Map::new(|p: InternalPtr| f.contains_key(p) && g.contains_key(f[p]), |p: InternalPtr| g[f[p]])
}

/// Two successive operations relate the first heap to the last through the
/// composition of their forwarding maps.
pub proof fn lemma_evolves_compose(
    a: Heap,
    b: Heap,
    c: Heap,
    f: Map<InternalPtr, InternalPtr>,
    g: Map<InternalPtr, InternalPtr>,
    s1: Set<int>,
    s2: Set<int>,
)
    requires
        evolves_except(a, b, f, s1),
        evolves_except(b, c, g, s2),
    ensures
        evolves_except(a, c, compose(f, g), s1 + s2),
{
    let h = compose(f, g);
    assert forall|i: int| 0 <= i < a.root_count() && (#[trigger] a.root_pointer(i)) is Some implies {
        &&& !(s1 + s2).contains(i)
        &&& h.contains_key(a.root_pointer(i).unwrap())
        &&& c.root_pointer(i) == Some(h[a.root_pointer(i).unwrap()])
        &&& c.root_generation(i) == a.root_generation(i)
    } by {
        assert(b.root_pointer(i) is Some);
    }
    assert forall|i: int| 0 <= i < a.root_count() && (#[trigger] a.root_pointer(i)) is None && !(s1 + s2).contains(i)
        implies c.root_pointer(i) is None by {
        assert(b.root_pointer(i) is None);
    }
    assert forall|i: int| a.root_count() <= i < c.root_count() && !(s1 + s2).contains(i)
        implies (#[trigger] c.root_pointer(i)) is None by {
        if i < b.root_count() {
            assert(b.root_pointer(i) is None);
        }
    }
    assert forall|p: InternalPtr| #[trigger] h.contains_key(p) implies {
        &&& a.valid_ptr(p)
        &&& c.valid_ptr(h[p])
        &&& forall|k: int| 0 <= k < children(a.cell_at(p)).len() ==> h.contains_key(#[trigger] children(a.cell_at(p))[k])
        &&& c.cell_at(h[p]) == map_cell(a.cell_at(p), h)
    } by {
        let ca = a.cell_at(p);
        let cb = b.cell_at(f[p]);
        assert(cb == map_cell(ca, f));
        crate::cell::lemma_children_len_of_with(ca, children(ca).map_values(|q: InternalPtr| f[q]));
        assert forall|k: int| 0 <= k < children(ca).len() implies h.contains_key(#[trigger] children(ca)[k]) by {
            assert(f.contains_key(children(ca)[k]));
            assert(children(cb)[k] == f[children(ca)[k]]);
            assert(g.contains_key(children(cb)[k]));
        }
        assert forall|k: int| 0 <= k < children(ca).len() implies f.contains_key(#[trigger] children(ca)[k])
            && h.contains_key(children(ca)[k]) && h[children(ca)[k]] == g[f[children(ca)[k]]] by {
            assert(h.contains_key(children(ca)[k]));
        }
        crate::cell::lemma_map_cell_compose(ca, f, g, h);
    }
    assert forall|p: InternalPtr, q: InternalPtr|
        #[trigger] h.contains_key(p) && #[trigger] h.contains_key(q) && p != q implies h[p] != h[q] by {
        assert(f[p] != f[q]);
    }
}

/// A token that was live before an operation, and is not one of the tokens
/// it handed out, is live after it and stands for its object's new address.
pub proof fn lemma_root_follows(a: Heap, b: Heap, f: Map<InternalPtr, InternalPtr>, s: Set<int>, r: RootedPtr)
    requires
        evolves_except(a, b, f, s),
        a.live_root(r),
    ensures
        b.live_root(r),
        f.contains_key(a.root_target(r)),
        b.root_target(r) == f[a.root_target(r)],
        !s.contains(r.slot as int),
{
    assert(a.root_pointer(r.slot as int) is Some);
}

/// The identity on a heap is related to itself by `evolves`.
pub proof fn lemma_evolves_refl(a: Heap)
    requires
        a.wf(),
    ensures
        evolves(a, a, identity_on(a)),
{
    lemma_identity_evolves(a, a);
}

/// How many of the first `n` root-table entries hold a pointer.
pub open spec fn live_roots_below(h: Heap, n: int) -> nat
    decreases n,
{
    if n <= 0 {
        0
    } else {
        live_roots_below(h, n - 1) + if h.root_pointer(n - 1) is Some { 1nat } else { 0nat }
    }
}

/// How many root-table entries hold a pointer.
pub open spec fn live_roots(h: Heap) -> nat {
    live_roots_below(h, h.root_count() as int)
}

impl Heap {
    /// The number of live runtime roots.
    pub fn live_root_count(&self) -> (n: usize)
        ensures
            n == live_roots(*self),
    {
        let mut n: usize = 0;
        let mut i: usize = 0;
        while i < self.runtime_roots.len()
            invariant
                0 <= i <= self.runtime_roots@.len(),
                n == live_roots_below(*self, i as int),
                n <= i,
            decreases self.runtime_roots@.len() - i,
        {
            if self.runtime_roots[i].pointer.is_some() {
                n = n + 1;
            }
            i += 1;
        }
        n
    }
}

proof fn lemma_live_roots_evolves(a: Heap, b: Heap, f: Map<InternalPtr, InternalPtr>, n: int)
    requires
        evolves(a, b, f),
        0 <= n <= b.root_count(),
    ensures
        live_roots_below(b, n) == live_roots_below(a, if n <= a.root_count() { n } else { a.root_count() as int }),
    decreases n,
{
    if n > 0 {
        lemma_live_roots_evolves(a, b, f, n - 1);
        if n - 1 < a.root_count() {
            if a.root_pointer(n - 1) is Some {
                assert(b.root_pointer(n - 1) is Some);
            } else {
                assert(b.root_pointer(n - 1) is None);
            }
        } else {
            assert(b.root_pointer(n - 1) is None);
        }
    }
}

/// An operation that relates two heaps by `evolves` (a collection, a failed
/// allocation) neither adds nor drops a live runtime root: in particular the
/// roots that a failed allocation took for its cell's pointers are released.
pub proof fn law_evolves_keeps_live_roots(a: Heap, b: Heap, f: Map<InternalPtr, InternalPtr>)
    requires
        evolves(a, b, f),
    ensures
        live_roots(b) == live_roots(a),
{
    lemma_live_roots_evolves(a, b, f, b.root_count() as int);
}

/// A collection relocates every live root: the root stays live, now names
/// an object of the new epoch whose contents are the old object's with its
/// pointers forwarded, and the pointer it held before names nothing.
pub proof fn law_collect_relocates_roots(a: Heap, b: Heap, f: Map<InternalPtr, InternalPtr>, r: RootedPtr)
    requires
        a.wf(),
        b.wf(),
        collected(a, b, f),
        a.live_root(r),
    ensures
        b.live_root(r),
        b.root_target(r) == f[a.root_target(r)],
        b.cell_at(b.root_target(r)) == map_cell(a.cell_at(a.root_target(r)), f),
        b.root_target(r).generation == b.epoch(),
        a.root_target(r).generation < b.root_target(r).generation,
        !b.valid_ptr(a.root_target(r)),
{
    lemma_root_follows(a, b, f, Set::empty(), r);
    let p = a.root_target(r);
    assert(a.root_pointer(r.slot as int) is Some);
    assert(a.valid_ptr(p));
    assert(a.slot_generation(p.index as int) <= a.epoch());
    let q = b.root_target(r);
    assert(b.valid_ptr(q));
    assert(b.slot_generation(q.index as int) == b.epoch());
}

/// In stress mode a collection that keeps more than one object moves every
/// live root to another slot.
pub proof fn law_stress_collect_moves_roots(a: Heap, b: Heap, f: Map<InternalPtr, InternalPtr>, r: RootedPtr)
    requires
        collected(a, b, f),
        a.stress(),
        b.slot_count() > 1,
        a.live_root(r),
    ensures
        b.live_root(r),
        b.root_target(r).index != a.root_target(r).index,
{
    lemma_root_follows(a, b, f, Set::empty(), r);
}


/// The token for root entry `i` of `h`, as the heap hands it out.
pub open spec fn entry_token(h: Heap, i: int) -> RootedPtr {
    RootedPtr { heap_id: h.id(), slot: i as usize, generation: h.root_generation(i) }
}

/// `b` is `a` with every live root entry whose token is not among `live`
/// released, and nothing else changed.
pub open spec fn pruned(a: Heap, b: Heap, live: Seq<RootedPtr>) -> bool {
    &&& b.same_slots(&a)
    &&& b.id() == a.id()
    &&& b.epoch() == a.epoch()
    &&& b.threshold() == a.threshold()
    &&& b.stress() == a.stress()
    &&& b.deferred() == a.deferred()
    &&& b.root_count() == a.root_count()
    &&& forall|i: int| 0 <= i < a.root_count() ==> if (#[trigger] a.root_pointer(i)) is Some && !live.contains(entry_token(a, i)) {
        b.root_pointer(i) is None && b.root_generation(i) == a.root_generation(i).wrapping_add(1)
    } else {
        b.root_pointer(i) == a.root_pointer(i) && b.root_generation(i) == a.root_generation(i)
    }
}

/// Whether `t` is among `v`.
fn contains_token(v: &Vec<RootedPtr>, t: RootedPtr) -> (b: bool)
    ensures
        b == v@.contains(t),
{
    let mut i: usize = 0;
    while i < v.len()
        invariant
            0 <= i <= v@.len(),
            forall|j: int| 0 <= j < i ==> v@[j] != t,
        decreases v@.len() - i,
    {
        if v[i] == t {
            proof {
                assert(v@[i as int] == t);
            }
            return true;
        }
        i += 1;
    }
    false
}

impl Heap {
    /// When a collection is due, releases every runtime root whose token is
    /// not among `live_roots` and collects; otherwise does nothing.
    pub fn collect_if_needed(&mut self, live_roots: &Vec<RootedPtr>) -> (res: Result<(), EngineError>)
        requires
            old(self).wf(),
        ensures
            final(self).wf(),
            if !old(self).needs_collection() {
                res is Ok && *final(self) == *old(self)
            } else {
                exists|mid: Heap| #[trigger] pruned(*old(self), mid, live_roots@) && mid.wf() && match res {
                    Ok(()) => mid.epoch() < u64::MAX && exists|f: Map<InternalPtr, InternalPtr>| collected(mid, *final(self), f),
                    Err(e) => mid.epoch() == u64::MAX && e is CollectionCountExhausted && final(self).same_objects(&mid),
                }
            },
    {
        if !self.collect_needed() {
            return Ok(());
        }
        let ghost h0 = *self;
        let mut i: usize = 0;
        while i < self.runtime_roots.len()
            invariant
                0 <= i <= self.runtime_roots@.len(),
                self.wf(),
                self.root_count() == h0.root_count(),
                self.same_slots(&h0),
                self.id() == h0.id(),
                self.epoch() == h0.epoch(),
                self.threshold() == h0.threshold(),
                self.stress() == h0.stress(),
                self.deferred() == h0.deferred(),
                forall|j: int| 0 <= j < i ==> if (#[trigger] h0.root_pointer(j)) is Some && !live_roots@.contains(entry_token(h0, j)) {
                    self.root_pointer(j) is None && self.root_generation(j) == h0.root_generation(j).wrapping_add(1)
                } else {
                    self.root_pointer(j) == h0.root_pointer(j) && self.root_generation(j) == h0.root_generation(j)
                },
                forall|j: int| i <= j < h0.root_count() ==> #[trigger] self.root_pointer(j) == h0.root_pointer(j)
                    && self.root_generation(j) == h0.root_generation(j),
            decreases self.runtime_roots@.len() - i,
        {
            let entry = self.runtime_roots[i];
            proof {
                assert(self.root_pointer(i as int) == h0.root_pointer(i as int));
            }
            if entry.pointer.is_some() {
                let token = RootedPtr { heap_id: self.id, slot: i, generation: entry.generation };
                proof {
                    assert(token == entry_token(h0, i as int));
                }
                if !contains_token(live_roots, token) {
                    let ghost pre = *self;
                    self.unregister_runtime_root(token);
                    proof {
                        assert(pre.live_root(token));
                        assert forall|j: int| 0 <= j < h0.root_count() && j != i implies #[trigger] self.root_pointer(j) == pre.root_pointer(j)
                            && self.root_generation(j) == pre.root_generation(j) by {
                        }
                    }
                }
            }
            i += 1;
        }
        let ghost mid = *self;
        proof {
            assert(pruned(h0, mid, live_roots@));
        }
        self.collect()
    }
}

} // verus!
