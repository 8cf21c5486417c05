use rex_engine::cell::Cell;
use rex_engine::error::EngineError;
use rex_engine::heap::Heap;

#[test]
fn copying_gc_relocates_runtime_roots() {
    let mut heap = Heap::new(1);
    let root = heap.alloc_root_i32(42).expect("value should allocate");
    let before = heap.resolve_runtime_root(root);

    heap.collect().expect("collection should succeed");

    let after = heap.resolve_runtime_root(root);
    assert_ne!(before.generation, after.generation);
    assert_eq!(heap.root_as_i32(root).expect("root should relocate"), 42);
    assert!(heap.get_cell_from_pointer(&before).is_err());
}

#[test]
fn failed_collection_releases_allocation_roots() {
    let mut heap = Heap::new(1);
    let child = heap.push_cell(Cell::I32(42)).expect("child should allocate");
    heap.set_gc_slot_threshold(1);
    heap.set_collection_count(u64::MAX);

    let error = match heap.alloc_reference(Cell::Tuple(vec![child])) {
        Ok(_) => panic!("collection epoch exhaustion should fail"),
        Err(error) => error,
    };

    assert!(error.summary().contains("collection count exhausted"));
    assert!(
        heap.live_root_count() == 0,
        "temporary allocation roots must be released"
    );
}

#[test]
fn extreme_stress_relocates_every_live_root() {
    let mut heap = Heap::new(1);
    let roots = (0..4)
        .map(|value| heap.alloc_root_i32(value))
        .collect::<Result<Vec<_>, _>>()
        .expect("values should allocate");
    let before = roots
        .iter()
        .map(|root| heap.resolve_runtime_root(*root))
        .collect::<Vec<_>>();

    heap.set_extreme_stress(true);
    heap.collect().expect("collection should succeed");

    let after = roots
        .iter()
        .map(|root| heap.resolve_runtime_root(*root))
        .collect::<Vec<_>>();
    assert!(before
        .iter()
        .zip(&after)
        .all(|(before, after)| before.index != after.index));
    for (expected, root) in roots.iter().enumerate() {
        assert_eq!(
            heap.root_as_i32(*root).expect("root should relocate"),
            expected as i32
        );
    }
}

#[test]
fn collection_counts_and_drops_unrooted_objects() {
    let mut heap = Heap::new(7);
    let kept = heap.alloc_root_u64(9).expect("allocates");
    let dropped = heap.push_cell(Cell::U64(10)).expect("allocates");
    assert_eq!(heap.len(), 2);
    assert_eq!(heap.collection_count(), 0);
    heap.collect().expect("collects");
    assert_eq!(heap.collection_count(), 1);
    assert_eq!(heap.len(), 1);
    assert!(heap.get_cell_from_pointer(&dropped).is_err());
    assert_eq!(heap.root_as_u64(kept).expect("kept"), 9);
    assert_eq!(heap.live_root_count(), 1);
}

#[test]
fn collection_fails_when_the_count_is_exhausted() {
    let mut heap = Heap::new(1);
    heap.set_collection_count(u64::MAX);
    match heap.collect() {
        Err(EngineError::CollectionCountExhausted) => {}
        other => panic!("unexpected {:?}", other),
    }
    assert_eq!(heap.collection_count(), u64::MAX);
}

#[test]
fn pointers_of_another_heap_are_refused() {
    let mut a = Heap::new(1);
    let b = Heap::new(2);
    let p = a.push_cell(Cell::Bool(true)).expect("allocates");
    match b.get_cell_from_pointer(&p) {
        Err(EngineError::WrongHeapPointer { pointer_heap_id, heap_id, slot, generation }) => {
            assert_eq!((pointer_heap_id, heap_id, slot, generation), (1, 2, 0, 0));
        }
        other => panic!("unexpected {:?}", other),
    }
    assert!(!b.check_pointer(&p));
    assert!(a.check_pointer(&p));
}

#[test]
fn unregistered_roots_free_their_entry_for_reuse() {
    let mut heap = Heap::new(1);
    let r = heap.alloc_root_bool(true).expect("allocates");
    assert_eq!(heap.live_root_count(), 1);
    heap.unregister_runtime_root(r);
    assert_eq!(heap.live_root_count(), 0);
    let s = heap.alloc_root_bool(false).expect("allocates");
    assert_eq!(s.slot, r.slot);
    assert_ne!(s.generation, r.generation);
    assert_eq!(heap.root_as_bool(s).expect("reads"), false);
}

#[test]
fn scalar_roots_read_back_and_mismatches_name_both_kinds() {
    let mut heap = Heap::new(1);
    let s = heap.alloc_root_string("hi".to_string()).expect("allocates");
    assert_eq!(heap.root_as_string(s).expect("reads"), "hi");
    assert_eq!(heap.root_type_name(s).expect("name"), "string");
    match heap.root_as_i32(s) {
        Err(EngineError::NativeType { expected, got }) => {
            assert_eq!(expected, "i32");
            assert_eq!(got, "string");
        }
        other => panic!("unexpected {:?}", other),
    }
    let u = heap.alloc_root_uuid(7).expect("allocates");
    assert_eq!(heap.root_as_uuid(u).expect("reads"), 7);
    let d = heap.alloc_root_datetime(-5, 3).expect("allocates");
    assert_eq!(heap.root_as_datetime(d).expect("reads"), (-5, 3));
}

#[test]
fn stress_mode_collects_on_every_allocation() {
    let mut heap = Heap::new(1);
    heap.set_extreme_stress(true);
    let a = heap.alloc_root_i8(-1).expect("allocates");
    let b = heap.alloc_root_i8(2).expect("allocates");
    assert!(heap.collection_count() >= 1);
    assert_eq!(heap.root_as_i8(a).expect("reads"), -1);
    assert_eq!(heap.root_as_i8(b).expect("reads"), 2);
}

#[test]
fn deferred_heaps_do_not_collect() {
    let mut heap = Heap::new(1);
    heap.set_gc_slot_threshold(1);
    heap.set_defer_collection(true);
    let p = heap.push_cell(Cell::I16(3)).expect("allocates");
    let q = heap.alloc_reference(Cell::I16(4)).expect("allocates");
    assert_eq!(heap.collection_count(), 0);
    assert!(heap.check_pointer(&p));
    assert!(heap.check_pointer(&q));
}

#[test]
fn collect_if_needed_releases_roots_that_are_not_live() {
    let mut heap = Heap::new(3);
    let keep = heap.alloc_root_i32(1).expect("allocates");
    let _drop = heap.alloc_root_i32(2).expect("allocates");
    assert_eq!(heap.live_root_count(), 2);
    heap.collect_if_needed(&vec![keep]).expect("nothing due");
    assert_eq!(heap.live_root_count(), 2);
    heap.set_extreme_stress(true);
    let epoch = heap.collection_count();
    heap.collect_if_needed(&vec![keep]).expect("collects");
    assert_eq!(heap.live_root_count(), 1);
    assert_eq!(heap.collection_count(), epoch + 1);
    assert_eq!(heap.root_as_i32(keep).expect("kept"), 1);
    assert_eq!(heap.len(), 1);
}

#[test]
fn collection_lays_survivors_out_in_walk_order() {
    let mut heap = Heap::new(1);
    let a = heap.alloc_root_i32(1).unwrap();
    let b = heap.alloc_root_i32(2).unwrap();
    let t = heap.alloc_root_tuple(&vec![b, a]).unwrap();
    heap.unregister_runtime_root(a);
    heap.unregister_runtime_root(b);
    heap.collect().unwrap();
    assert_eq!(heap.len(), 3);
    assert_eq!(heap.resolve_runtime_root(t).index, 0);
    let kids = heap.root_as_tuple(t).unwrap();
    assert_eq!(heap.resolve_runtime_root(kids[0]).index, 1);
    assert_eq!(heap.resolve_runtime_root(kids[1]).index, 2);
    assert_eq!(heap.root_as_i32(kids[0]).unwrap(), 2);
    assert_eq!(heap.root_as_i32(kids[1]).unwrap(), 1);
}

#[test]
fn collection_drops_unreachable_objects() {
    let mut heap = Heap::new(1);
    let keep = heap.alloc_root_i32(5).unwrap();
    let lost = heap.alloc_root_i32(6).unwrap();
    heap.unregister_runtime_root(lost);
    heap.collect().unwrap();
    assert_eq!(heap.len(), 1);
    assert_eq!(heap.root_as_i32(keep).unwrap(), 5);
}
