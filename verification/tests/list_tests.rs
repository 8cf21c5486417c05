use rex_engine::cell::Cell;
use rex_engine::error::EngineError;
use rex_engine::heap::Heap;
use rex_engine::lists::{
    list_slice_backing_len, usize_to_i32_saturating, validate_list_slice_bounds, ListItems,
};

fn read_i32s(heap: &mut Heap, list: rex_engine::cell::RootedPtr) -> Vec<i32> {
    let items = heap.root_as_list(list).expect("list");
    items.iter().map(|r| heap.root_as_i32(*r).expect("i32")).collect()
}

#[test]
fn lists_of_values_read_back_in_order() {
    let mut heap = Heap::new(1);
    let values: Vec<_> = (1..=3).map(|v| heap.alloc_root_i32(v).expect("allocates")).collect();
    let list = heap.alloc_root_list(&values).expect("allocates");
    assert_eq!(heap.list_len(list).expect("length"), 3);
    assert_eq!(read_i32s(&mut heap, list), vec![1, 2, 3]);
    let empty = heap.alloc_root_list(&vec![]).expect("allocates");
    assert_eq!(heap.list_len(empty).expect("length"), 0);
}

#[test]
fn cons_cells_prepend_to_slices() {
    let mut heap = Heap::new(1);
    let values: Vec<_> = (2..=3).map(|v| heap.alloc_root_i32(v).expect("allocates")).collect();
    let tail = heap.alloc_root_list(&values).expect("allocates");
    let head = heap.alloc_root_i32(1).expect("allocates");
    let list = heap.alloc_root_cons(head, tail).expect("allocates");
    assert_eq!(heap.list_len(list).expect("length"), 3);
    assert_eq!(read_i32s(&mut heap, list), vec![1, 2, 3]);
}

#[test]
fn head_and_tail_split_cons_cells_and_slices() {
    let mut heap = Heap::new(1);
    let values: Vec<_> = (5..=6).map(|v| heap.alloc_root_i32(v).expect("allocates")).collect();
    let list = heap.alloc_root_list(&values).expect("allocates");
    let (h, t) = heap.list_head_tail(list).expect("splits").expect("non-empty");
    assert_eq!(heap.root_as_i32(h).expect("i32"), 5);
    assert_eq!(read_i32s(&mut heap, t), vec![6]);
    let (h2, t2) = heap.list_head_tail(t).expect("splits").expect("non-empty");
    assert_eq!(heap.root_as_i32(h2).expect("i32"), 6);
    assert_eq!(heap.list_len(t2).expect("length"), 0);
    assert!(heap.list_head_tail(t2).expect("splits").is_none());

    let x = heap.alloc_root_i32(9).expect("allocates");
    let cons = heap.alloc_root_cons(x, t2).expect("allocates");
    let (h3, t3) = heap.list_head_tail(cons).expect("splits").expect("non-empty");
    assert_eq!(heap.root_as_i32(h3).expect("i32"), 9);
    assert_eq!(heap.list_len(t3).expect("length"), 0);

    let not_list = heap.alloc_root_bool(true).expect("allocates");
    match heap.list_head_tail(not_list) {
        Err(EngineError::NativeType { expected, got }) => {
            assert_eq!(expected, "list");
            assert_eq!(got, "bool");
        }
        other => panic!("unexpected {:?}", other),
    }
}

#[test]
fn binary_lists_hold_bytes_and_split_into_u8_values() {
    let mut heap = Heap::new(1);
    let list = heap.alloc_root_binary_list(vec![10, 20, 30]).expect("allocates");
    assert_eq!(heap.list_len(list).expect("length"), 3);
    assert_eq!(heap.root_as_binary_list(list).expect("bytes"), vec![10, 20, 30]);
    let (h, t) = heap.list_head_tail(list).expect("splits").expect("non-empty");
    assert_eq!(heap.root_as_u8(h).expect("u8"), 10);
    assert_eq!(heap.root_as_binary_list(t).expect("bytes"), vec![20, 30]);
    let items = heap.root_as_list(t).expect("list");
    let bytes: Vec<u8> = items.iter().map(|r| heap.root_as_u8(*r).expect("u8")).collect();
    assert_eq!(bytes, vec![20, 30]);
}

#[test]
fn slices_are_checked_against_their_backing_data() {
    let mut heap = Heap::new(1);
    let data = heap.alloc_root_binary_data(vec![1, 2]).expect("allocates");
    match heap.alloc_root_list_slice(1, 3, data) {
        Err(EngineError::IndexOutOfBounds { index, len }) => {
            assert_eq!(index, 3);
            assert_eq!(len, 2);
        }
        other => panic!("unexpected {:?}", other),
    }
    match heap.alloc_root_list_slice(2, 1, data) {
        Err(EngineError::InvalidListSlice { start, end }) => assert_eq!((start, end), (2, 1)),
        other => panic!("unexpected {:?}", other),
    }
    let empty = heap.alloc_root_list_slice(1, 1, data).expect("allocates");
    assert_eq!(heap.list_len(empty).expect("length"), 0);
    let n = heap.alloc_root_i32(0).expect("allocates");
    match heap.alloc_root_list_slice(0, 0, n) {
        Err(EngineError::NativeType { expected, got }) => {
            assert_eq!(expected, "list slice backing data");
            assert_eq!(got, "i32");
        }
        other => panic!("unexpected {:?}", other),
    }
    assert!(validate_list_slice_bounds(3, 0, 3).is_ok());
    assert_eq!(list_slice_backing_len(&Cell::BinaryData(vec![1, 2, 3])).unwrap(), 3);
    assert_eq!(usize_to_i32_saturating(usize::MAX), i32::MAX);
    assert_eq!(usize_to_i32_saturating(7), 7);
}

#[test]
fn list_items_count_their_elements() {
    let slice: ListItems<u8> = ListItems::Slice { elements: 0, start: 2, end: 5 };
    assert_eq!(slice.len(), 3);
    assert!(!slice.is_empty());
    let ptrs: ListItems<u8> = ListItems::Pointers(vec![]);
    assert!(ptrs.is_empty());
    let mapped = ListItems::Pointers(vec![1u8, 2]).map_values(&|x| Ok::<u16, ()>(x as u16 * 10)).unwrap();
    match mapped {
        ListItems::Pointers(v) => assert_eq!(v, vec![10u16, 20]),
        _ => panic!("expected pointers"),
    }
}

#[test]
fn list_items_keep_slices_and_root_cons_elements() {
    let mut heap = Heap::new(1);
    let values: Vec<_> = (1..=3).map(|v| heap.alloc_root_i32(v).expect("allocates")).collect();
    let list = heap.alloc_root_list(&values).expect("allocates");
    let items = heap.list_items(list).expect("items");
    assert!(matches!(items, ListItems::Slice { start: 0, end: 3, .. }));
    assert_eq!(items.len(), 3);
    let second = items.get(&mut heap, 1).expect("item");
    assert_eq!(heap.root_as_i32(second).expect("i32"), 2);
    assert!(matches!(
        items.get(&mut heap, 3),
        Err(EngineError::Internal("list item index out of bounds"))
    ));
    assert!(matches!(
        items.get(&mut heap, usize::MAX),
        Err(EngineError::Internal("list item index out of bounds"))
    ));
    let (_, rest) = heap.list_head_tail(list).expect("splits").expect("non-empty");
    let rest_items = heap.list_items(rest).expect("items");
    assert!(matches!(rest_items, ListItems::Slice { start: 1, end: 3, .. }));
    assert!(matches!(
        rest_items.get(&mut heap, usize::MAX),
        Err(EngineError::Internal("list slice backing index overflow"))
    ));

    let head = heap.alloc_root_i32(0).expect("allocates");
    let cons = heap.alloc_root_cons(head, list).expect("allocates");
    let items = heap.list_items(cons).expect("items");
    match &items {
        ListItems::Pointers(rs) => {
            let read: Vec<i32> = rs.iter().map(|r| heap.root_as_i32(*r).expect("i32")).collect();
            assert_eq!(read, vec![0, 1, 2, 3]);
        }
        _ => panic!("expected rooted values"),
    }
    let first = items.get(&mut heap, 0).expect("item");
    assert_eq!(heap.root_as_i32(first).expect("i32"), 0);

    let bytes = heap.alloc_root_binary_list(vec![7, 8]).expect("allocates");
    let items = heap.list_items(bytes).expect("items");
    assert!(matches!(items, ListItems::BinarySlice { start: 0, end: 2, .. }));
    let b = items.get(&mut heap, 1).expect("item");
    assert_eq!(heap.root_as_u8(b).expect("u8"), 8);
    assert!(matches!(
        items.get(&mut heap, 2),
        Err(EngineError::Internal("binary list slice index out of bounds"))
    ));

    let byte_head = heap.alloc_root_i32(5).expect("allocates");
    let mixed = heap.alloc_root_cons(byte_head, bytes).expect("allocates");
    match heap.list_items(mixed).expect("items") {
        ListItems::Pointers(rs) => {
            assert_eq!(rs.len(), 3);
            assert_eq!(heap.root_as_u8(rs[2]).expect("u8"), 8);
        }
        _ => panic!("expected rooted values"),
    }
}

#[test]
fn raw_list_items_root_their_pointers() {
    let mut heap = Heap::new(1);
    let a = heap.alloc_root_i32(5).expect("allocates");
    let b = heap.alloc_root_i32(6).expect("allocates");
    let pa = heap.resolve_runtime_root(a);
    let pb = heap.resolve_runtime_root(b);
    match ListItems::Pointers(vec![pa, pb]).into_rooted(&mut heap) {
        ListItems::Pointers(rs) => {
            assert_eq!(heap.root_as_i32(rs[0]).expect("i32"), 5);
            assert_eq!(heap.root_as_i32(rs[1]).expect("i32"), 6);
        }
        _ => panic!("expected pointers"),
    }
    match (ListItems::Slice { elements: pa, start: 0, end: 0 }).into_rooted(&mut heap) {
        ListItems::Slice { elements, start: 0, end: 0 } => assert_eq!(heap.root_as_i32(elements).expect("i32"), 5),
        _ => panic!("expected a slice"),
    }
}
