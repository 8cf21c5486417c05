use rex_engine::cell::RootedPtr;
use rex_engine::error::{EngineError, FrameFault};
use rex_engine::heap::Heap;
use rex_engine::lists::ListItems;
use rex_engine::natives::{
    FoldArg, FoldStep, NativeFold, NativeFoldOrder, NativeFoldState, NativeSequenceShape,
};
use rex_engine::scheduler::FrameId;
use rex_engine::sequences::{
    NativeSequenceFilterMap, NativeSequenceFlatMap, NativeSequenceMap, NativeStep,
};

fn i32s(heap: &mut Heap, list: RootedPtr) -> Vec<i32> {
    let items = heap.root_as_list(list).expect("list");
    items.iter().map(|r| heap.root_as_i32(*r).expect("i32")).collect()
}

fn items(n: usize) -> ListItems<RootedPtr> {
    ListItems::Pointers(vec![RootedPtr { heap_id: 0, slot: 0, generation: 0 }; n])
}

#[test]
fn map_collects_results_in_element_order() {
    let mut heap = Heap::new(1);
    let mut task = NativeSequenceMap {
        func: RootedPtr { heap_id: 0, slot: 0, generation: 0 },
        values: items(3),
        shape: NativeSequenceShape::List,
        children: vec![],
        output: vec![],
        remaining: 0,
    };
    assert!(matches!(task.enter(&mut heap), Ok(NativeStep::Schedule(3))));
    for f in [10, 11, 12] {
        task.push_scheduled_child(FrameId(f));
    }
    let b = heap.alloc_root_i32(2).expect("allocates");
    let c = heap.alloc_root_i32(3).expect("allocates");
    let a = heap.alloc_root_i32(1).expect("allocates");
    assert!(matches!(task.receive(&mut heap, FrameId(11), b), Ok(NativeStep::Wait)));
    assert!(matches!(
        task.receive(&mut heap, FrameId(11), b),
        Err(EngineError::Frame { fault: FrameFault::DuplicateResult, .. })
    ));
    assert!(matches!(
        task.receive(&mut heap, FrameId(99), b),
        Err(EngineError::Frame { kind: "native sequence map", fault: FrameFault::UnknownChild })
    ));
    assert!(matches!(task.receive(&mut heap, FrameId(12), c), Ok(NativeStep::Wait)));
    assert!(task.receive_may_allocate());
    match task.receive(&mut heap, FrameId(10), a) {
        Ok(NativeStep::Return(list)) => assert_eq!(i32s(&mut heap, list), vec![1, 2, 3]),
        other => panic!("unexpected {:?}", other),
    }
}

#[test]
fn map_over_an_empty_list_returns_the_empty_list() {
    let mut heap = Heap::new(1);
    let mut task = NativeSequenceMap {
        func: RootedPtr { heap_id: 0, slot: 0, generation: 0 },
        values: items(0),
        shape: NativeSequenceShape::List,
        children: vec![],
        output: vec![],
        remaining: 0,
    };
    match task.enter(&mut heap) {
        Ok(NativeStep::Return(list)) => assert_eq!(heap.list_len(list).expect("len"), 0),
        other => panic!("unexpected {:?}", other),
    }
}

#[test]
fn filter_map_keeps_the_some_payloads() {
    let mut heap = Heap::new(1);
    let mut task = NativeSequenceFilterMap {
        func: RootedPtr { heap_id: 0, slot: 0, generation: 0 },
        values: items(3),
        shape: NativeSequenceShape::List,
        children: vec![],
        output: vec![],
        remaining: 0,
    };
    assert!(matches!(task.enter(&mut heap), Ok(NativeStep::Schedule(3))));
    for f in [1, 2, 3] {
        task.push_scheduled_child(FrameId(f));
    }
    let x = heap.alloc_root_i32(7).expect("allocates");
    let y = heap.alloc_root_i32(9).expect("allocates");
    let some_x = heap.option_from_native_pointer(Some(x)).expect("allocates");
    let none = heap.option_from_native_pointer(None).expect("allocates");
    let some_y = heap.option_from_native_pointer(Some(y)).expect("allocates");
    assert!(matches!(task.receive(&mut heap, FrameId(3), some_y), Ok(NativeStep::Wait)));
    assert!(matches!(task.receive(&mut heap, FrameId(2), none), Ok(NativeStep::Wait)));
    match task.receive(&mut heap, FrameId(1), x) {
        Err(EngineError::NativeType { expected, got }) => {
            assert_eq!(expected, "adt");
            assert_eq!(got, "i32");
        }
        other => panic!("unexpected {:?}", other),
    }
    match task.receive(&mut heap, FrameId(1), some_x) {
        Ok(NativeStep::Return(list)) => assert_eq!(i32s(&mut heap, list), vec![7, 9]),
        other => panic!("unexpected {:?}", other),
    }
}

#[test]
fn flat_map_joins_the_child_lists() {
    let mut heap = Heap::new(1);
    let mut task = NativeSequenceFlatMap {
        func: RootedPtr { heap_id: 0, slot: 0, generation: 0 },
        values: items(2),
        shape: NativeSequenceShape::List,
        children: vec![],
        output: vec![],
        remaining: 0,
    };
    assert!(matches!(task.enter(&mut heap), Ok(NativeStep::Schedule(2))));
    task.push_scheduled_child(FrameId(1));
    task.push_scheduled_child(FrameId(2));
    let v: Vec<_> = (1..=3).map(|v| heap.alloc_root_i32(v).expect("allocates")).collect();
    let first = heap.alloc_root_list(&vec![v[0], v[1]]).expect("allocates");
    let second = heap.alloc_root_list(&vec![v[2]]).expect("allocates");
    assert!(matches!(task.receive(&mut heap, FrameId(2), second), Ok(NativeStep::Wait)));
    match task.receive(&mut heap, FrameId(1), first) {
        Ok(NativeStep::Return(list)) => assert_eq!(i32s(&mut heap, list), vec![1, 2, 3]),
        other => panic!("unexpected {:?}", other),
    }
}

fn fold(len: usize, order: NativeFoldOrder) -> NativeFold<u32> {
    NativeFold { func: 77, values: ListItems::Pointers(vec![7u32; len]), acc: 0, order, state: NativeFoldState::Enter, next_index: 0, step: None }
}

#[test]
fn left_folds_start_from_the_front_and_right_folds_from_the_back() {
    let mut l = fold(2, NativeFoldOrder::Left);
    assert!(matches!(l.enter(), Ok(FoldStep::ApplyFirst(FoldArg::Acc(0)))));
    assert!(matches!(l.receive(100), Ok(FoldStep::ApplySecond { step: 100, arg: FoldArg::Element(0) })));
    assert!(matches!(l.receive(5), Ok(FoldStep::ApplyFirst(FoldArg::Acc(5)))));
    assert!(matches!(l.receive(101), Ok(FoldStep::ApplySecond { step: 101, arg: FoldArg::Element(1) })));
    assert!(matches!(l.receive(6), Ok(FoldStep::Return(6))));

    let mut r = fold(2, NativeFoldOrder::Right);
    assert!(matches!(r.enter(), Ok(FoldStep::ApplyFirst(FoldArg::Element(1)))));
    assert!(matches!(r.receive(100), Ok(FoldStep::ApplySecond { step: 100, arg: FoldArg::Acc(0) })));
    assert!(matches!(r.receive(5), Ok(FoldStep::ApplyFirst(FoldArg::Element(0)))));
    assert!(matches!(r.receive(101), Ok(FoldStep::ApplySecond { step: 101, arg: FoldArg::Acc(5) })));
    assert!(matches!(r.receive(6), Ok(FoldStep::Return(6))));
    assert!(!r.receive_may_allocate());

    let mut e = fold(0, NativeFoldOrder::Left);
    assert!(matches!(e.enter(), Ok(FoldStep::Return(0))));
    let mut fresh = fold(1, NativeFoldOrder::Left);
    assert!(matches!(
        fresh.receive(1),
        Err(EngineError::Frame { kind: "native fold", fault: FrameFault::UnexpectedChild })
    ));
}

