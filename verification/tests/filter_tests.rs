use rex_engine::cell::RootedPtr;
use rex_engine::error::{EngineError, FrameFault};
use rex_engine::heap::Heap;
use rex_engine::lists::ListItems;
use rex_engine::natives::NativeSequenceShape;
use rex_engine::scheduler::FrameId;
use rex_engine::sequences::{NativeSequenceFilter, NativeStep};

fn filter(values: ListItems<RootedPtr>) -> NativeSequenceFilter<RootedPtr> {
    NativeSequenceFilter {
        func: RootedPtr { heap_id: 1, slot: 0, generation: 0 },
        values,
        shape: NativeSequenceShape::List,
        children: vec![],
        keep: vec![],
        remaining: 0,
    }
}

fn run(heap: &mut Heap, task: &mut NativeSequenceFilter<RootedPtr>, verdicts: &[bool]) -> RootedPtr {
    match task.enter(heap) {
        Ok(NativeStep::Schedule(n)) => assert_eq!(n, verdicts.len()),
        other => panic!("unexpected {:?}", other),
    }
    for k in 0..verdicts.len() {
        task.push_scheduled_child(FrameId(100 + k as u64));
    }
    let mut last = None;
    for (k, v) in verdicts.iter().enumerate().rev() {
        let b = heap.alloc_root_bool(*v).expect("allocates");
        match task.receive(heap, FrameId(100 + k as u64), b).expect("accepted") {
            NativeStep::Wait => {}
            NativeStep::Return(r) => last = Some(r),
            other => panic!("unexpected {:?}", other),
        }
    }
    last.expect("finished")
}

#[test]
fn filter_keeps_the_elements_whose_verdict_is_true() {
    let mut heap = Heap::new(1);
    let vals: Vec<RootedPtr> = (1..=4).map(|x| heap.alloc_root_i32(x).expect("allocates")).collect();
    let mut task = filter(ListItems::Pointers(vals));
    let out = run(&mut heap, &mut task, &[true, false, false, true]);
    let items = heap.root_as_list(out).expect("list");
    let got: Vec<i32> = items.iter().map(|r| heap.root_as_i32(*r).expect("i32")).collect();
    assert_eq!(got, vec![1, 4]);
}

#[test]
fn filter_over_a_slice_reads_the_backing_data() {
    let mut heap = Heap::new(1);
    let vals: Vec<RootedPtr> = (10..13).map(|x| heap.alloc_root_i32(x).expect("allocates")).collect();
    let list = heap.alloc_root_list(&vals).expect("allocates");
    let items = heap.list_items(list).expect("items");
    assert!(matches!(items, ListItems::Slice { .. }));
    let mut task = filter(items);
    let out = run(&mut heap, &mut task, &[false, true, true]);
    let items = heap.root_as_list(out).expect("list");
    let got: Vec<i32> = items.iter().map(|r| heap.root_as_i32(*r).expect("i32")).collect();
    assert_eq!(got, vec![11, 12]);
}

#[test]
fn filter_over_bytes_makes_byte_objects() {
    let mut heap = Heap::new(1);
    let list = heap.alloc_root_binary_list(vec![5, 6, 7]).expect("allocates");
    let items = heap.list_items(list).expect("items");
    let mut task = filter(items);
    let out = run(&mut heap, &mut task, &[true, false, true]);
    let items = heap.root_as_list(out).expect("list");
    let got: Vec<u8> = items.iter().map(|r| heap.root_as_u8(*r).expect("u8")).collect();
    assert_eq!(got, vec![5, 7]);
}

#[test]
fn filter_of_nothing_is_the_empty_list() {
    let mut heap = Heap::new(1);
    let mut task = filter(ListItems::Pointers(vec![]));
    match task.enter(&mut heap) {
        Ok(NativeStep::Return(list)) => assert_eq!(heap.list_len(list).expect("len"), 0),
        other => panic!("unexpected {:?}", other),
    }
}

#[test]
fn filter_reports_bad_child_results() {
    let mut heap = Heap::new(1);
    let vals: Vec<RootedPtr> = (1..=2).map(|x| heap.alloc_root_i32(x).expect("allocates")).collect();
    let mut task = filter(ListItems::Pointers(vals.clone()));
    assert!(matches!(task.enter(&mut heap), Ok(NativeStep::Schedule(2))));
    task.push_scheduled_child(FrameId(1));
    task.push_scheduled_child(FrameId(2));
    let yes = heap.alloc_root_bool(true).expect("allocates");
    match task.receive(&mut heap, FrameId(1), vals[0]) {
        Err(EngineError::NativeType { expected, got }) => {
            assert_eq!(expected, "bool");
            assert_eq!(got, "i32");
        }
        other => panic!("unexpected {:?}", other),
    }
    assert!(matches!(
        task.receive(&mut heap, FrameId(9), yes),
        Err(EngineError::Frame { kind: "native sequence filter", fault: FrameFault::UnknownChild })
    ));
    assert!(matches!(task.receive(&mut heap, FrameId(1), yes), Ok(NativeStep::Wait)));
    assert!(task.receive_may_allocate());
    assert!(matches!(
        task.receive(&mut heap, FrameId(1), yes),
        Err(EngineError::Frame { fault: FrameFault::DuplicateResult, .. })
    ));
}

#[test]
fn filter_with_a_missing_result_reports_it() {
    let mut heap = Heap::new(1);
    let vals: Vec<RootedPtr> = (1..=2).map(|x| heap.alloc_root_i32(x).expect("allocates")).collect();
    let mut task = filter(ListItems::Pointers(vals));
    task.enter(&mut heap).expect("schedules");
    task.push_scheduled_child(FrameId(1));
    task.push_scheduled_child(FrameId(2));
    task.remaining = 1;
    let yes = heap.alloc_root_bool(true).expect("allocates");
    assert!(matches!(
        task.receive(&mut heap, FrameId(2), yes),
        Err(EngineError::Frame { kind: "native sequence filter", fault: FrameFault::MissingResult })
    ));
}
