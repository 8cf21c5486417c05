use rex_engine::cell::RootedPtr;
use rex_engine::dict_natives::{NativeDictMap, NativeDictTraverse, TraverseStep};
use rex_engine::error::{EngineError, FrameFault};
use rex_engine::heap::Heap;
use rex_engine::scheduler::FrameId;
use rex_engine::sequences::NativeStep;
use rex_engine::tasks::NativeTask;

fn i32_fields(heap: &mut Heap, dict: RootedPtr) -> Vec<(String, i32)> {
    let fields = heap.root_as_dict(dict).expect("dict");
    fields.into_iter().map(|(k, v)| (k, heap.root_as_i32(v).expect("i32"))).collect()
}

#[test]
fn dict_map_collects_results_under_the_field_names() {
    let mut heap = Heap::new(1);
    let a = heap.alloc_root_i32(1).expect("allocates");
    let b = heap.alloc_root_i32(2).expect("allocates");
    let mut task = NativeDictMap {
        func: a,
        entries: vec![("a".to_string(), a), ("b".to_string(), b)],
        children: vec![],
        output: vec![],
        remaining: 0,
    };
    assert!(matches!(task.enter(&mut heap), Ok(NativeStep::Schedule(2))));
    task.push_scheduled_child(FrameId(5));
    task.push_scheduled_child(FrameId(6));
    let ten = heap.alloc_root_i32(10).expect("allocates");
    let twenty = heap.alloc_root_i32(20).expect("allocates");
    assert!(matches!(task.receive(&mut heap, FrameId(6), twenty), Ok(NativeStep::Wait)));
    assert!(matches!(
        task.receive(&mut heap, FrameId(7), ten),
        Err(EngineError::Frame { kind: "native dict map", fault: FrameFault::UnknownChild })
    ));
    assert!(task.receive_may_allocate());
    match task.receive(&mut heap, FrameId(5), ten) {
        Ok(NativeStep::Return(d)) => assert_eq!(
            i32_fields(&mut heap, d),
            vec![("a".to_string(), 10), ("b".to_string(), 20)]
        ),
        other => panic!("unexpected {:?}", other),
    }
}

#[test]
fn dict_map_refuses_a_second_result_for_a_field() {
    let mut heap = Heap::new(1);
    let a = heap.alloc_root_i32(1).expect("allocates");
    let mut task = NativeDictMap {
        func: a,
        entries: vec![("a".to_string(), a), ("b".to_string(), a)],
        children: vec![],
        output: vec![],
        remaining: 0,
    };
    task.enter(&mut heap).expect("schedules");
    task.push_scheduled_child(FrameId(1));
    task.push_scheduled_child(FrameId(2));
    assert!(matches!(task.receive(&mut heap, FrameId(1), a), Ok(NativeStep::Wait)));
    assert!(matches!(
        task.receive(&mut heap, FrameId(1), a),
        Err(EngineError::Frame { fault: FrameFault::DuplicateResult, .. })
    ));
}

#[test]
fn dict_map_over_nothing_is_the_empty_dict() {
    let mut heap = Heap::new(1);
    let f = heap.alloc_root_i32(0).expect("allocates");
    let mut task = NativeDictMap { func: f, entries: vec![], children: vec![], output: vec![], remaining: 0 };
    match task.enter(&mut heap) {
        Ok(NativeStep::Return(d)) => assert!(heap.root_as_dict(d).expect("dict").is_empty()),
        other => panic!("unexpected {:?}", other),
    }
}

#[test]
fn traverse_collects_ok_payloads_in_field_order() {
    let mut heap = Heap::new(1);
    let x = heap.alloc_root_i32(1).expect("allocates");
    let y = heap.alloc_root_i32(2).expect("allocates");
    let mut task = NativeDictTraverse {
        func: x,
        entries: vec![("x".to_string(), x), ("y".to_string(), y)],
        next_index: 0,
        output: vec![],
    };
    assert!(task.receive_may_allocate());
    match task.enter(&mut heap).expect("applies") {
        TraverseStep::Apply(v) => assert_eq!(v, x),
        other => panic!("unexpected {:?}", other),
    }
    let p = heap.alloc_root_i32(7).expect("allocates");
    let ok = heap.result_from_native_pointer(Ok(p)).expect("allocates");
    match task.receive(&mut heap, ok).expect("continues") {
        TraverseStep::Apply(v) => assert_eq!(v, y),
        other => panic!("unexpected {:?}", other),
    }
    let q = heap.alloc_root_i32(8).expect("allocates");
    let ok2 = heap.result_from_native_pointer(Ok(q)).expect("allocates");
    match task.receive(&mut heap, ok2).expect("finishes") {
        TraverseStep::Return(r) => {
            let (tag, args) = heap.root_as_adt(r).expect("adt");
            assert_eq!(tag, "Ok");
            assert_eq!(i32_fields(&mut heap, args[0]), vec![("x".to_string(), 7), ("y".to_string(), 8)]);
        }
        other => panic!("unexpected {:?}", other),
    }
}

#[test]
fn traverse_stops_at_the_first_err() {
    let mut heap = Heap::new(1);
    let x = heap.alloc_root_i32(1).expect("allocates");
    let mut task = NativeDictTraverse {
        func: x,
        entries: vec![("x".to_string(), x), ("y".to_string(), x)],
        next_index: 0,
        output: vec![],
    };
    task.enter(&mut heap).expect("applies");
    let bad = heap.alloc_root_i32(3).expect("allocates");
    let err = heap.result_from_native_pointer(Err(bad)).expect("allocates");
    match task.receive(&mut heap, err).expect("finishes") {
        TraverseStep::Return(r) => {
            let (tag, args) = heap.root_as_adt(r).expect("adt");
            assert_eq!(tag, "Err");
            assert_eq!(heap.root_as_i32(args[0]).expect("i32"), 3);
        }
        other => panic!("unexpected {:?}", other),
    }
    let mut empty = NativeDictTraverse { func: x, entries: vec![], next_index: 0, output: vec![] };
    match empty.enter(&mut heap).expect("finishes") {
        TraverseStep::Return(r) => assert_eq!(heap.root_as_adt(r).expect("adt").0, "Ok"),
        other => panic!("unexpected {:?}", other),
    }
}

#[test]
fn dict_tasks_convert_their_handles_and_schedule_children() {
    let task: NativeTask<u32> = NativeTask::DictMap(NativeDictMap {
        func: 1,
        entries: vec![("a".to_string(), 2)],
        children: vec![],
        output: vec![("a".to_string(), 3)],
        remaining: 1,
    });
    let mut mapped = task.map_values(&|x: u32| Ok::<u64, ()>(x as u64 * 100)).expect("converts");
    match &mapped {
        NativeTask::DictMap(t) => {
            assert_eq!(t.func, 100);
            assert_eq!(t.entries, vec![("a".to_string(), 200)]);
            assert_eq!(t.output, vec![("a".to_string(), 300)]);
        }
        other => panic!("unexpected {:?}", other),
    }
    mapped.push_scheduled_child(FrameId(9)).expect("accepts");
    assert_eq!(mapped.scheduled_children().expect("has children"), vec![FrameId(9)]);
    assert!(mapped.receive_may_allocate());
}
