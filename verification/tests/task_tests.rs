use rex_engine::error::EngineError;
use rex_engine::lists::ListItems;
use rex_engine::natives::{
    NativeArrayEq, NativeArrayEqState, NativeFold, NativeFoldOrder, NativeFoldState, NativeMean,
    NativeMeanState, NativeSequenceShape, NativeSum,
};
use rex_engine::scheduler::FrameId;
use rex_engine::sequences::{
    NativeSequenceFilter, NativeSequenceFilterMap, NativeSequenceFlatMap, NativeSequenceMap,
};
use rex_engine::tasks::{map_nested_option_values, map_option_value_vecs, NativeTask};
use rex_engine::unary::{NativeApplyUnary, NativeUnaryFilter, NativeUnaryMap, NativeUnaryShape};

fn shift(x: u32) -> Result<u64, String> {
    if x >= 1000 {
        Err(format!("too big: {}", x))
    } else {
        Ok(x as u64 + 1)
    }
}

fn seq_map() -> NativeTask<u32> {
    NativeTask::SequenceMap(NativeSequenceMap {
        func: 1,
        values: ListItems::Pointers(vec![2, 3]),
        shape: NativeSequenceShape::List,
        children: vec![FrameId(7)],
        output: vec![Some(4), None],
        remaining: 1,
    })
}

#[test]
fn map_values_sends_every_handle_through_the_conversion() {
    match seq_map().map_values(&shift).expect("converts") {
        NativeTask::SequenceMap(t) => {
            assert_eq!(t.func, 2);
            match t.values {
                ListItems::Pointers(v) => assert_eq!(v, vec![3, 4]),
                _ => panic!("expected pointers"),
            }
            assert_eq!(t.output, vec![Some(5), None]);
            assert_eq!(t.children, vec![FrameId(7)]);
            assert_eq!(t.remaining, 1);
        }
        other => panic!("unexpected {:?}", other),
    }
    let fold = NativeTask::Fold(NativeFold {
        func: 10,
        values: ListItems::Slice { elements: 20, start: 1, end: 3 },
        acc: 30,
        order: NativeFoldOrder::Right,
        state: NativeFoldState::ApplySecond,
        next_index: 1,
        step: Some(40),
    });
    match fold.map_values(&shift).expect("converts") {
        NativeTask::Fold(t) => {
            assert_eq!((t.func, t.acc, t.step, t.next_index), (11, 31, Some(41), 1));
            assert!(matches!(t.values, ListItems::Slice { elements: 21, start: 1, end: 3 }));
            assert_eq!(t.order, NativeFoldOrder::Right);
        }
        other => panic!("unexpected {:?}", other),
    }
    let mean = NativeTask::Mean(NativeMean {
        values: ListItems::Pointers(vec![1]),
        acc: Some(2),
        state: NativeMeanState::ApplyDivSecond,
        next_index: 1,
        step: None,
        len_value: Some(3),
    });
    match mean.map_values(&shift).expect("converts") {
        NativeTask::Mean(t) => assert_eq!((t.acc, t.step, t.len_value), (Some(3), None, Some(4))),
        other => panic!("unexpected {:?}", other),
    }
    let unary = NativeTask::UnaryFilter(NativeUnaryFilter { func: 5, value: 6, original: 7 });
    match unary.map_values(&shift).expect("converts") {
        NativeTask::UnaryFilter(t) => assert_eq!((t.func, t.value, t.original), (6, 7, 8)),
        other => panic!("unexpected {:?}", other),
    }
}

#[test]
fn map_values_stops_at_the_first_failure() {
    let bad = NativeTask::SequenceMap(NativeSequenceMap {
        func: 1,
        values: ListItems::Pointers(vec![2, 2000, 3000]),
        shape: NativeSequenceShape::List,
        children: vec![],
        output: vec![],
        remaining: 0,
    });
    assert_eq!(bad.map_values(&shift).err(), Some("too big: 2000".to_string()));
    let sum = NativeTask::Sum(NativeSum {
        values: ListItems::Pointers(vec![]),
        acc: Some(1),
        plus: Some(5000),
        state: NativeFoldState::ApplyFirst,
        next_index: 1,
        step: None,
    });
    assert_eq!(sum.map_values(&shift).err(), Some("too big: 5000".to_string()));
}

#[test]
fn nested_and_listed_slots_are_converted_in_place() {
    assert_eq!(
        map_nested_option_values(vec![Some(Some(1)), Some(None), None], &shift),
        Ok(vec![Some(Some(2)), Some(None), None])
    );
    assert_eq!(
        map_option_value_vecs(vec![Some(vec![1, 2]), None], &shift),
        Ok(vec![Some(vec![2, 3]), None])
    );
    assert_eq!(
        map_option_value_vecs(vec![Some(vec![1, 1001]), None], &shift),
        Err("too big: 1001".to_string())
    );
}

#[test]
fn only_per_element_tasks_schedule_children() {
    let mut filter = NativeTask::SequenceFilter(NativeSequenceFilter {
        func: 1u32,
        values: ListItems::Pointers(vec![2, 3]),
        shape: NativeSequenceShape::List,
        children: vec![],
        keep: vec![None, None],
        remaining: 2,
    });
    filter.push_scheduled_child(FrameId(4)).expect("accepts");
    filter.push_scheduled_child(FrameId(5)).expect("accepts");
    assert_eq!(filter.scheduled_children().expect("has children"), vec![FrameId(4), FrameId(5)]);

    let mut flat = NativeTask::SequenceFlatMap(NativeSequenceFlatMap {
        func: 1u32,
        values: ListItems::Pointers(vec![2]),
        shape: NativeSequenceShape::List,
        children: vec![FrameId(1)],
        output: vec![None],
        remaining: 1,
    });
    flat.push_scheduled_child(FrameId(2)).expect("accepts");
    assert_eq!(flat.scheduled_children().expect("has children"), vec![FrameId(1), FrameId(2)]);

    let mut apply = NativeTask::ApplyUnary(NativeApplyUnary { func: 1u32, arg: 2 });
    match apply.push_scheduled_child(FrameId(3)) {
        Err(EngineError::Internal(msg)) => assert_eq!(msg, "native task does not accept scheduled children"),
        other => panic!("unexpected {:?}", other),
    }
    match apply.scheduled_children() {
        Err(EngineError::Internal(msg)) => assert_eq!(msg, "native task does not have scheduled children"),
        other => panic!("unexpected {:?}", other),
    }
}

#[test]
fn receive_may_allocate_follows_the_task_kind() {
    let fm = NativeTask::SequenceFilterMap(NativeSequenceFilterMap {
        func: 1u32,
        values: ListItems::Pointers(vec![2]),
        shape: NativeSequenceShape::List,
        children: vec![],
        output: vec![None],
        remaining: 1,
    });
    assert!(fm.receive_may_allocate());
    let map = NativeTask::UnaryMap(NativeUnaryMap { func: 1u32, value: 2, shape: NativeUnaryShape::Option });
    assert!(map.receive_may_allocate());
    let eq = NativeTask::ArrayEq(NativeArrayEq {
        xs: ListItems::Pointers(vec![1u32]),
        ys: ListItems::Pointers(vec![2]),
        state: NativeArrayEqState::ApplyFirst,
        next_index: 0,
        step: None,
        negate: false,
    });
    assert!(!eq.receive_may_allocate());
    let apply = NativeTask::ApplyUnary(NativeApplyUnary { func: 1u32, arg: 2 });
    assert!(!apply.receive_may_allocate());
}

#[test]
fn identity_map_gives_the_task_back() {
    let same = |x: u32| -> Result<u32, String> { Ok(x) };
    match seq_map().map_values(&same).expect("never fails") {
        NativeTask::SequenceMap(t) => {
            assert_eq!(t.func, 1);
            match t.values {
                ListItems::Pointers(v) => assert_eq!(v, vec![2, 3]),
                _ => panic!("expected pointers"),
            }
            assert_eq!(t.children, vec![FrameId(7)]);
            assert_eq!(t.output, vec![Some(4), None]);
            assert_eq!(t.remaining, 1);
        },
        _ => panic!("expected a sequence map"),
    }
}
