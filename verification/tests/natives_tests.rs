use rex_engine::cell::InternalPtr;
use rex_engine::error::{EngineError, FrameFault};
use rex_engine::heap::Heap;
use rex_engine::lists::ListItems;
use rex_engine::natives::{
    same_text, ArrayEqStep, MeanStep, NativeArrayEq, NativeArrayEqState, NativeMean,
    NativeMeanState, NativeSequenceShape,
};

fn array_eq(len_x: usize, len_y: usize, negate: bool) -> NativeArrayEq<InternalPtr> {
    NativeArrayEq {
        xs: ListItems::Pointers(vec![InternalPtr { heap_id: 1, index: 0, generation: 0 }; len_x]),
        ys: ListItems::Pointers(vec![InternalPtr { heap_id: 1, index: 1, generation: 0 }; len_y]),
        state: NativeArrayEqState::Enter,
        next_index: 0,
        step: None,
        negate,
    }
}

#[test]
fn list_equality_decides_at_once_on_lengths() {
    assert!(matches!(array_eq(1, 2, false).enter(), ArrayEqStep::Return(false)));
    assert!(matches!(array_eq(1, 2, true).enter(), ArrayEqStep::Return(true)));
    assert!(matches!(array_eq(0, 0, false).enter(), ArrayEqStep::Return(true)));
    assert!(matches!(array_eq(0, 0, true).enter(), ArrayEqStep::Return(false)));
}

#[test]
fn list_equality_compares_element_by_element() {
    let mut heap = Heap::new(1);
    let yes = heap.push_cell(rex_engine::cell::Cell::Bool(true)).expect("allocates");
    let no = heap.push_cell(rex_engine::cell::Cell::Bool(false)).expect("allocates");
    let step = heap.push_cell(rex_engine::cell::Cell::U8(0)).expect("allocates");

    let mut m = array_eq(2, 2, false);
    assert!(matches!(m.enter(), ArrayEqStep::CompareLeft(0)));
    assert!(!m.receive_may_allocate());
    match m.receive(&heap, step).expect("step") {
        ArrayEqStep::CompareRight { step: s, index } => {
            assert_eq!(s, step);
            assert_eq!(index, 0);
        }
        _ => panic!("expected the right comparison"),
    }
    assert!(m.receive_may_allocate());
    assert!(matches!(m.receive(&heap, yes).expect("equal"), ArrayEqStep::CompareLeft(1)));
    assert!(matches!(m.receive(&heap, step).expect("step"), ArrayEqStep::CompareRight { index: 1, .. }));
    assert!(matches!(m.receive(&heap, yes).expect("equal"), ArrayEqStep::Return(true)));

    let mut n = array_eq(2, 2, true);
    n.enter();
    n.receive(&heap, step).expect("step");
    assert!(matches!(n.receive(&heap, no).expect("differs"), ArrayEqStep::Return(true)));
}

#[test]
fn list_equality_reports_bad_results() {
    let heap = Heap::new(1);
    let mut m = array_eq(1, 1, false);
    match m.receive(&heap, InternalPtr { heap_id: 1, index: 0, generation: 0 }) {
        Err(EngineError::Frame { kind, fault }) => {
            assert_eq!(kind, "native list equality");
            assert_eq!(fault, FrameFault::UnexpectedChild);
        }
        _ => panic!("expected an error"),
    }
    let mut other = Heap::new(1);
    let number = other.push_cell(rex_engine::cell::Cell::U8(3)).expect("allocates");
    let mut m = array_eq(1, 1, false);
    m.enter();
    m.receive(&other, number).expect("step");
    match m.receive(&other, number) {
        Err(EngineError::NativeType { expected, got }) => {
            assert_eq!(expected, "bool");
            assert_eq!(got, "u8");
        }
        _ => panic!("expected a type error"),
    }
    assert_eq!(m.state, NativeArrayEqState::ApplySecond);
}

fn mean(len: usize) -> NativeMean<u32> {
    NativeMean {
        values: ListItems::Pointers(vec![7u32; len]),
        acc: None,
        state: NativeMeanState::Enter,
        next_index: 0,
        step: None,
        len_value: None,
    }
}

#[test]
fn mean_adds_every_element_then_divides() {
    let mut m = mean(3);
    assert!(matches!(m.enter(Some(100)), Ok(MeanStep::AddFirst { acc: 100 })));
    assert!(matches!(m.receive(1), Ok(MeanStep::AddSecond { step: 1, index: 1 })));
    assert!(m.receive_may_allocate());
    assert!(matches!(m.receive(110), Ok(MeanStep::AddFirst { acc: 110 })));
    assert!(matches!(m.receive(2), Ok(MeanStep::AddSecond { step: 2, index: 2 })));
    assert!(matches!(m.receive(120), Ok(MeanStep::DivideFirst { acc: 120 })));
    m.set_len_value(3);
    assert!(matches!(m.receive(7), Ok(MeanStep::DivideSecond { step: 7, len_value: 3 })));
    assert!(matches!(m.receive(40), Ok(MeanStep::Return(40))));
}

#[test]
fn mean_of_one_element_divides_at_once_and_of_none_fails() {
    let mut m = mean(1);
    assert!(matches!(m.enter(Some(5)), Ok(MeanStep::DivideFirst { acc: 5 })));
    assert!(matches!(
        m.receive(6),
        Err(EngineError::Internal("native mean missing length value"))
    ));
    let mut e = mean(0);
    assert!(matches!(e.enter(None), Err(EngineError::EmptySequence)));
    let mut fresh = mean(2);
    assert!(matches!(
        fresh.receive(1),
        Err(EngineError::Frame { kind: "native mean", fault: FrameFault::UnexpectedChild })
    ));
}

#[test]
fn options_and_results_are_built_and_read_back() {
    let mut heap = Heap::new(1);
    let v = heap.alloc_root_i32(5).expect("allocates");
    let some = heap.option_from_native_pointer(Some(v)).expect("allocates");
    let none = heap.option_from_native_pointer(None).expect("allocates");
    let inner = heap.option_value_ptr(some).expect("reads").expect("some");
    assert_eq!(heap.root_as_i32(inner).expect("reads"), 5);
    assert!(heap.option_value_ptr(none).expect("reads").is_none());
    let ok = heap.result_from_native_pointer(Ok(v)).expect("allocates");
    match heap.option_value_ptr(ok) {
        Err(EngineError::NativeType { expected, got }) => {
            assert_eq!(expected, "Option");
            assert_eq!(got, "adt");
        }
        _ => panic!("expected a type error"),
    }
    let (tag, args) = heap.root_as_adt(ok).expect("adt");
    assert_eq!(tag, "Ok");
    assert_eq!(args.len(), 1);
    let err = heap.result_from_native_pointer(Err(v)).expect("allocates");
    assert_eq!(heap.root_as_adt(err).expect("adt").0, "Err");
    match heap.option_value_ptr(v) {
        Err(EngineError::NativeType { expected, got }) => {
            assert_eq!(expected, "adt");
            assert_eq!(got, "i32");
        }
        _ => panic!("expected a type error"),
    }
}

#[test]
fn sequences_round_trip_through_lists() {
    let mut heap = Heap::new(1);
    let a = heap.alloc_root_u16(1).expect("allocates");
    let b = heap.alloc_root_u16(2).expect("allocates");
    let list = heap
        .alloc_native_sequence(NativeSequenceShape::List, &vec![a, b])
        .expect("allocates");
    let items = heap
        .native_flatten_sequence(NativeSequenceShape::List, list)
        .expect("reads");
    let read: Vec<u16> = items.iter().map(|r| heap.root_as_u16(*r).expect("u16")).collect();
    assert_eq!(read, vec![1, 2]);
    assert!(same_text("abc", "abc"));
    assert!(!same_text("abc", "abd"));
    assert!(!same_text("ab", "abc"));
}
