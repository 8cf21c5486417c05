use rex_engine::error::EngineError;
use rex_engine::heap::Heap;
use rex_engine::sequences::NativeStep;
use rex_engine::unary::{
    NativeApplyUnary, NativeUnaryFilter, NativeUnaryFilterMap, NativeUnaryFlatMap, NativeUnaryMap,
    NativeUnaryShape,
};

fn returned<P: Copy + std::fmt::Debug>(step: NativeStep<P>) -> P {
    match step {
        NativeStep::Return(v) => v,
        other => panic!("expected a return, got {:?}", other),
    }
}

#[test]
fn unary_map_wraps_the_result_again() {
    let mut heap = Heap::new(1);
    let f = heap.alloc_root_u8(0).expect("allocates");
    let v = heap.alloc_root_u8(4).expect("allocates");
    let over_option = NativeUnaryMap { func: f, value: v, shape: NativeUnaryShape::Option };
    assert!(over_option.receive_may_allocate());
    let some = returned(over_option.receive(&mut heap, v).expect("allocates"));
    let (tag, args) = heap.root_as_adt(some).expect("adt");
    assert_eq!(tag, "Some");
    assert_eq!(heap.root_as_u8(args[0]).expect("u8"), 4);
    let over_result = NativeUnaryMap { func: f, value: v, shape: NativeUnaryShape::Result };
    let ok = returned(over_result.receive(&mut heap, v).expect("allocates"));
    assert_eq!(heap.root_as_adt(ok).expect("adt").0, "Ok");
}

#[test]
fn unary_filter_keeps_or_drops_the_original() {
    let mut heap = Heap::new(1);
    let f = heap.alloc_root_u8(0).expect("allocates");
    let v = heap.alloc_root_u8(4).expect("allocates");
    let original = heap.option_from_native_pointer(Some(v)).expect("allocates");
    let task = NativeUnaryFilter { func: f, value: v, original };
    let yes = heap.alloc_root_bool(true).expect("allocates");
    let no = heap.alloc_root_bool(false).expect("allocates");
    assert_eq!(returned(task.receive(&mut heap, yes).expect("kept")), original);
    let none = returned(task.receive(&mut heap, no).expect("dropped"));
    assert_eq!(heap.root_as_adt(none).expect("adt").0, "None");
    match task.receive(&mut heap, v) {
        Err(EngineError::NativeType { expected, got }) => {
            assert_eq!(expected, "bool");
            assert_eq!(got, "u8");
        }
        _ => panic!("expected a type error"),
    }
}

#[test]
fn unary_flat_map_checks_results() {
    let mut heap = Heap::new(1);
    let f = heap.alloc_root_u8(0).expect("allocates");
    let v = heap.alloc_root_u8(4).expect("allocates");
    let ok = heap.result_from_native_pointer(Ok(v)).expect("allocates");
    let some = heap.option_from_native_pointer(Some(v)).expect("allocates");
    let over_result = NativeUnaryFlatMap { func: f, value: v, shape: NativeUnaryShape::Result };
    assert!(!over_result.receive_may_allocate());
    assert_eq!(returned(over_result.receive(&mut heap, ok).expect("a result")), ok);
    match over_result.receive(&mut heap, some) {
        Err(EngineError::NativeType { expected, got }) => {
            assert_eq!(expected, "Result");
            assert_eq!(got, "adt");
        }
        _ => panic!("expected a type error"),
    }
    let over_option = NativeUnaryFlatMap { func: f, value: v, shape: NativeUnaryShape::Option };
    assert_eq!(returned(over_option.receive(&mut heap, v).expect("anything")), v);
}

#[test]
fn apply_and_filter_map_hand_back_the_child_result() {
    let apply = NativeApplyUnary { func: 1u32, arg: 2u32 };
    assert!(!apply.receive_may_allocate());
    assert_eq!(returned(apply.receive(9)), 9);
    let fm = NativeUnaryFilterMap { func: 1u32, value: 2u32 };
    assert!(!fm.receive_may_allocate());
    assert_eq!(returned(fm.receive(8)), 8);
}

#[test]
fn result_values_read_back() {
    let mut heap = Heap::new(1);
    let v = heap.alloc_root_u8(4).expect("allocates");
    let err = heap.result_from_native_pointer(Err(v)).expect("allocates");
    match heap.result_value_ptr(err).expect("a result") {
        Err(inner) => assert_eq!(heap.root_as_u8(inner).expect("u8"), 4),
        Ok(_) => panic!("expected Err"),
    }
    match heap.result_value_ptr(v) {
        Err(EngineError::NativeType { expected, got }) => {
            assert_eq!(expected, "adt");
            assert_eq!(got, "u8");
        }
        _ => panic!("expected a type error"),
    }
}
