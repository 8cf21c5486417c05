use rex_engine::error::EngineError;
use rex_engine::heap::Heap;
use rex_engine::types::{BuiltinType, RuntimeType};

fn is_builtin(t: &RuntimeType, b: BuiltinType) -> bool {
    matches!(t, RuntimeType::Builtin(x) if *x == b)
}

#[test]
fn scalars_and_tuples_have_their_types() {
    let mut heap = Heap::new(1);
    let a = heap.alloc_root_u8(1).expect("allocates");
    let b = heap.alloc_root_string("s".to_string()).expect("allocates");
    let t = heap.alloc_root_tuple(&vec![a, b]).expect("allocates");
    assert!(is_builtin(&heap.infer_type(a).expect("typed"), BuiltinType::U8));
    match heap.infer_type(t).expect("typed") {
        RuntimeType::Tuple(items) => {
            assert_eq!(items.len(), 2);
            assert!(is_builtin(&items[0], BuiltinType::U8));
            assert!(is_builtin(&items[1], BuiltinType::String));
        }
        other => panic!("unexpected {:?}", other),
    }
}

#[test]
fn lists_have_the_type_of_their_elements() {
    let mut heap = Heap::new(1);
    let xs: Vec<_> = (0..3).map(|v| heap.alloc_root_i64(v).expect("allocates")).collect();
    let list = heap.alloc_root_list(&xs).expect("allocates");
    match heap.infer_type(list).expect("typed") {
        RuntimeType::List(inner) => assert!(is_builtin(&inner, BuiltinType::I64)),
        other => panic!("unexpected {:?}", other),
    }
    let bytes = heap.alloc_root_binary_list(vec![1]).expect("allocates");
    match heap.infer_type(bytes).expect("typed") {
        RuntimeType::List(inner) => assert!(is_builtin(&inner, BuiltinType::U8)),
        other => panic!("unexpected {:?}", other),
    }
    let empty = heap.alloc_root_empty().expect("allocates");
    match heap.infer_type(empty) {
        Err(EngineError::UnknownType(name)) => assert_eq!(name, "list"),
        other => panic!("unexpected {:?}", other),
    }
}

#[test]
fn mixed_lists_and_dicts_are_type_errors() {
    let mut heap = Heap::new(1);
    let a = heap.alloc_root_i64(1).expect("allocates");
    let b = heap.alloc_root_bool(true).expect("allocates");
    let list = heap.alloc_root_list(&vec![a, b]).expect("allocates");
    match heap.infer_type(list) {
        Err(EngineError::TypeMismatch { expected, got }) => {
            assert!(is_builtin(&expected, BuiltinType::I64));
            assert!(is_builtin(&got, BuiltinType::Bool));
        }
        other => panic!("unexpected {:?}", other),
    }
    let d = heap
        .alloc_root_dict(vec!["x".to_string(), "y".to_string()], &vec![a, a])
        .expect("allocates");
    match heap.infer_type(d).expect("typed") {
        RuntimeType::Dict(inner) => assert!(is_builtin(&inner, BuiltinType::I64)),
        other => panic!("unexpected {:?}", other),
    }
}

#[test]
fn options_show_their_payload_type_and_others_are_unknown() {
    let mut heap = Heap::new(1);
    let v = heap.alloc_root_u32(3).expect("allocates");
    let some = heap.option_from_native_pointer(Some(v)).expect("allocates");
    match heap.infer_type(some).expect("typed") {
        RuntimeType::Option(inner) => assert!(is_builtin(&inner, BuiltinType::U32)),
        other => panic!("unexpected {:?}", other),
    }
    let none = heap.option_from_native_pointer(None).expect("allocates");
    match heap.infer_type(none) {
        Err(EngineError::UnknownType(name)) => assert_eq!(name, "option"),
        other => panic!("unexpected {:?}", other),
    }
    let ok = heap.result_from_native_pointer(Ok(v)).expect("allocates");
    match heap.infer_type(ok) {
        Err(EngineError::UnknownType(name)) => assert_eq!(name, "result"),
        other => panic!("unexpected {:?}", other),
    }
    let point = heap.alloc_root_adt("Point".to_string(), &vec![v]).expect("allocates");
    match heap.infer_type(point) {
        Err(EngineError::UnknownType(name)) => assert_eq!(name, "Point"),
        other => panic!("unexpected {:?}", other),
    }
}

#[test]
fn runtime_types_read_as_the_language_writes_them() {
    let t = RuntimeType::List(Box::new(RuntimeType::Tuple(vec![
        RuntimeType::Builtin(BuiltinType::I32),
        RuntimeType::Option(Box::new(RuntimeType::Builtin(BuiltinType::String))),
    ])));
    assert_eq!(rex_engine::types::type_text(&t), "List (i32, Option string)");
    assert_eq!(rex_engine::types::type_text(&RuntimeType::Tuple(vec![])), "()");
}
