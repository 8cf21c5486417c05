use rex_engine::error::EngineError;
use rex_engine::heap::Heap;
use rex_engine::literals::{IntKind, LiteralType};

#[test]
fn literals_take_their_inferred_integer_type() {
    let mut heap = Heap::new(1);
    let a = heap.alloc_uint_literal_as(200, &LiteralType::Int(IntKind::U8)).expect("fits");
    assert_eq!(heap.root_as_u8(a).expect("u8"), 200);
    let b = heap.alloc_int_literal_as(-5, &LiteralType::Int(IntKind::I16)).expect("fits");
    assert_eq!(heap.root_as_i16(b).expect("i16"), -5);
    let c = heap.alloc_uint_literal_as(7, &LiteralType::Var).expect("fits");
    assert_eq!(heap.root_as_i32(c).expect("i32"), 7);
    let d = heap.alloc_uint_literal_as(u64::MAX, &LiteralType::Int(IntKind::U64)).expect("fits");
    assert_eq!(heap.root_as_u64(d).expect("u64"), u64::MAX);
    let e = heap.alloc_int_literal_as(i64::MIN, &LiteralType::Int(IntKind::I64)).expect("fits");
    assert_eq!(heap.root_as_i64(e).expect("i64"), i64::MIN);
}

#[test]
fn literals_that_do_not_fit_are_refused_with_their_value() {
    let mut heap = Heap::new(1);
    match heap.alloc_uint_literal_as(256, &LiteralType::Int(IntKind::U8)) {
        Err(EngineError::LiteralOutOfRange { expected, value }) => {
            assert_eq!(expected, "u8");
            assert_eq!(value, 256);
        }
        other => panic!("unexpected {:?}", other),
    }
    match heap.alloc_int_literal_as(-1, &LiteralType::Int(IntKind::U32)) {
        Err(EngineError::LiteralOutOfRange { expected, value }) => {
            assert_eq!(expected, "u32");
            assert_eq!(value, -1);
        }
        other => panic!("unexpected {:?}", other),
    }
    match heap.alloc_uint_literal_as(1 << 40, &LiteralType::Var) {
        Err(EngineError::LiteralOutOfRange { expected, .. }) => assert_eq!(expected, "i32"),
        other => panic!("unexpected {:?}", other),
    }
    match heap.alloc_int_literal_as(1, &LiteralType::Other("string".to_string())) {
        Err(EngineError::NotIntegral { got }) => assert_eq!(got, "string"),
        other => panic!("unexpected {:?}", other),
    }
    assert_eq!(heap.len(), 0);
}
