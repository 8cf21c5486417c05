use rex_engine::error::EngineError;
use rex_engine::rex_convert::{FromRex, IntoRex};
use rex_engine::value::Value;

fn kinds(e: EngineError) -> (&'static str, &'static str) {
    match e {
        EngineError::NativeType { expected, got } => (expected, got),
        other => panic!("unexpected {:?}", other),
    }
}

#[test]
fn scalars_convert_both_ways() {
    assert!(matches!(7u8.into_rex(), Ok(Value::U8(7))));
    assert!(matches!((-3i64).into_rex(), Ok(Value::I64(-3))));
    assert!(matches!(true.into_rex(), Ok(Value::Bool(true))));
    assert_eq!(u32::from_rex(Value::U32(9)).expect("u32"), 9);
    assert_eq!(kinds(u32::from_rex(Value::U8(9)).unwrap_err()), ("u32", "u8"));
    assert_eq!(String::from_rex(Value::String("hi".to_string())).expect("string"), "hi");
    match "hey".into_rex() {
        Ok(Value::String(s)) => assert_eq!(s, "hey"),
        other => panic!("unexpected {:?}", other),
    }
    assert_eq!(Value::I16(4).to_rust::<i16>().expect("i16"), 4);
}

#[test]
fn byte_vectors_use_byte_strings_and_others_use_lists() {
    match vec![1u8, 2, 3].into_rex() {
        Ok(Value::Bytes(b)) => assert_eq!(b, vec![1, 2, 3]),
        other => panic!("unexpected {:?}", other),
    }
    match vec![1u16, 2].into_rex() {
        Ok(Value::List(items)) => assert_eq!(items.len(), 2),
        other => panic!("unexpected {:?}", other),
    }
    assert_eq!(Vec::<u8>::from_rex(Value::Bytes(vec![4, 5])).expect("bytes"), vec![4, 5]);
    assert_eq!(kinds(Vec::<u8>::from_rex(Value::List(vec![])).unwrap_err()), ("bytes", "list"));
    assert_eq!(
        Vec::<bool>::from_rex(Value::List(vec![Value::Bool(true), Value::Bool(false)])).expect("bools"),
        vec![true, false]
    );
    assert_eq!(
        kinds(Vec::<bool>::from_rex(Value::List(vec![Value::Bool(true), Value::U8(1)])).unwrap_err()),
        ("bool", "u8")
    );
    assert_eq!(kinds(Vec::<bool>::from_rex(Value::Bytes(vec![])).unwrap_err()), ("list", "bytes"));
}

#[test]
fn options_and_results_are_constructors() {
    match Some(5i32).into_rex() {
        Ok(Value::Adt(tag, args)) => {
            assert_eq!(tag, "Some");
            assert!(matches!(args.as_slice(), [Value::I32(5)]));
        }
        other => panic!("unexpected {:?}", other),
    }
    assert_eq!(
        Option::<i32>::from_rex(Value::Adt("Some".to_string(), vec![Value::I32(2)])).expect("some"),
        Some(2)
    );
    assert_eq!(Option::<i32>::from_rex(Value::Adt("None".to_string(), vec![])).expect("none"), None);
    assert_eq!(kinds(Option::<i32>::from_rex(Value::Adt("Ok".to_string(), vec![Value::I32(2)])).unwrap_err()), ("option", "adt"));
    assert_eq!(
        Result::<u8, String>::from_rex(Value::Adt("Err".to_string(), vec![Value::String("bad".to_string())]))
            .expect("result"),
        Err("bad".to_string())
    );
    match Result::<u8, bool>::Ok(1).into_rex() {
        Ok(Value::Adt(tag, args)) => {
            assert_eq!(tag, "Ok");
            assert!(matches!(args.as_slice(), [Value::U8(1)]));
        }
        other => panic!("unexpected {:?}", other),
    }
}

#[test]
fn tuples_check_their_arity() {
    let pair = Value::Tuple(vec![Value::U8(1), Value::Bool(true)]);
    assert_eq!(<(u8, bool)>::from_rex(pair).expect("pair"), (1, true));
    let short = Value::Tuple(vec![Value::U8(1)]);
    assert_eq!(kinds(<(u8, bool)>::from_rex(short).unwrap_err()), ("tuple", "tuple with too few items"));
    let long = Value::Tuple(vec![Value::U8(1), Value::Bool(true), Value::U8(2)]);
    assert_eq!(kinds(<(u8, bool)>::from_rex(long).unwrap_err()), ("tuple", "tuple with too many items"));
    assert_eq!(<()>::from_rex(Value::Tuple(vec![])).expect("unit"), ());
    assert_eq!(kinds(<()>::from_rex(Value::Tuple(vec![Value::U8(1)])).unwrap_err()), ("unit", "tuple"));
    match (1u8, 2u16, 3u32).into_rex() {
        Ok(Value::Tuple(items)) => assert!(matches!(items.as_slice(), [Value::U8(1), Value::U16(2), Value::U32(3)])),
        other => panic!("unexpected {:?}", other),
    }
    let eight = (1u8, 2u8, 3u8, 4u8, 5u8, 6u8, 7u8, 8u8).into_rex().expect("encodes");
    assert_eq!(<(u8, u8, u8, u8, u8, u8, u8, u8)>::from_rex(eight).expect("decodes"), (1, 2, 3, 4, 5, 6, 7, 8));
    assert_eq!(<(i8,)>::from_rex(Value::Tuple(vec![Value::I8(-1)])).expect("single"), (-1,));
}

#[test]
fn values_come_back_from_a_round_trip() {
    let nested: Vec<(Option<String>, Result<i64, bool>)> = vec![
        (Some("a".to_string()), Ok(-5)),
        (None, Err(true)),
    ];
    let encoded = nested.clone().into_rex().expect("encodes");
    let decoded = Vec::<(Option<String>, Result<i64, bool>)>::from_rex(encoded).expect("decodes");
    assert_eq!(decoded, nested);
    let bytes = vec![0u8, 255, 7];
    let back = Vec::<u8>::from_rex(bytes.clone().into_rex().expect("encodes")).expect("decodes");
    assert_eq!(back, bytes);
}
