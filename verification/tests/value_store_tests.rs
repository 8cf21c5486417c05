use rex_engine::conv_types::{AdtDecl, AdtVariant, ConvType, TypeTable};
use rex_engine::error::EngineError;
use rex_engine::heap::Heap;
use rex_engine::value::Value;

fn con(name: &str) -> ConvType {
    ConvType::Con(name.to_string())
}

fn app(f: ConvType, a: ConvType) -> ConvType {
    ConvType::App(Box::new(f), Box::new(a))
}

fn list_of(t: ConvType) -> ConvType {
    app(con("List"), t)
}

fn option_table() -> TypeTable {
    TypeTable {
        adts: vec![AdtDecl {
            name: "Option".to_string(),
            params: vec![7],
            variants: vec![
                AdtVariant { name: "prelude.None".to_string(), fields: vec![] },
                AdtVariant { name: "prelude.Some".to_string(), fields: vec![ConvType::Var(7)] },
            ],
        }],
    }
}

fn same(a: &Value, b: &Value) -> bool {
    format!("{:?}", a) == format!("{:?}", b)
}

#[test]
fn byte_list_host_representation_is_strictly_canonical() {
    let types = option_table();
    let expected = list_of(con("u8"));
    let mut heap = Heap::new(1);
    let root = heap.alloc_value(Value::Bytes(vec![1, 2, 3]), &expected, &types).unwrap();
    assert!(same(&heap.export_value(root, &expected, &types).unwrap(), &Value::Bytes(vec![1, 2, 3])));

    let error = heap.alloc_value(Value::List(vec![Value::U8(1), Value::U8(2)]), &expected, &types).unwrap_err();
    assert!(matches!(error, EngineError::ValueConversion { ref path, .. } if path == "$"));
}

#[test]
fn owned_composites_round_trip_and_errors_identify_nested_paths() {
    let types = option_table();
    let expected = ConvType::Tuple(vec![
        list_of(con("i32")),
        ConvType::Record(vec![("enabled".to_string(), con("Bool")), ("name".to_string(), con("String"))]),
        app(con("Option"), con("i32")),
    ]);
    let value = || {
        Value::Tuple(vec![
            Value::List(vec![Value::I32(1), Value::I32(2)]),
            Value::Dict(vec![
                ("enabled".to_string(), Value::Bool(true)),
                ("name".to_string(), Value::String("sample".to_string())),
            ]),
            Value::Adt("Some".to_string(), vec![Value::I32(3)]),
        ])
    };
    let mut heap = Heap::new(1);
    let root = heap.alloc_value(value(), &expected, &types).unwrap();
    assert!(same(&heap.export_value(root, &expected, &types).unwrap(), &value()));

    let wrong = ConvType::Tuple(vec![con("i32"), con("i32")]);
    let error = heap.alloc_value(Value::Tuple(vec![Value::I32(1), Value::Bool(false)]), &wrong, &types).unwrap_err();
    assert!(matches!(
        error,
        EngineError::ValueConversion { ref path, ref expected, ref got }
            if path == "$[1]" && expected == "i32" && got == "Bool"
    ));
}

#[test]
fn function_values_and_unknown_constructors_are_rejected() {
    let types = option_table();
    let function = ConvType::Fun(Box::new(con("i32")), Box::new(con("i32")));
    let option = app(con("Option"), con("i32"));
    let mut heap = Heap::new(1);
    let scalar = heap.alloc_root_i32(1).unwrap();
    assert!(matches!(heap.export_value(scalar, &function, &types), Err(EngineError::ValueConversion { .. })));
    assert!(matches!(heap.alloc_value(Value::I32(1), &function, &types), Err(EngineError::ValueConversion { .. })));
    assert!(matches!(
        heap.alloc_value(Value::Adt("Bogus".to_string(), vec![]), &option, &types),
        Err(EngineError::ValueConversion { .. })
    ));
    assert!(matches!(
        heap.alloc_value(Value::Adt("another.module.Some".to_string(), vec![Value::I32(1)]), &option, &types),
        Err(EngineError::ValueConversion { .. })
    ));
}

#[test]
fn deeply_nested_adts_convert_without_using_the_rust_call_stack() {
    const DEPTH: usize = 10_000;
    let expected = con("Chain");
    let types = TypeTable {
        adts: vec![AdtDecl {
            name: "Chain".to_string(),
            params: vec![],
            variants: vec![
                AdtVariant { name: "End".to_string(), fields: vec![] },
                AdtVariant { name: "Next".to_string(), fields: vec![con("Chain")] },
            ],
        }],
    };
    let mut input = Value::Adt("End".to_string(), vec![]);
    for _ in 0..DEPTH {
        input = Value::Adt("Next".to_string(), vec![input]);
    }
    let mut heap = Heap::new(1);
    let root = heap.alloc_value(input, &expected, &types).unwrap();
    let mut output = heap.export_value(root, &expected, &types).unwrap();
    for _ in 0..DEPTH {
        let Value::Adt(tag, mut fields) = output else {
            panic!("expected Next constructor");
        };
        assert_eq!(tag, "Next");
        assert_eq!(fields.len(), 1);
        output = fields.pop().unwrap();
    }
    assert!(matches!(output, Value::Adt(ref tag, ref fields) if tag == "End" && fields.is_empty()));
}

#[test]
fn records_are_stored_under_their_field_names() {
    let types = option_table();
    let expected = ConvType::Record(vec![("b".to_string(), con("u64")), ("a".to_string(), con("Bool"))]);
    let mut heap = Heap::new(1);
    let value = Value::Dict(vec![("a".to_string(), Value::Bool(true)), ("b".to_string(), Value::U64(9))]);
    let root = heap.alloc_value(value, &expected, &types).unwrap();
    let back = heap.export_value(root, &expected, &types).unwrap();
    assert!(same(&back, &Value::Dict(vec![("a".to_string(), Value::Bool(true)), ("b".to_string(), Value::U64(9))])));

    let missing = Value::Dict(vec![("a".to_string(), Value::Bool(true)), ("c".to_string(), Value::U64(9))]);
    let error = heap.alloc_value(missing, &expected, &types).unwrap_err();
    assert!(matches!(
        error,
        EngineError::ValueConversion { ref path, ref expected, ref got }
            if path == "$.b" && expected == "u64" && got == "missing field"
    ));
}

#[test]
fn storing_under_stress_keeps_every_part() {
    let types = option_table();
    let expected = list_of(ConvType::Tuple(vec![con("i32"), con("String")]));
    let mut heap = Heap::new(1);
    heap.set_extreme_stress(true);
    let value = Value::List(vec![
        Value::Tuple(vec![Value::I32(1), Value::String("x".to_string())]),
        Value::Tuple(vec![Value::I32(2), Value::String("y".to_string())]),
    ]);
    let expected_back = format!("{:?}", value);
    let root = heap.alloc_value(value, &expected, &types).unwrap();
    let back = heap.export_value(root, &expected, &types).unwrap();
    assert_eq!(format!("{:?}", back), expected_back);
}

#[test]
fn main_inputs_are_stored_in_order() {
    let types = option_table();
    let mut heap = Heap::new(1);
    let args = vec![(Value::I32(4), con("i32")), (Value::String("hi".to_string()), con("String"))];
    let roots = heap.alloc_input_args(args, &types).unwrap();
    assert_eq!(roots.len(), 2);
    assert_eq!(heap.root_as_i32(roots[0]).unwrap(), 4);
    assert_eq!(heap.root_as_string(roots[1]).unwrap(), "hi");

    let bad = vec![(Value::I32(4), con("i32")), (Value::Bool(true), con("i32")), (Value::U8(1), con("Bool"))];
    match heap.alloc_input_args(bad, &types) {
        Err(EngineError::ValueConversion { path, expected, got }) => {
            assert_eq!(path, "$");
            assert_eq!(expected, "i32");
            assert_eq!(got, "Bool");
        },
        other => panic!("expected a conversion error, got {:?}", other),
    }
}
