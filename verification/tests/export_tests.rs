use rex_engine::conv_types::{AdtDecl, AdtVariant, ConvType, TypeTable};
use rex_engine::error::EngineError;
use rex_engine::heap::Heap;
use rex_engine::value::Value;

fn con(name: &str) -> ConvType {
    ConvType::Con(name.to_string())
}

fn app(f: ConvType, a: ConvType) -> ConvType {
    ConvType::App(Box::new(f), Box::new(a))
}

fn list_of(t: ConvType) -> ConvType {
    app(con("List"), t)
}

fn option_table() -> TypeTable {
    TypeTable {
        adts: vec![AdtDecl {
            name: "Option".to_string(),
            params: vec![7],
            variants: vec![
                AdtVariant { name: "prelude.None".to_string(), fields: vec![] },
                AdtVariant { name: "prelude.Some".to_string(), fields: vec![ConvType::Var(7)] },
            ],
        }],
    }
}

fn empty_table() -> TypeTable {
    TypeTable { adts: vec![] }
}

fn conversion_parts(e: EngineError) -> (String, String, String) {
    match e {
        EngineError::ValueConversion { path, expected, got } => (path, expected, got),
        other => panic!("expected a conversion error, got {:?}", other),
    }
}

#[test]
fn list_u8_is_canonicalized_from_every_physical_layout() {
    let expected = list_of(con("u8"));
    let mut heap = Heap::new(1);

    let empty = heap.alloc_root_empty().unwrap();

    let mut ordinary_items = Vec::new();
    for value in [1u8, 2, 3] {
        ordinary_items.push(heap.alloc_root_u8(value).unwrap());
    }
    let ordinary = heap.alloc_root_list(&ordinary_items).unwrap();

    let mut data_items = Vec::new();
    for value in [2u8, 3, 4] {
        data_items.push(heap.alloc_root_u8(value).unwrap());
    }
    let data = heap.alloc_root_data(&data_items).unwrap();
    let data_slice = heap.alloc_root_list_slice(0, 2, data).unwrap();
    let data_head = heap.alloc_root_u8(1).unwrap();
    let data_hybrid = heap.alloc_root_cons(data_head, data_slice).unwrap();

    let binary_data = heap.alloc_root_binary_data(vec![2, 3, 4]).unwrap();
    let binary_slice = heap.alloc_root_list_slice(0, 2, binary_data).unwrap();
    let binary_head = heap.alloc_root_u8(1).unwrap();
    let binary_hybrid = heap.alloc_root_cons(binary_head, binary_slice).unwrap();

    let table = empty_table();
    let mut values = Vec::new();
    for root in [empty, ordinary, data_hybrid, binary_hybrid] {
        values.push(heap.export_value(root, &expected, &table).unwrap());
    }
    let bytes: Vec<Vec<u8>> = values
        .into_iter()
        .map(|v| match v {
            Value::Bytes(b) => b,
            other => panic!("expected bytes, got {:?}", other),
        })
        .collect();
    assert_eq!(bytes, vec![vec![], vec![1, 2, 3], vec![1, 2, 3], vec![1, 2, 3]]);
}

#[test]
fn function_values_are_rejected_when_read() {
    let mut heap = Heap::new(1);
    let scalar = heap.alloc_root_i32(1).unwrap();
    let function = ConvType::Fun(Box::new(con("i32")), Box::new(con("i32")));
    let err = heap.export_value(scalar, &function, &empty_table()).unwrap_err();
    let (path, expected, got) = conversion_parts(err);
    assert_eq!(path, "$");
    assert_eq!(expected, "i32 -> i32");
    assert_eq!(got, "i32");
}

#[test]
fn tuples_records_and_constructors_read_back() {
    let mut heap = Heap::new(1);
    let one = heap.alloc_root_i32(1).unwrap();
    let two = heap.alloc_root_i32(2).unwrap();
    let items = heap.alloc_root_list(&vec![one, two]).unwrap();
    let enabled = heap.alloc_root_bool(true).unwrap();
    let name = heap.alloc_root_string("sample".to_string()).unwrap();
    let record = heap
        .alloc_root_dict(vec!["enabled".to_string(), "name".to_string()], &vec![enabled, name])
        .unwrap();
    let three = heap.alloc_root_i32(3).unwrap();
    let some = heap.alloc_root_adt("prelude.Some".to_string(), &vec![three]).unwrap();
    let tuple = heap.alloc_root_tuple(&vec![items, record, some]).unwrap();

    let expected = ConvType::Tuple(vec![
        list_of(con("i32")),
        ConvType::Record(vec![
            ("name".to_string(), con("String")),
            ("enabled".to_string(), con("Bool")),
        ]),
        app(con("Option"), con("i32")),
    ]);
    let value = heap.export_value(tuple, &expected, &option_table()).unwrap();
    let parts = match value {
        Value::Tuple(parts) => parts,
        other => panic!("expected a tuple, got {:?}", other),
    };
    assert_eq!(parts.len(), 3);
    assert!(matches!(&parts[0], Value::List(xs) if matches!(xs.as_slice(), [Value::I32(1), Value::I32(2)])));
    match &parts[1] {
        Value::Dict(fields) => {
            assert_eq!(fields.len(), 2);
            assert_eq!(fields[0].0, "enabled");
            assert!(matches!(fields[0].1, Value::Bool(true)));
            assert_eq!(fields[1].0, "name");
            assert!(matches!(&fields[1].1, Value::String(s) if s == "sample"));
        }
        other => panic!("expected a dict, got {:?}", other),
    }
    match &parts[2] {
        Value::Adt(tag, fields) => {
            assert_eq!(tag, "Some");
            assert!(matches!(fields.as_slice(), [Value::I32(3)]));
        }
        other => panic!("expected a constructor, got {:?}", other),
    }
}

#[test]
fn mismatches_name_the_nested_path() {
    let mut heap = Heap::new(1);
    let one = heap.alloc_root_i32(1).unwrap();
    let flag = heap.alloc_root_bool(false).unwrap();
    let tuple = heap.alloc_root_tuple(&vec![one, flag]).unwrap();
    let expected = ConvType::Tuple(vec![con("i32"), con("i32")]);
    let (path, expected, got) = conversion_parts(heap.export_value(tuple, &expected, &empty_table()).unwrap_err());
    assert_eq!(path, "$[1]");
    assert_eq!(expected, "i32");
    assert_eq!(got, "bool");

    let three = ConvType::Tuple(vec![con("i32"), con("i32"), con("i32")]);
    let (_, expected, got) = conversion_parts(heap.export_value(tuple, &three, &empty_table()).unwrap_err());
    assert_eq!(expected, "(i32, i32, i32)");
    assert_eq!(got, "tuple with 2 items");
}

#[test]
fn records_report_the_last_missing_field() {
    let mut heap = Heap::new(1);
    let a = heap.alloc_root_i32(1).unwrap();
    let b = heap.alloc_root_i32(2).unwrap();
    let record = heap.alloc_root_dict(vec!["a".to_string(), "b".to_string()], &vec![a, b]).unwrap();
    let expected = ConvType::Record(vec![("x".to_string(), con("i32")), ("y".to_string(), con("Bool"))]);
    let (path, expected_text, got) = conversion_parts(heap.export_value(record, &expected, &empty_table()).unwrap_err());
    assert_eq!(path, "$.y");
    assert_eq!(expected_text, "Bool");
    assert_eq!(got, "missing field");

    let wider = ConvType::Record(vec![("a".to_string(), con("i32"))]);
    let (_, _, got) = conversion_parts(heap.export_value(record, &wider, &empty_table()).unwrap_err());
    assert_eq!(got, "record with 2 fields");
}

#[test]
fn unknown_constructors_and_types_are_rejected() {
    let mut heap = Heap::new(1);
    let bogus = heap.alloc_root_adt("Bogus".to_string(), &vec![]).unwrap();
    let option = app(con("Option"), con("i32"));
    let (path, expected, got) = conversion_parts(heap.export_value(bogus, &option, &option_table()).unwrap_err());
    assert_eq!(path, "$");
    assert_eq!(expected, "Option");
    assert_eq!(got, "constructor `Bogus` from another ADT (expected one of: prelude.None, prelude.Some)");

    let (_, _, got) = conversion_parts(heap.export_value(bogus, &option, &empty_table()).unwrap_err());
    assert_eq!(got, "unknown ADT `Option`");

    let bare = con("Option");
    let (_, _, got) = conversion_parts(heap.export_value(bogus, &bare, &option_table()).unwrap_err());
    assert_eq!(got, "0 type arguments");

    let var = ConvType::Var(3);
    let (_, expected, got) = conversion_parts(heap.export_value(bogus, &var, &option_table()).unwrap_err());
    assert_eq!(expected, "t3");
    assert_eq!(got, "unresolved type variable");
}

#[test]
fn dictionaries_read_each_entry_with_the_element_type() {
    let mut heap = Heap::new(1);
    let x = heap.alloc_root_u64(5).unwrap();
    let y = heap.alloc_root_u64(6).unwrap();
    let dict = heap.alloc_root_dict(vec!["y".to_string(), "x".to_string()], &vec![y, x]).unwrap();
    let expected = app(con("Dict"), con("u64"));
    match heap.export_value(dict, &expected, &empty_table()).unwrap() {
        Value::Dict(fields) => {
            assert_eq!(fields.len(), 2);
            assert_eq!(fields[0].0, "x");
            assert!(matches!(fields[0].1, Value::U64(5)));
            assert!(matches!(fields[1].1, Value::U64(6)));
        }
        other => panic!("expected a dict, got {:?}", other),
    }
    let nested = app(con("Dict"), list_of(con("u64")));
    let (path, expected_text, got) = conversion_parts(heap.export_value(dict, &nested, &empty_table()).unwrap_err());
    assert_eq!(path, "$.x");
    assert_eq!(expected_text, "List u64");
    assert_eq!(got, "u64");
}

#[test]
fn deeply_nested_constructors_read_without_recursion() {
    const DEPTH: usize = 10_000;
    let chain = con("Chain");
    let table = TypeTable {
        adts: vec![AdtDecl {
            name: "Chain".to_string(),
            params: vec![],
            variants: vec![
                AdtVariant { name: "End".to_string(), fields: vec![] },
                AdtVariant { name: "Next".to_string(), fields: vec![con("Chain")] },
            ],
        }],
    };
    let mut heap = Heap::new(1);
    let mut root = heap.alloc_root_adt("End".to_string(), &vec![]).unwrap();
    for _ in 0..DEPTH {
        root = heap.alloc_root_adt("Next".to_string(), &vec![root]).unwrap();
    }
    let mut output = heap.export_value(root, &chain, &table).unwrap();
    for _ in 0..DEPTH {
        let Value::Adt(tag, mut fields) = output else {
            panic!("expected Next constructor");
        };
        assert_eq!(tag, "Next");
        assert_eq!(fields.len(), 1);
        output = fields.pop().unwrap();
    }
    assert!(matches!(output, Value::Adt(ref tag, ref fields) if tag == "End" && fields.is_empty()));
}
