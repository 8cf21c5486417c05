use rex_engine::error::EngineError;
use rex_engine::value::{
    conversion_error, display_adt_name, local_name, take_root_tail, ConversionPath, Value,
    ValueDisplayOptions,
};

#[test]
fn display_options_have_two_presets() {
    let u = ValueDisplayOptions::unsanitized();
    assert!(u.include_numeric_suffixes);
    assert!(!u.strip_internal_snippet_qualifiers);
    let d = ValueDisplayOptions::docs();
    assert!(!d.include_numeric_suffixes);
    assert!(d.strip_internal_snippet_qualifiers);
    assert_eq!(ValueDisplayOptions::default(), d);
}

#[test]
fn values_name_their_kind() {
    assert_eq!(Value::Bool(true).value_type_name(), "Bool");
    assert_eq!(Value::Char('x').value_type_name(), "Char");
    assert_eq!(Value::Uuid(0).value_type_name(), "UUID");
    assert_eq!(Value::DateTime { secs: 0, nanos: 0 }.value_type_name(), "DateTime");
    assert_eq!(Value::Bytes(vec![]).value_type_name(), "bytes");
    assert_eq!(Value::Adt("Some".to_string(), vec![]).value_type_name(), "adt");
    assert_eq!(Value::F64(0).value_type_name(), "f64");
}

#[test]
fn accessors_read_their_own_kind_and_refuse_others() {
    assert_eq!(Value::I64(-3).as_i64().unwrap(), -3);
    assert_eq!(Value::U8(3).as_u8().unwrap(), 3);
    assert_eq!(Value::String("s".to_string()).as_string().unwrap(), "s");
    assert_eq!(Value::F32(1.5f32.to_bits()).as_f32_bits().unwrap(), 1.5f32.to_bits());
    match Value::U8(3).as_bool() {
        Err(EngineError::NativeType { expected, got }) => {
            assert_eq!(expected, "bool");
            assert_eq!(got, "u8");
        }
        _ => panic!("expected a mismatch"),
    }
    let list = Value::List(vec![Value::U8(1), Value::U8(2)]);
    assert_eq!(list.as_list().unwrap().len(), 2);
    assert!(list.as_tuple().is_err());
    assert_eq!(Value::Bytes(vec![1, 2]).as_bytes().unwrap(), &[1u8, 2u8][..]);
    let dict = Value::Dict(vec![("a".to_string(), Value::Bool(false))]);
    assert_eq!(dict.as_dict().unwrap()[0].0, "a");
    assert!(Value::Tuple(vec![]).as_dict().is_err());
}

#[test]
fn local_names_follow_the_last_dot() {
    assert_eq!(local_name("a.b.c"), "c");
    assert_eq!(local_name("plain"), "plain");
    assert_eq!(local_name("ends."), "");
}

#[test]
fn snippet_constructors_lose_their_qualifier_in_docs() {
    let docs = ValueDisplayOptions::docs();
    let raw = ValueDisplayOptions::unsanitized();
    assert_eq!(display_adt_name("@snippet1234.Point", docs), "Point");
    assert_eq!(display_adt_name("@snippet1234.Point", raw), "@snippet1234.Point");
    assert_eq!(display_adt_name("@m00ff.Point", docs), "@m00ff.Point");
    assert_eq!(display_adt_name("@snip", docs), "@snip");
}

#[test]
fn conversion_paths_render_from_the_root() {
    let root = ConversionPath::root();
    assert_eq!(root.to_string(), "$");
    let p = root.child("[1]".to_string()).child(".name".to_string());
    assert_eq!(p.to_string(), "$[1].name");
    match conversion_error(p.to_string(), "i32".to_string(), "Bool".to_string()) {
        EngineError::ValueConversion { path, expected, got } => {
            assert_eq!(path, "$[1].name");
            assert_eq!(expected, "i32");
            assert_eq!(got, "Bool");
        }
        _ => panic!("expected a conversion error"),
    }
}

#[test]
fn tails_come_off_the_conversion_stack_in_order() {
    let mut stack = vec![1, 2, 3, 4];
    assert_eq!(take_root_tail(&mut stack, 3).unwrap(), vec![2, 3, 4]);
    assert_eq!(stack, vec![1]);
    assert!(take_root_tail(&mut stack, 2).is_err());
    assert_eq!(stack, vec![1]);
    assert_eq!(take_root_tail(&mut stack, 0).unwrap(), Vec::<i32>::new());
}
