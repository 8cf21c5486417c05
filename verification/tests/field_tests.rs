use rex_engine::error::EngineError;
use rex_engine::fields::{apply_record_update_values, parse_usize, project_pointer, runtime_ctor_matches};
use rex_engine::heap::Heap;

#[test]
fn field_indices_read_like_usize_parse() {
    assert_eq!(parse_usize("0"), Some(0));
    assert_eq!(parse_usize("42"), Some(42));
    assert_eq!(parse_usize("+7"), Some(7));
    assert_eq!(parse_usize("007"), Some(7));
    assert_eq!(parse_usize(""), None);
    assert_eq!(parse_usize("+"), None);
    assert_eq!(parse_usize("-1"), None);
    assert_eq!(parse_usize("12a"), None);
    assert_eq!(parse_usize(" 1"), None);
    assert_eq!(parse_usize("name"), None);
    assert_eq!(parse_usize("18446744073709551615"), Some(usize::MAX));
    assert_eq!(parse_usize("18446744073709551616"), None);
    for s in ["0", "+12", "99999", "1x", "", "+-3", "340282366920938463463374607431768211456"] {
        assert_eq!(parse_usize(s), s.parse::<usize>().ok());
    }
}

#[test]
fn constructor_names_match_on_their_last_segment() {
    assert!(runtime_ctor_matches("Option.Some", "Some"));
    assert!(runtime_ctor_matches("a.b.Some", "Option.Some"));
    assert!(runtime_ctor_matches("Some", "Some"));
    assert!(!runtime_ctor_matches("Option.Some", "None"));
    assert!(!runtime_ctor_matches("Some.Option", "Some"));
    assert!(runtime_ctor_matches("x.", ""));
}

fn unknown(res: Result<rex_engine::cell::RootedPtr, EngineError>) -> (String, &'static str) {
    match res {
        Err(EngineError::UnknownField { field, value }) => (field, value),
        other => panic!("expected an unknown field, got {:?}", other),
    }
}

#[test]
fn tuple_fields_project_by_index() {
    let mut heap = Heap::new(1);
    let a = heap.alloc_root_i32(10).expect("allocates");
    let b = heap.alloc_root_i32(20).expect("allocates");
    let t = heap.alloc_root_tuple(&vec![a, b]).expect("allocates");
    let second = project_pointer(&mut heap, "1", t).expect("field 1");
    assert_eq!(heap.root_as_i32(second).expect("i32"), 20);
    assert_eq!(unknown(project_pointer(&mut heap, "2", t)), ("2".to_string(), "tuple"));
    assert_eq!(unknown(project_pointer(&mut heap, "x", t)), ("x".to_string(), "tuple"));
    assert_eq!(unknown(project_pointer(&mut heap, "0", a)), ("0".to_string(), "i32"));
}

#[test]
fn record_fields_project_by_name() {
    let mut heap = Heap::new(1);
    let x = heap.alloc_root_i32(1).expect("allocates");
    let y = heap.alloc_root_i32(2).expect("allocates");
    let dict = heap
        .alloc_root_dict(vec!["x".to_string(), "y".to_string()], &vec![x, y])
        .expect("allocates");
    let point = heap.alloc_root_adt("Point".to_string(), &vec![dict]).expect("allocates");
    let got = project_pointer(&mut heap, "y", point).expect("field y");
    assert_eq!(heap.root_as_i32(got).expect("i32"), 2);
    assert_eq!(unknown(project_pointer(&mut heap, "z", point)), ("z".to_string(), "record"));
    let pair = heap.alloc_root_adt("Pair".to_string(), &vec![x, y]).expect("allocates");
    assert_eq!(unknown(project_pointer(&mut heap, "x", pair)), ("x".to_string(), "adt"));
    let boxed = heap.alloc_root_adt("Box".to_string(), &vec![x]).expect("allocates");
    assert_eq!(unknown(project_pointer(&mut heap, "x", boxed)), ("x".to_string(), "i32"));
    assert_eq!(unknown(project_pointer(&mut heap, "x", dict)), ("x".to_string(), "dict"));
}

fn field_names_and_values(heap: &mut Heap, dict: rex_engine::cell::RootedPtr) -> Vec<(String, i32)> {
    let fields = heap.root_as_dict(dict).expect("dict");
    fields.into_iter().map(|(k, v)| (k, heap.root_as_i32(v).expect("i32"))).collect()
}

#[test]
fn record_updates_replace_and_add_fields_in_name_order() {
    let mut heap = Heap::new(1);
    let one = heap.alloc_root_i32(1).expect("allocates");
    let two = heap.alloc_root_i32(2).expect("allocates");
    let nine = heap.alloc_root_i32(9).expect("allocates");
    let base = heap
        .alloc_root_dict(vec!["b".to_string(), "d".to_string()], &vec![one, two])
        .expect("allocates");
    let updated = apply_record_update_values(
        &mut heap,
        base,
        &vec![("d".to_string(), nine), ("a".to_string(), one)],
    )
    .expect("updates");
    assert_eq!(
        field_names_and_values(&mut heap, updated),
        vec![("a".to_string(), 1), ("b".to_string(), 1), ("d".to_string(), 9)]
    );
    assert_eq!(
        field_names_and_values(&mut heap, base),
        vec![("b".to_string(), 1), ("d".to_string(), 2)]
    );

    let point = heap.alloc_root_adt("Point".to_string(), &vec![base]).expect("allocates");
    let moved = apply_record_update_values(&mut heap, point, &vec![("b".to_string(), nine)]).expect("updates");
    let (tag, args) = heap.root_as_adt(moved).expect("adt");
    assert_eq!(tag, "Point");
    assert_eq!(
        field_names_and_values(&mut heap, args[0]),
        vec![("b".to_string(), 9), ("d".to_string(), 2)]
    );
}

#[test]
fn record_updates_on_other_values_are_unsupported() {
    let mut heap = Heap::new(1);
    let one = heap.alloc_root_i32(1).expect("allocates");
    assert!(matches!(
        apply_record_update_values(&mut heap, one, &vec![]),
        Err(EngineError::UnsupportedExpr)
    ));
    let pair = heap.alloc_root_adt("Pair".to_string(), &vec![one, one]).expect("allocates");
    assert!(matches!(
        apply_record_update_values(&mut heap, pair, &vec![]),
        Err(EngineError::UnsupportedExpr)
    ));
    let boxed = heap.alloc_root_adt("Box".to_string(), &vec![one]).expect("allocates");
    assert!(matches!(
        apply_record_update_values(&mut heap, boxed, &vec![]),
        Err(EngineError::UnsupportedExpr)
    ));
}
