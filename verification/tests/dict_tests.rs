use rex_engine::dicts::{dict_insert_field, text_less};
use rex_engine::heap::Heap;

#[test]
fn names_order_like_strings() {
    assert!(text_less("a", "b"));
    assert!(text_less("a", "ab"));
    assert!(!text_less("ab", "a"));
    assert!(!text_less("x", "x"));
    assert!(text_less("", "a"));
    assert!(text_less("Z", "a"));
    assert!(text_less("é", "ê"));
    for (a, b) in [("abc", "abd"), ("b", "a"), ("", ""), ("x1", "x"), ("ñ", "n")] {
        assert_eq!(text_less(a, b), a < b);
    }
}

#[test]
fn setting_fields_keeps_names_in_order() {
    let mut d: Vec<(String, u32)> = Vec::new();
    assert!(!dict_insert_field(&mut d, "m".to_string(), 1));
    assert!(!dict_insert_field(&mut d, "c".to_string(), 2));
    assert!(!dict_insert_field(&mut d, "x".to_string(), 3));
    assert!(dict_insert_field(&mut d, "c".to_string(), 4));
    let names: Vec<&str> = d.iter().map(|(k, _)| k.as_str()).collect();
    assert_eq!(names, vec!["c", "m", "x"]);
    assert_eq!(d[0].1, 4);
}

#[test]
fn dictionaries_sort_their_fields_and_keep_the_last_of_a_name() {
    let mut heap = Heap::new(1);
    let a = heap.alloc_root_i32(1).expect("allocates");
    let b = heap.alloc_root_i32(2).expect("allocates");
    let c = heap.alloc_root_i32(3).expect("allocates");
    let dict = heap
        .alloc_root_dict(vec!["y".to_string(), "x".to_string(), "y".to_string()], &vec![a, b, c])
        .expect("allocates");
    let fields = heap.root_as_dict(dict).expect("dict");
    let names: Vec<&str> = fields.iter().map(|(k, _)| k.as_str()).collect();
    assert_eq!(names, vec!["x", "y"]);
    assert_eq!(heap.root_as_i32(fields[0].1).expect("i32"), 2);
    assert_eq!(heap.root_as_i32(fields[1].1).expect("i32"), 3);
}
