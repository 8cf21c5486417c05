use rex_engine::cell::RootedPtr;
use rex_engine::error::EngineError;
use rex_engine::heap::Heap;
use rex_engine::patterns::Pattern;

fn wildcard() -> Pattern {
    Pattern::Wildcard
}

fn var(name: &str) -> Pattern {
    Pattern::Var(name.to_string())
}

fn bound(bindings: &[(String, RootedPtr)], name: &str) -> RootedPtr {
    bindings.iter().find(|(n, _)| n == name).map(|(_, r)| *r).expect("name should be bound")
}

#[test]
fn binary_list_length_and_wildcard_patterns_do_not_allocate_elements() {
    let mut heap = Heap::new(1);
    let list = heap.alloc_root_binary_list(vec![10, 20, 30, 40]).expect("binary list should allocate");
    heap.set_extreme_stress(true);
    let collections_before = heap.collection_count();

    let empty = Pattern::List(Vec::new());
    assert!(heap.match_pattern_ptr(&empty, list).expect("pattern matching should not error").is_none());

    let wrong_len = Pattern::List(vec![wildcard()]);
    assert!(heap.match_pattern_ptr(&wrong_len, list).expect("pattern matching should not error").is_none());

    let exact_wildcards = Pattern::List(vec![wildcard(), wildcard(), wildcard(), wildcard()]);
    assert_eq!(
        heap.match_pattern_ptr(&exact_wildcards, list).expect("pattern matching should not error").unwrap().len(),
        0
    );
    assert_eq!(heap.collection_count(), collections_before, "matching must not allocate a heap cell for each byte");
}

#[test]
fn nested_binary_list_bindings_survive_collection() {
    let mut heap = Heap::new(1);
    let first = heap.alloc_root_binary_list(vec![10]).expect("nested binary lists should allocate");
    let second = heap.alloc_root_binary_list(vec![20]).expect("nested binary lists should allocate");
    let outer = heap.alloc_root_list(&vec![first, second]).expect("nested binary lists should allocate");
    let pattern = Pattern::List(vec![Pattern::List(vec![var("x")]), Pattern::List(vec![var("y")])]);

    heap.set_extreme_stress(true);
    let collections_before = heap.collection_count();
    let bindings = heap
        .match_pattern_ptr(&pattern, outer)
        .expect("pattern matching should not error")
        .expect("nested list pattern should match");
    let x = bound(&bindings, "x");
    assert_eq!(heap.root_as_u8(x).expect("x should be a u8"), 10);
    let y = bound(&bindings, "y");
    assert_eq!(heap.root_as_u8(y).expect("y should be a u8"), 20);
    assert_eq!(heap.collection_count() - collections_before, 2, "only the two bound bytes should be materialized");
}

#[test]
fn constructor_patterns_compare_the_last_name_segment() {
    let mut heap = Heap::new(1);
    let seven = heap.alloc_root_i32(7).unwrap();
    let some = heap.alloc_root_adt("prelude.Some".to_string(), &vec![seven]).unwrap();
    let pat = Pattern::Named("Option.Some".to_string(), vec![var("v")]);
    let bindings = heap.match_pattern_ptr(&pat, some).unwrap().unwrap();
    assert_eq!(bindings.len(), 1);
    assert_eq!(heap.root_as_i32(bound(&bindings, "v")).unwrap(), 7);

    let other = Pattern::Named("None".to_string(), vec![]);
    assert!(heap.match_pattern_ptr(&other, some).unwrap().is_none());
    let wrong_arity = Pattern::Named("Some".to_string(), vec![]);
    assert!(heap.match_pattern_ptr(&wrong_arity, some).unwrap().is_none());
    let not_adt = Pattern::Named("Some".to_string(), vec![var("v")]);
    assert!(heap.match_pattern_ptr(&not_adt, seven).unwrap().is_none());
}

#[test]
fn empty_and_cons_constructors_match_lists() {
    let mut heap = Heap::new(1);
    let a = heap.alloc_root_i32(1).unwrap();
    let b = heap.alloc_root_i32(2).unwrap();
    let list = heap.alloc_root_list(&vec![a, b]).unwrap();
    let empty = heap.alloc_root_list(&vec![]).unwrap();

    let empty_pat = Pattern::Named("Empty".to_string(), vec![]);
    assert_eq!(heap.match_pattern_ptr(&empty_pat, empty).unwrap().unwrap().len(), 0);
    assert!(heap.match_pattern_ptr(&empty_pat, list).unwrap().is_none());

    let cons_pat = Pattern::Named("List.Cons".to_string(), vec![var("h"), var("t")]);
    let bindings = heap.match_pattern_ptr(&cons_pat, list).unwrap().unwrap();
    assert_eq!(heap.root_as_i32(bound(&bindings, "h")).unwrap(), 1);
    let rest = bound(&bindings, "t");
    let rest_bindings = heap.match_pattern_ptr(&cons_pat, rest).unwrap().unwrap();
    assert_eq!(heap.root_as_i32(bound(&rest_bindings, "h")).unwrap(), 2);
    let last = bound(&rest_bindings, "t");
    assert_eq!(heap.match_pattern_ptr(&empty_pat, last).unwrap().unwrap().len(), 0);
    assert!(heap.match_pattern_ptr(&cons_pat, empty).unwrap().is_none());
}

#[test]
fn cons_pattern_splits_cons_cells() {
    let mut heap = Heap::new(1);
    let a = heap.alloc_root_i32(5).unwrap();
    let nil = heap.alloc_root_empty().unwrap();
    let cell = heap.alloc_root_cons(a, nil).unwrap();
    let pat = Pattern::Cons(Box::new(var("x")), Box::new(Pattern::Named("Empty".to_string(), vec![])));
    let bindings = heap.match_pattern_ptr(&pat, cell).unwrap().unwrap();
    assert_eq!(bindings.len(), 1);
    assert_eq!(heap.root_as_i32(bound(&bindings, "x")).unwrap(), 5);
}

#[test]
fn tuple_patterns_need_the_same_arity() {
    let mut heap = Heap::new(1);
    let a = heap.alloc_root_i32(1).unwrap();
    let b = heap.alloc_root_i32(2).unwrap();
    let t = heap.alloc_root_tuple(&vec![a, b]).unwrap();
    let pair = Pattern::Tuple(vec![var("b"), var("a")]);
    let bindings = heap.match_pattern_ptr(&pair, t).unwrap().unwrap();
    assert_eq!(bindings[0].0, "a");
    assert_eq!(bindings[1].0, "b");
    assert_eq!(heap.root_as_i32(bound(&bindings, "b")).unwrap(), 1);
    assert_eq!(heap.root_as_i32(bound(&bindings, "a")).unwrap(), 2);
    let triple = Pattern::Tuple(vec![wildcard(), wildcard(), wildcard()]);
    assert!(heap.match_pattern_ptr(&triple, t).unwrap().is_none());
    assert!(heap.match_pattern_ptr(&pair, a).unwrap().is_none());
}

#[test]
fn a_later_binding_of_a_name_wins() {
    let mut heap = Heap::new(1);
    let a = heap.alloc_root_i32(1).unwrap();
    let b = heap.alloc_root_i32(2).unwrap();
    let t = heap.alloc_root_tuple(&vec![a, b]).unwrap();
    let pat = Pattern::Tuple(vec![var("x"), var("x")]);
    let bindings = heap.match_pattern_ptr(&pat, t).unwrap().unwrap();
    assert_eq!(bindings.len(), 1);
    assert_eq!(heap.root_as_i32(bound(&bindings, "x")).unwrap(), 2);
}

#[test]
fn dict_patterns_need_every_named_field() {
    let mut heap = Heap::new(1);
    let one = heap.alloc_root_i32(1).unwrap();
    let two = heap.alloc_root_i32(2).unwrap();
    let d = heap.alloc_root_dict(vec!["a".to_string(), "b".to_string()], &vec![one, two]).unwrap();
    let pat = Pattern::Dict(vec![("b".to_string(), var("y"))]);
    let bindings = heap.match_pattern_ptr(&pat, d).unwrap().unwrap();
    assert_eq!(heap.root_as_i32(bound(&bindings, "y")).unwrap(), 2);
    let missing = Pattern::Dict(vec![("a".to_string(), wildcard()), ("c".to_string(), wildcard())]);
    assert!(heap.match_pattern_ptr(&missing, d).unwrap().is_none());
    assert!(heap.match_pattern_ptr(&pat, one).unwrap().is_none());
}

#[test]
fn list_patterns_on_other_values_are_errors() {
    let mut heap = Heap::new(1);
    let n = heap.alloc_root_i32(3).unwrap();
    let pat = Pattern::List(vec![var("x")]);
    match heap.match_pattern_ptr(&pat, n) {
        Err(EngineError::NativeType { expected, got }) => {
            assert_eq!(expected, "list");
            assert_eq!(got, "i32");
        },
        other => panic!("expected a type error, got {:?}", other),
    }
    let cons = Pattern::Cons(Box::new(wildcard()), Box::new(wildcard()));
    assert!(matches!(heap.match_pattern_ptr(&cons, n), Err(EngineError::NativeType { .. })));
}

#[test]
fn cons_on_a_binary_slice_stores_the_byte_and_the_rest() {
    let mut heap = Heap::new(1);
    let list = heap.alloc_root_binary_list(vec![7, 8]).unwrap();
    let pat = Pattern::Cons(Box::new(var("h")), Box::new(var("t")));
    let bindings = heap.match_pattern_ptr(&pat, list).unwrap().unwrap();
    assert_eq!(heap.root_as_u8(bound(&bindings, "h")).unwrap(), 7);
    let rest = bound(&bindings, "t");
    let more = heap.match_pattern_ptr(&pat, rest).unwrap().unwrap();
    assert_eq!(heap.root_as_u8(bound(&more, "h")).unwrap(), 8);
    let last = bound(&more, "t");
    let empty_pat = Pattern::Named("Empty".to_string(), vec![]);
    assert_eq!(heap.match_pattern_ptr(&empty_pat, last).unwrap().unwrap().len(), 0);
}

#[test]
fn splitting_a_binary_slice_stores_head_and_tail_before_matching_them() {
    let mut heap = Heap::new(1);
    let list = heap.alloc_root_binary_list(vec![1, 2, 3]).unwrap();
    heap.set_extreme_stress(true);
    let before = heap.collection_count();
    let pat = Pattern::Cons(Box::new(wildcard()), Box::new(wildcard()));
    assert_eq!(heap.match_pattern_ptr(&pat, list).unwrap().unwrap().len(), 0);
    assert_eq!(heap.collection_count() - before, 2);

    let before = heap.collection_count();
    let mismatch = Pattern::Cons(Box::new(var("h")), Box::new(Pattern::Tuple(vec![])));
    assert!(heap.match_pattern_ptr(&mismatch, list).unwrap().is_none());
    assert_eq!(heap.collection_count() - before, 2);
}

#[test]
fn a_list_of_cons_cells_stores_all_its_bytes_at_once() {
    let mut heap = Heap::new(1);
    let bytes = heap.alloc_root_binary_list(vec![7, 8]).unwrap();
    let first = heap.alloc_root_i32(1).unwrap();
    let list = heap.alloc_root_cons(first, bytes).unwrap();
    heap.set_extreme_stress(true);
    let before = heap.collection_count();
    let pat = Pattern::List(vec![var("a"), wildcard(), wildcard()]);
    let bindings = heap.match_pattern_ptr(&pat, list).unwrap().unwrap();
    assert_eq!(heap.root_as_i32(bound(&bindings, "a")).unwrap(), 1);
    assert_eq!(heap.collection_count() - before, 2);
}
