use rex_engine::gc_order::randomized_gc_destinations;

fn is_permutation(d: &[usize]) -> bool {
    let mut seen = vec![false; d.len()];
    for &x in d {
        if x >= d.len() || seen[x] {
            return false;
        }
        seen[x] = true;
    }
    true
}

#[test]
fn stress_destinations_are_a_seeded_shuffle() {
    assert_eq!(randomized_gc_destinations(&vec![0, 1, 2, 3], 0), vec![2, 3, 1, 0]);
    assert_eq!(randomized_gc_destinations(&vec![0, 1, 2, 3], 5), vec![2, 0, 3, 1]);
    assert_eq!(randomized_gc_destinations(&vec![3, 0, 1, 2], 1), vec![1, 2, 0, 3]);
    assert_eq!(randomized_gc_destinations(&vec![0, 1, 2, 3, 4, 5, 6, 7], 2), vec![6, 2, 3, 0, 1, 7, 5, 4]);
    assert_eq!(randomized_gc_destinations(&vec![1, 0], 7), vec![0, 1]);
}

#[test]
fn stress_destinations_depend_only_on_their_inputs() {
    let old = vec![5, 2, 7, 0, 1, 3, 4, 6];
    for c in 0..20u64 {
        let a = randomized_gc_destinations(&old, c);
        let b = randomized_gc_destinations(&old, c);
        assert_eq!(a, b);
        assert!(is_permutation(&a));
        for i in 0..old.len() {
            assert_ne!(a[i], old[i] as usize);
        }
    }
}

#[test]
fn a_single_object_keeps_its_slot() {
    assert_eq!(randomized_gc_destinations(&vec![0], 0), vec![0]);
    assert_eq!(randomized_gc_destinations(&vec![], 3), Vec::<usize>::new());
}
