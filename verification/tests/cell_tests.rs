use rex_engine::cell::{Cell, DictEntry, InternalPtr};

fn p(index: u32) -> InternalPtr {
    InternalPtr { heap_id: 1, index, generation: 0 }
}

fn forward(q: InternalPtr) -> Result<InternalPtr, u32> {
    if q.index >= 100 {
        Err(q.index)
    } else {
        Ok(InternalPtr { heap_id: q.heap_id, index: q.index + 10, generation: q.generation + 1 })
    }
}

#[test]
fn map_pointers_rewrites_every_held_pointer_in_trace_order() {
    match Cell::Cons(p(1), p(2)).map_pointers(&forward).expect("maps") {
        Cell::Cons(h, t) => {
            assert_eq!(h, InternalPtr { heap_id: 1, index: 11, generation: 1 });
            assert_eq!(t.index, 12);
        }
        other => panic!("unexpected {:?}", other),
    }
    let dict = Cell::Dict(vec![
        DictEntry { key: "a".to_string(), value: p(3) },
        DictEntry { key: "b".to_string(), value: p(4) },
    ]);
    match dict.map_pointers(&forward).expect("maps") {
        Cell::Dict(e) => {
            assert_eq!(e[0].key, "a");
            assert_eq!(e[0].value.index, 13);
            assert_eq!(e[1].key, "b");
            assert_eq!(e[1].value.index, 14);
        }
        other => panic!("unexpected {:?}", other),
    }
    match Cell::I32(5).map_pointers(&forward).expect("nothing to map") {
        Cell::I32(5) => {}
        other => panic!("unexpected {:?}", other),
    }
}

#[test]
fn map_pointers_stops_at_a_failure() {
    let data = Cell::Data(vec![p(1), p(200), p(300)]);
    assert_eq!(data.map_pointers(&forward).err(), Some(200));
}
