use rex_engine::error::EngineError;
use rex_engine::lists::ListItems;
use rex_engine::natives::{NativeFoldState, NativeSum, SumStep};

fn sum(len: usize, plus: Option<u32>) -> NativeSum<u32> {
    NativeSum {
        values: ListItems::Pointers(vec![7u32; len]),
        acc: None,
        plus,
        state: NativeFoldState::Enter,
        next_index: 0,
        step: None,
    }
}

#[test]
fn sum_of_empty_list_asks_for_zero() {
    let mut s = sum(0, None);
    assert!(matches!(s.enter(None), SumStep::EvalZero));
    assert!(matches!(s.receive(7), Ok(SumStep::Return(7))));
}

#[test]
fn sum_of_one_element_is_that_element() {
    let mut s = sum(1, None);
    assert!(matches!(s.enter(Some(42)), SumStep::Return(42)));
}

#[test]
fn sum_asks_for_plus_then_adds_each_element() {
    let mut s = sum(3, None);
    assert!(matches!(s.enter(Some(10)), SumStep::NeedPlus));
    s.set_plus(99);
    assert!(matches!(s.apply_first(), Ok(SumStep::AddFirst { plus: 99, acc: 10 })));
    assert!(!s.receive_may_allocate());
    assert!(matches!(s.receive(5), Ok(SumStep::AddSecond { step: 5, index: 1 })));
    assert!(!s.receive_may_allocate());
    assert!(matches!(s.receive(30), Ok(SumStep::AddFirst { plus: 99, acc: 30 })));
    assert!(matches!(s.receive(6), Ok(SumStep::AddSecond { step: 6, index: 2 })));
    assert!(matches!(s.receive(60), Ok(SumStep::Return(60))));
}

#[test]
fn sum_with_known_plus_starts_adding_at_once() {
    let mut s = sum(2, Some(3));
    assert!(matches!(s.enter(Some(1)), SumStep::AddFirst { plus: 3, acc: 1 }));
    assert!(matches!(s.receive(4), Ok(SumStep::AddSecond { step: 4, index: 1 })));
    assert!(matches!(s.receive(9), Ok(SumStep::Return(9))));
}

#[test]
fn sum_without_plus_reports_internal_error() {
    let s = sum(3, None);
    match s.apply_first() {
        Err(EngineError::Internal(msg)) => assert_eq!(msg, "native sum missing plus function"),
        _ => panic!("expected an internal error"),
    }
    let t = sum(3, Some(1));
    match t.apply_first() {
        Err(EngineError::Internal(msg)) => assert_eq!(msg, "native sum missing accumulator"),
        _ => panic!("expected an internal error"),
    }
}

#[test]
fn sum_may_allocate_only_while_plus_is_unknown() {
    let mut s = sum(3, None);
    s.enter(Some(1));
    s.state = NativeFoldState::ApplySecond;
    s.step = Some(2);
    assert!(s.receive_may_allocate());
    s.set_plus(4);
    assert!(!s.receive_may_allocate());
}
