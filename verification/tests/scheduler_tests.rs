use rex_engine::scheduler::{EvalScheduler, EvalWorkItem, FrameId};

fn frames(s: &mut EvalScheduler<u32>) -> Vec<u64> {
    let mut out = Vec::new();
    while let Some(item) = s.pop_next() {
        out.push(item.frame.0);
    }
    out
}

#[test]
fn a_new_queue_holds_the_root_entry() {
    let mut s: EvalScheduler<u32> = EvalScheduler::new(FrameId(7), 0);
    assert!(s.has_ready_work());
    let item = s.pop_next().expect("root work");
    assert_eq!(item.frame, FrameId(7));
    assert!(item.returned.is_none());
    assert!(!s.has_ready_work());
    assert!(s.pop_next().is_none());
}

#[test]
fn work_runs_last_scheduled_first_across_the_limit() {
    let mut s: EvalScheduler<u32> = EvalScheduler::new(FrameId(0), 2);
    for f in 1..=5 {
        s.schedule_next(EvalWorkItem::enter(FrameId(f)));
    }
    assert_eq!(frames(&mut s), vec![5, 4, 3, 2, 1, 0]);
}

#[test]
fn changing_the_limit_keeps_the_order() {
    let mut s: EvalScheduler<u32> = EvalScheduler::new(FrameId(0), 8);
    for f in 1..=4 {
        s.schedule_next(EvalWorkItem::enter(FrameId(f)));
    }
    s.set_ready_work_limit(1);
    s.schedule_next(EvalWorkItem::enter(FrameId(9)));
    s.set_ready_work_limit(3);
    assert_eq!(frames(&mut s), vec![9, 4, 3, 2, 1, 0]);
}

#[test]
fn returned_values_are_visited_in_queue_order() {
    let mut s: EvalScheduler<u32> = EvalScheduler::new(FrameId(0), 1);
    s.schedule_next(EvalWorkItem::receive(FrameId(1), FrameId(2), 10));
    s.schedule_next(EvalWorkItem::enter(FrameId(3)));
    s.schedule_next(EvalWorkItem::receive(FrameId(4), FrameId(5), 20));
    assert_eq!(s.visit_values(), vec![20, 10]);
    let first = s.pop_next().expect("work");
    assert_eq!(first.frame, FrameId(4));
    let returned = first.returned.expect("a result");
    assert_eq!(returned.child, FrameId(5));
    assert_eq!(returned.value, 20);
    assert_eq!(s.visit_values(), vec![10]);
}
