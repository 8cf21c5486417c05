use rex_engine::error::EngineError;
use rex_engine::host::{
    FuturePoll, HostScheduler, NativeCallScheduling, NativePoll, PendingNativeState, PermitPoll,
    PollPhase, PollStep,
};
use rex_engine::scheduler::FrameId;

type Sched = HostScheduler<u32, u64, String, u8>;

fn invoke(c: u32) -> Result<u64, EngineError> {
    if c == 0 {
        Err(EngineError::Internal("cannot start"))
    } else {
        Ok(c as u64 * 10)
    }
}

fn grant() -> PermitPoll<u8> {
    PermitPoll::Granted(7)
}

fn none_yet() -> PermitPoll<u8> {
    PermitPoll::Pending
}

fn refuse() -> PermitPoll<u8> {
    PermitPoll::Failed(EngineError::Internal("controller closed"))
}

fn finish(f: u64) -> FuturePoll<u64, String> {
    FuturePoll::Ready(Ok(format!("done {}", f)))
}

fn still(f: u64) -> FuturePoll<u64, String> {
    FuturePoll::Pending(f + 1)
}

fn completed(step: Result<PollStep<String>, EngineError>) -> (FrameId, String) {
    match step {
        Ok(PollStep::Done(NativePoll::Completed { frame, completion })) => (frame, completion),
        other => panic!("expected a completion, got {:?}", other),
    }
}

#[test]
fn an_empty_scheduler_is_idle() {
    let mut s = Sched::new();
    assert!(!s.has_queued_native_work());
    assert!(!s.has_pending_native_work());
    assert!(matches!(s.poll_pending_native(true, &grant, &invoke, &finish), Ok(PollStep::Done(NativePoll::Idle))));
}

#[test]
fn immediate_calls_start_and_complete_in_one_round() {
    let mut s = Sched::new();
    s.schedule_native(FrameId(1), 3, NativeCallScheduling::Immediate);
    assert!(s.has_queued_native_work());
    let (frame, out) = completed(s.poll_pending_native(false, &grant, &invoke, &finish));
    assert_eq!(frame, FrameId(1));
    assert_eq!(out, "done 30");
    assert!(!s.has_pending_native_work());
}

#[test]
fn a_running_call_without_waiting_is_progress() {
    let mut s = Sched::new();
    s.schedule_native(FrameId(1), 3, NativeCallScheduling::Immediate);
    assert!(matches!(s.poll_pending_native(false, &grant, &invoke, &still), Ok(PollStep::Done(NativePoll::Progress))));
    assert!(s.has_pending_native_work());
    match &s.pending_native[0].state {
        PendingNativeState::Polling(f) => assert_eq!(*f, 31),
        other => panic!("unexpected {:?}", other),
    }
    match s.poll_pending_native(true, &none_yet, &invoke, &still) {
        Ok(PollStep::Suspend(PollPhase::AwaitEvent { progressed: false })) => {}
        other => panic!("unexpected {:?}", other),
    }
    let (frame, out) = completed(s.resume_poll_pending_native(PollPhase::AwaitEvent { progressed: false }, &none_yet, &invoke, &finish));
    assert_eq!((frame, out.as_str()), (FrameId(1), "done 32"));
}

#[test]
fn deferred_calls_wait_for_a_permit() {
    let mut s = Sched::new();
    s.schedule_native(FrameId(2), 4, NativeCallScheduling::Deferred);
    match s.poll_pending_native(true, &none_yet, &invoke, &finish) {
        Ok(PollStep::Suspend(PollPhase::AwaitPermit)) => {}
        other => panic!("unexpected {:?}", other),
    }
    assert!(s.has_queued_native_work());
    assert!(matches!(
        s.resume_poll_pending_native(PollPhase::AwaitPermit, &grant, &invoke, &finish),
        Ok(PollStep::Done(NativePoll::Progress))
    ));
    assert_eq!(s.pending_native[0].permit, Some(7));
    let (frame, out) = completed(s.poll_pending_native(false, &grant, &invoke, &finish));
    assert_eq!((frame, out.as_str()), (FrameId(2), "done 40"));
}

#[test]
fn a_granted_permit_admits_in_the_same_round() {
    let mut s = Sched::new();
    s.schedule_native(FrameId(2), 4, NativeCallScheduling::Deferred);
    let (frame, _) = completed(s.poll_pending_native(false, &grant, &invoke, &finish));
    assert_eq!(frame, FrameId(2));
}

#[test]
fn controller_and_start_failures_are_reported() {
    let mut s = Sched::new();
    s.schedule_native(FrameId(2), 4, NativeCallScheduling::Deferred);
    match s.poll_pending_native(true, &refuse, &invoke, &finish) {
        Err(EngineError::Internal(msg)) => assert_eq!(msg, "controller closed"),
        other => panic!("unexpected {:?}", other),
    }
    let mut t = Sched::new();
    t.schedule_native(FrameId(3), 0, NativeCallScheduling::Immediate);
    match t.poll_pending_native(false, &grant, &invoke, &finish) {
        Err(EngineError::Internal(msg)) => assert_eq!(msg, "cannot start"),
        other => panic!("unexpected {:?}", other),
    }
    assert!(!t.has_pending_native_work());
}

#[test]
fn taking_a_completion_checks_its_index() {
    let mut s = Sched::new();
    match s.take_pending_native_completion(0) {
        Err(EngineError::Internal(msg)) => assert_eq!(msg, "pending native completion index out of bounds"),
        other => panic!("unexpected {:?}", other),
    }
    s.schedule_native(FrameId(1), 1, NativeCallScheduling::Immediate);
    assert!(s.activate_next_immediate_native(&invoke));
    match s.take_pending_native_completion(0) {
        Err(EngineError::Internal(msg)) => assert_eq!(msg, "pending native future completed without a ready result"),
        other => panic!("unexpected {:?}", other),
    }
}

#[test]
fn permits_are_asked_only_for_a_front_call_without_one() {
    let mut s = Sched::new();
    assert!(matches!(s.try_acquire_next_native_permit(&refuse), Ok(Some(false))));
    s.schedule_native(FrameId(1), 1, NativeCallScheduling::Deferred);
    assert!(matches!(s.try_acquire_next_native_permit(&none_yet), Ok(None)));
    assert!(matches!(s.try_acquire_next_native_permit(&grant), Ok(Some(true))));
    assert!(matches!(s.try_acquire_next_native_permit(&refuse), Ok(Some(true))));
    assert!(s.activate_next_permitted_deferred_native(&invoke));
    assert!(!s.activate_next_permitted_deferred_native(&invoke));
}
