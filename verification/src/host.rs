//! The host side of built-in calls that run as futures: the queues of calls
//! waiting to start, the calls in flight, and the decisions of one round of
//! polling them.
//!
//! The scheduler never touches the evaluator heap. Starting a call, asking
//! the parallelism controller for a permit, and polling a running call are
//! the host's work; the scheduler is handed each of them as a function and
//! decides when to call it and what to do with what it gives.

use std::collections::VecDeque;
use vstd::prelude::*;

use crate::error::EngineError;
use crate::scheduler::FrameId;

verus! {

/// Whether a host call starts at once, or waits for a permit of the host's
/// parallelism limit.
#[derive(Clone, Copy, Debug, PartialEq, Eq, Structural)]
pub enum NativeCallScheduling {
    Immediate,
    Deferred,
}

/// What asking the parallelism controller for a permit gave.
#[derive(Debug)]
pub enum PermitPoll<A> {
    Granted(A),
    Failed(EngineError),
    Pending,
}

/// What polling a running host call gave: the call, still running, or its
/// outcome.
#[derive(Debug)]
pub enum FuturePoll<F, T> {
    Pending(F),
    Ready(Result<T, EngineError>),
}

/// A started host call: still running, or finished with its outcome.
#[derive(Debug)]
pub enum PendingNativeState<F, T> {
    Polling(F),
    Ready(Result<T, EngineError>),
}

/// A started host call for the frame `frame`, holding its permit, if any,
/// until it is done.
#[derive(Debug)]
pub struct PendingNative<F, T, A> {
    pub frame: FrameId,
    pub state: PendingNativeState<F, T>,
    pub permit: Option<A>,
}

/// A host call for the frame `frame` waiting to start.
#[derive(Debug)]
pub struct QueuedNative<C, A> {
    pub frame: FrameId,
    pub call: C,
    pub permit: Option<A>,
}

/// The host's scheduling state.
#[derive(Debug)]
pub struct HostScheduler<C, F, T, A> {
    pub pending_native: Vec<PendingNative<F, T, A>>,
    pub immediate_native: VecDeque<QueuedNative<C, A>>,
    pub deferred_native: VecDeque<QueuedNative<C, A>>,
}

/// The message of a deferred call started without its permit.
pub open spec fn missing_permit() -> EngineError {
    EngineError::Internal("deferred native activated without an admission permit")
}

/// `p` is the queued call `q` started: running as the future that `invoke`
/// gave for its call (a deferred call keeping its permit while it runs), or
/// finished with the error that `invoke` gave; a deferred call without a
/// permit is not started but fails.
pub open spec fn started<C, F, T, A, I: Fn(C) -> Result<F, EngineError>>(
    invoke: I,
    q: QueuedNative<C, A>,
    deferred: bool,
    p: PendingNative<F, T, A>,
) -> bool {
    &&& p.frame == q.frame
    &&& if deferred && q.permit is None {
        p.state matches PendingNativeState::Ready(Err(e)) && e == missing_permit() && p.permit is None
    } else {
        match p.state {
            PendingNativeState::Polling(f) => invoke.ensures((q.call,), Ok::<F, EngineError>(f))
                && p.permit == (if deferred { q.permit } else { None }),
            PendingNativeState::Ready(Err(e)) => invoke.ensures((q.call,), Err::<F, EngineError>(e)) && p.permit is None,
            PendingNativeState::Ready(Ok(_)) => false,
        }
    }
}

impl<C, F, T, A> HostScheduler<C, F, T, A> {
    /// Nothing queued and nothing running.
    pub fn new() -> (s: Self)
        ensures
            s.pending_native@.len() == 0,
            s.immediate_native@.len() == 0,
            s.deferred_native@.len() == 0,
    {
        HostScheduler { pending_native: Vec::new(), immediate_native: VecDeque::new(), deferred_native: VecDeque::new() }
    }

    /// Queues a host call for `frame`, at the back of the queue its
    /// scheduling asks for.
    pub fn schedule_native(&mut self, frame: FrameId, call: C, scheduling: NativeCallScheduling)
        ensures
            final(self).pending_native@ == old(self).pending_native@,
            match scheduling {
                NativeCallScheduling::Immediate => final(self).immediate_native@ == old(self).immediate_native@.push(
                    QueuedNative { frame, call, permit: None },
                ) && final(self).deferred_native@ == old(self).deferred_native@,
                NativeCallScheduling::Deferred => final(self).deferred_native@ == old(self).deferred_native@.push(
                    QueuedNative { frame, call, permit: None },
                ) && final(self).immediate_native@ == old(self).immediate_native@,
            },
    {
        let queued = QueuedNative { frame, call, permit: None };
        match scheduling {
            NativeCallScheduling::Immediate => self.immediate_native.push_back(queued),
            NativeCallScheduling::Deferred => self.deferred_native.push_back(queued),
        }
    }

    /// Whether some call waits to start.
    pub fn has_queued_native_work(&self) -> (b: bool)
        ensures
            b == (self.immediate_native@.len() > 0 || self.deferred_native@.len() > 0),
    {
        self.has_immediate_native() || self.has_deferred_native()
    }

    /// Whether some started call is not yet taken.
    pub fn has_pending_native_work(&self) -> (b: bool)
        ensures
            b == (self.pending_native@.len() > 0),
    {
        self.has_pending_native()
    }

    fn has_pending_native(&self) -> (b: bool)
        ensures
            b == (self.pending_native@.len() > 0),
    {
        self.pending_native.len() > 0
    }

    fn has_immediate_native(&self) -> (b: bool)
        ensures
            b == (self.immediate_native@.len() > 0),
    {
        self.immediate_native.len() > 0
    }

    fn has_deferred_native(&self) -> (b: bool)
        ensures
            b == (self.deferred_native@.len() > 0),
    {
        self.deferred_native.len() > 0
    }
}


/// What asking for a permit for the front deferred call did: nothing to
/// do without one, nothing to ask when it has one, else the controller's
/// answer, a granted permit kept on the front call.
pub open spec fn permit_asked<C, F, T, A, Q: Fn() -> PermitPoll<A>>(
    acquire: Q,
    s0: HostScheduler<C, F, T, A>,
    s1: HostScheduler<C, F, T, A>,
    res: Result<Option<bool>, EngineError>,
) -> bool {
    &&& s1.pending_native@ == s0.pending_native@
    &&& s1.immediate_native@ == s0.immediate_native@
    &&& if s0.deferred_native@.len() == 0 {
        res == Ok::<Option<bool>, EngineError>(Some(false)) && s1.deferred_native@ == s0.deferred_native@
    } else if s0.deferred_native@[0].permit is Some {
        res == Ok::<Option<bool>, EngineError>(Some(true)) && s1.deferred_native@ == s0.deferred_native@
    } else {
        exists|out: PermitPoll<A>| #[trigger] acquire.ensures((), out) && match out {
            PermitPoll::Granted(p) => res == Ok::<Option<bool>, EngineError>(Some(true))
                && s1.deferred_native@ == s0.deferred_native@.update(0, QueuedNative {
                    frame: s0.deferred_native@[0].frame,
                    call: s0.deferred_native@[0].call,
                    permit: Some(p),
                }),
            PermitPoll::Failed(e) => res == Err::<Option<bool>, EngineError>(e) && s1.deferred_native@ == s0.deferred_native@,
            PermitPoll::Pending => res == Ok::<Option<bool>, EngineError>(None) && s1.deferred_native@ == s0.deferred_native@,
        }
    }
}

/// What starting the front call of a queue did: it left the queue and
/// joined the started calls.
pub open spec fn front_started<C, F, T, A, I: Fn(C) -> Result<F, EngineError>>(
    invoke: I,
    deferred: bool,
    queue0: Seq<QueuedNative<C, A>>,
    queue1: Seq<QueuedNative<C, A>>,
    pending0: Seq<PendingNative<F, T, A>>,
    pending1: Seq<PendingNative<F, T, A>>,
) -> bool {
    &&& queue0.len() > 0
    &&& queue1 == queue0.drop_first()
    &&& pending1.len() == pending0.len() + 1
    &&& pending1.drop_last() == pending0
    &&& started(invoke, queue0[0], deferred, pending1.last())
}

/// Starting the next immediate call, if any: `b` says whether one started.
pub open spec fn immediate_activated<C, F, T, A, I: Fn(C) -> Result<F, EngineError>>(
    invoke: I,
    s0: HostScheduler<C, F, T, A>,
    s1: HostScheduler<C, F, T, A>,
    b: bool,
) -> bool {
    &&& s1.deferred_native@ == s0.deferred_native@
    &&& b == (s0.immediate_native@.len() > 0)
    &&& if b {
        front_started(invoke, false, s0.immediate_native@, s1.immediate_native@, s0.pending_native@, s1.pending_native@)
    } else {
        s1.immediate_native@ == s0.immediate_native@ && s1.pending_native@ == s0.pending_native@
    }
}

/// Starting the front deferred call if it holds a permit: `b` says whether
/// one started.
pub open spec fn deferred_activated<C, F, T, A, I: Fn(C) -> Result<F, EngineError>>(
    invoke: I,
    s0: HostScheduler<C, F, T, A>,
    s1: HostScheduler<C, F, T, A>,
    b: bool,
) -> bool {
    &&& s1.immediate_native@ == s0.immediate_native@
    &&& b == (s0.deferred_native@.len() > 0 && s0.deferred_native@[0].permit is Some)
    &&& if b {
        front_started(invoke, true, s0.deferred_native@, s1.deferred_native@, s0.pending_native@, s1.pending_native@)
    } else {
        s1.deferred_native@ == s0.deferred_native@ && s1.pending_native@ == s0.pending_native@
    }
}

impl<C, F, T, A> HostScheduler<C, F, T, A> {
    /// Asks for a permit for the front deferred call, unless it has one.
    /// `Ok(Some(true))`: it has one; `Ok(Some(false))`: no call waits for
    /// one; `Ok(None)`: the controller has none yet.
    pub fn try_acquire_next_native_permit<Q: Fn() -> PermitPoll<A>>(&mut self, acquire: &Q) -> (res: Result<Option<bool>, EngineError>)
        requires
            call_requires(*acquire, ()),
        ensures
            permit_asked(*acquire, *old(self), *final(self), res),
    {
        let front = match self.deferred_native.pop_front() {
            Some(q) => q,
            None => return Ok(Some(false)),
        };
        if front.permit.is_some() {
            self.deferred_native.push_front(front);
            proof {
                assert(self.deferred_native@ =~= old(self).deferred_native@);
            }
            return Ok(Some(true));
        }
        let out = acquire();
        match out {
            PermitPoll::Granted(p) => {
                self.deferred_native.push_front(QueuedNative { frame: front.frame, call: front.call, permit: Some(p) });
                proof {
                    assert(self.deferred_native@ =~= old(self).deferred_native@.update(0, QueuedNative {
                        frame: old(self).deferred_native@[0].frame,
                        call: old(self).deferred_native@[0].call,
                        permit: Some(p),
                    }));
                }
                Ok(Some(true))
            },
            PermitPoll::Failed(e) => {
                self.deferred_native.push_front(front);
                proof {
                    assert(self.deferred_native@ =~= old(self).deferred_native@);
                }
                Err(e)
            },
            PermitPoll::Pending => {
                self.deferred_native.push_front(front);
                proof {
                    assert(self.deferred_native@ =~= old(self).deferred_native@);
                }
                Ok(None)
            },
        }
    }

    /// Starts the front immediate call, if there is one.
    pub fn activate_next_immediate_native<I: Fn(C) -> Result<F, EngineError>>(&mut self, invoke: &I) -> (b: bool)
        requires
            forall|c: C| #[trigger] call_requires(*invoke, (c,)),
        ensures
            immediate_activated(*invoke, *old(self), *final(self), b),
    {
        let queued = match self.immediate_native.pop_front() {
            Some(q) => q,
            None => return false,
        };
        let state = match invoke(queued.call) {
            Ok(f) => PendingNativeState::Polling(f),
            Err(e) => PendingNativeState::Ready(Err(e)),
        };
        self.pending_native.push(PendingNative { frame: queued.frame, state, permit: None });
        proof {
            assert(self.pending_native@.drop_last() =~= old(self).pending_native@);
            assert(self.immediate_native@ =~= old(self).immediate_native@.drop_first());
        }
        true
    }

    /// Starts the front deferred call, if it holds a permit.
    pub fn activate_next_permitted_deferred_native<I: Fn(C) -> Result<F, EngineError>>(&mut self, invoke: &I) -> (b: bool)
        requires
            forall|c: C| #[trigger] call_requires(*invoke, (c,)),
        ensures
            deferred_activated(*invoke, *old(self), *final(self), b),
    {
        let queued = match self.deferred_native.pop_front() {
            Some(q) => q,
            None => return false,
        };
        if queued.permit.is_none() {
            self.deferred_native.push_front(queued);
            proof {
                assert(self.deferred_native@ =~= old(self).deferred_native@);
            }
            return false;
        }
        let pending = match queued.permit {
            None => PendingNative { frame: queued.frame, state: PendingNativeState::Ready(Err(EngineError::Internal(
                "deferred native activated without an admission permit"))), permit: None },
            Some(permit) => match invoke(queued.call) {
                Ok(f) => PendingNative { frame: queued.frame, state: PendingNativeState::Polling(f), permit: Some(permit) },
                Err(e) => PendingNative { frame: queued.frame, state: PendingNativeState::Ready(Err(e)), permit: None },
            },
        };
        self.pending_native.push(pending);
        proof {
            assert(self.pending_native@.drop_last() =~= old(self).pending_native@);
            assert(self.deferred_native@ =~= old(self).deferred_native@.drop_first());
        }
        true
    }
}


/// Admitting the front deferred call: ask for its permit, and start it once
/// it has one.
pub open spec fn deferred_admitted<C, F, T, A, Q: Fn() -> PermitPoll<A>, I: Fn(C) -> Result<F, EngineError>>(
    acquire: Q,
    invoke: I,
    s0: HostScheduler<C, F, T, A>,
    s1: HostScheduler<C, F, T, A>,
    res: Result<bool, EngineError>,
) -> bool {
    exists|mid: HostScheduler<C, F, T, A>, asked: Result<Option<bool>, EngineError>| #[trigger] permit_asked(acquire, s0, mid, asked)
        && match asked {
            Ok(Some(true)) => res matches Ok(b) && deferred_activated(invoke, mid, s1, b),
            Ok(_) => res == Ok::<bool, EngineError>(false) && s1 == mid,
            Err(e) => res == Err::<bool, EngineError>(e) && s1 == mid,
        }
}

/// `b` is the started call `a` after one round of polling: a running call
/// polled once, through `poll`; a finished one as it was.
pub open spec fn polled<F, T, A, P: Fn(F) -> FuturePoll<F, T>>(poll: P, a: PendingNative<F, T, A>, b: PendingNative<F, T, A>) -> bool {
    &&& b.frame == a.frame
    &&& b.permit == a.permit
    &&& match a.state {
        PendingNativeState::Polling(f) => exists|out: FuturePoll<F, T>| #[trigger] poll.ensures((f,), out) && match out {
            FuturePoll::Pending(g) => b.state == PendingNativeState::<F, T>::Polling(g),
            FuturePoll::Ready(r) => b.state == PendingNativeState::<F, T>::Ready(r),
        },
        PendingNativeState::Ready(r) => b.state == PendingNativeState::<F, T>::Ready(r),
    }
}

/// One pass over the started calls, in order, polling each until one is
/// finished: `res` is the first finished one, and the calls after it are
/// not polled.
pub open spec fn pending_polled<C, F, T, A, P: Fn(F) -> FuturePoll<F, T>>(
    poll: P,
    s0: HostScheduler<C, F, T, A>,
    s1: HostScheduler<C, F, T, A>,
    res: Option<usize>,
) -> bool {
    &&& s1.immediate_native@ == s0.immediate_native@
    &&& s1.deferred_native@ == s0.deferred_native@
    &&& s1.pending_native@.len() == s0.pending_native@.len()
    &&& match res {
        Some(k) => {
            &&& k < s0.pending_native@.len()
            &&& forall|j: int| 0 <= j <= k ==> polled(poll, s0.pending_native@[j], #[trigger] s1.pending_native@[j])
            &&& forall|j: int| 0 <= j < k ==> (#[trigger] s1.pending_native@[j]).state is Polling
            &&& s1.pending_native@[k as int].state is Ready
            &&& forall|j: int| k < j < s0.pending_native@.len() ==> #[trigger] s1.pending_native@[j] == s0.pending_native@[j]
        },
        None => forall|j: int| 0 <= j < s0.pending_native@.len() ==> polled(poll, s0.pending_native@[j], #[trigger] s1.pending_native@[j])
            && s1.pending_native@[j].state is Polling,
    }
}

/// The outcome of the finished call `p`: its frame and value, or its error;
/// a call still running has none.
pub open spec fn completion_of<F, T, A>(p: PendingNative<F, T, A>) -> Result<(FrameId, T), EngineError> {
    match p.state {
        PendingNativeState::Ready(Ok(t)) => Ok((p.frame, t)),
        PendingNativeState::Ready(Err(e)) => Err(e),
        PendingNativeState::Polling(_) => Err(EngineError::Internal("pending native future completed without a ready result")),
    }
}

impl<C, F, T, A> HostScheduler<C, F, T, A> {
    /// Asks for a permit for the front deferred call and starts it if it has
    /// one; a controller without a permit yet is no error.
    pub fn admit_available_deferred_native<Q: Fn() -> PermitPoll<A>, I: Fn(C) -> Result<F, EngineError>>(
        &mut self,
        acquire: &Q,
        invoke: &I,
    ) -> (res: Result<bool, EngineError>)
        requires
            call_requires(*acquire, ()),
            forall|c: C| #[trigger] call_requires(*invoke, (c,)),
        ensures
            deferred_admitted(*acquire, *invoke, *old(self), *final(self), res),
    {
        let ghost s0 = *self;
        let asked = self.try_acquire_next_native_permit(acquire);
        let ghost mid = *self;
        match asked {
            Ok(Some(true)) => {
                let b = self.activate_next_permitted_deferred_native(invoke);
                proof {
                    assert(permit_asked(*acquire, s0, mid, asked));
                }
                Ok(b)
            },
            Ok(_) => {
                proof {
                    assert(permit_asked(*acquire, s0, mid, asked));
                }
                Ok(false)
            },
            Err(e) => {
                proof {
                    assert(permit_asked(*acquire, s0, mid, asked));
                }
                Err(e)
            },
        }
    }

    /// Polls the started calls in order until one is finished, and gives its
    /// position.
    pub fn poll_pending_native_once<P: Fn(F) -> FuturePoll<F, T>>(&mut self, poll: &P) -> (res: Option<usize>)
        requires
            forall|f: F| #[trigger] call_requires(*poll, (f,)),
        ensures
            pending_polled(*poll, *old(self), *final(self), res),
    {
        let ghost s0 = *self;
        let mut i: usize = 0;
        while i < self.pending_native.len()
            invariant
                0 <= i <= self.pending_native@.len(),
                s0 == *old(self),
                forall|f: F| #[trigger] call_requires(*poll, (f,)),
                self.immediate_native@ == s0.immediate_native@,
                self.deferred_native@ == s0.deferred_native@,
                self.pending_native@.len() == s0.pending_native@.len(),
                forall|j: int| 0 <= j < i ==> polled(*poll, s0.pending_native@[j], #[trigger] self.pending_native@[j])
                    && self.pending_native@[j].state is Polling,
                forall|j: int| i <= j < s0.pending_native@.len() ==> #[trigger] self.pending_native@[j] == s0.pending_native@[j],
            decreases s0.pending_native@.len() - i,
        {
            let ghost before = self.pending_native@;
            let entry = self.pending_native.remove(i);
            let PendingNative { frame, state, permit } = entry;
            match state {
                PendingNativeState::Ready(r) => {
                    self.pending_native.insert(i, PendingNative { frame, state: PendingNativeState::Ready(r), permit });
                    proof {
                        assert(self.pending_native@ =~= before);
                        assert(before[i as int] == s0.pending_native@[i as int]);
                        assert(polled(*poll, s0.pending_native@[i as int], self.pending_native@[i as int]));
                    }
                    return Some(i);
                },
                PendingNativeState::Polling(f) => {
                    let out = poll(f);
                    match out {
                        FuturePoll::Ready(r) => {
                            self.pending_native.insert(i, PendingNative { frame, state: PendingNativeState::Ready(r), permit });
                            proof {
                                assert(self.pending_native@ =~= before.update(i as int, self.pending_native@[i as int]));
                                assert(poll.ensures((f,), FuturePoll::<F, T>::Ready(r)));
                                assert(before[i as int] == s0.pending_native@[i as int]);
                                assert(polled(*poll, s0.pending_native@[i as int], self.pending_native@[i as int]));
                            }
                            return Some(i);
                        },
                        FuturePoll::Pending(g) => {
                            self.pending_native.insert(i, PendingNative { frame, state: PendingNativeState::Polling(g), permit });
                            proof {
                                assert(self.pending_native@ =~= before.update(i as int, self.pending_native@[i as int]));
                                assert(poll.ensures((f,), FuturePoll::<F, T>::Pending(g)));
                                assert(before[i as int] == s0.pending_native@[i as int]);
                                assert(polled(*poll, s0.pending_native@[i as int], self.pending_native@[i as int]));
                            }
                        },
                    }
                },
            }
            i += 1;
        }
        None
    }

    /// Takes the finished call at `index` out of the started calls, with its
    /// outcome.
    pub fn take_pending_native_completion(&mut self, index: usize) -> (res: Result<(FrameId, T), EngineError>)
        ensures
            final(self).immediate_native@ == old(self).immediate_native@,
            final(self).deferred_native@ == old(self).deferred_native@,
            if index >= old(self).pending_native@.len() {
                res matches Err(e) && e == EngineError::Internal("pending native completion index out of bounds")
                    && final(self).pending_native@ == old(self).pending_native@
            } else {
                final(self).pending_native@ == old(self).pending_native@.remove(index as int)
                    && res == completion_of(old(self).pending_native@[index as int])
            },
    {
        if index >= self.pending_native.len() {
            return Err(EngineError::Internal("pending native completion index out of bounds"));
        }
        let p = self.pending_native.remove(index);
        match p.state {
            PendingNativeState::Ready(Ok(t)) => Ok((p.frame, t)),
            PendingNativeState::Ready(Err(e)) => Err(e),
            PendingNativeState::Polling(_) => Err(EngineError::Internal("pending native future completed without a ready result")),
        }
    }
}


/// What one round of polling the host calls gave.
#[derive(Debug)]
pub enum NativePoll<T> {
    /// Nothing happened.
    Idle,
    /// Some call started, but none finished.
    Progress,
    /// The call of `frame` finished with `completion`.
    Completed { frame: FrameId, completion: T },
}

/// Where a round of polling that had to wait goes on from.
#[derive(Clone, Copy, Debug, PartialEq, Eq, Structural)]
pub enum PollPhase {
    /// Waiting for a permit for the front deferred call.
    AwaitPermit,
    /// Waiting for a started call to finish or for a permit; `progressed`
    /// says whether the round has started a call already.
    AwaitEvent { progressed: bool },
}

/// The end of a round of polling, or the point to resume it from once the
/// host is woken.
#[derive(Debug)]
pub enum PollStep<T> {
    Done(NativePoll<T>),
    Suspend(PollPhase),
}

/// `Progress` if a call started, else `Idle`.
pub open spec fn progress<T>(started: bool) -> NativePoll<T> {
    if started {
        NativePoll::Progress
    } else {
        NativePoll::Idle
    }
}

/// Taking the finished call at `i`: its outcome ends the round.
pub open spec fn completion_taken<C, F, T, A>(
    s0: HostScheduler<C, F, T, A>,
    s1: HostScheduler<C, F, T, A>,
    i: usize,
    res: Result<PollStep<T>, EngineError>,
) -> bool {
    &&& s1.immediate_native@ == s0.immediate_native@
    &&& s1.deferred_native@ == s0.deferred_native@
    &&& s1.pending_native@ == s0.pending_native@.remove(i as int)
    &&& match completion_of(s0.pending_native@[i as int]) {
        Ok((frame, completion)) => res == Ok::<PollStep<T>, EngineError>(PollStep::Done(NativePoll::Completed { frame, completion })),
        Err(e) => res == Err::<PollStep<T>, EngineError>(e),
    }
}

/// After a permit answer `asked` in a round that waits for an event: a
/// permit starts the front deferred call; otherwise the round waits on while
/// calls run, and ends when none does.
pub open spec fn event_permit_handled<C, F, T, A, I: Fn(C) -> Result<F, EngineError>>(
    invoke: I,
    progressed: bool,
    s0: HostScheduler<C, F, T, A>,
    s1: HostScheduler<C, F, T, A>,
    asked: Result<Option<bool>, EngineError>,
    res: Result<PollStep<T>, EngineError>,
) -> bool {
    match asked {
        Ok(Some(true)) => exists|b: bool| #[trigger] deferred_activated(invoke, s0, s1, b)
            && res == Ok::<PollStep<T>, EngineError>(PollStep::Done(progress(b))),
        Ok(_) => s1 == s0 && if s0.pending_native@.len() > 0 {
            res == Ok::<PollStep<T>, EngineError>(PollStep::Suspend(PollPhase::AwaitEvent { progressed }))
        } else {
            res == Ok::<PollStep<T>, EngineError>(PollStep::Done(progress(progressed)))
        },
        Err(e) => res == Err::<PollStep<T>, EngineError>(e) && s1 == s0,
    }
}

/// Resuming a round of polling from `phase`.
pub open spec fn poll_resumed<C, F, T, A, Q: Fn() -> PermitPoll<A>, I: Fn(C) -> Result<F, EngineError>, P: Fn(F) -> FuturePoll<F, T>>(
    acquire: Q,
    invoke: I,
    poll: P,
    phase: PollPhase,
    s0: HostScheduler<C, F, T, A>,
    s1: HostScheduler<C, F, T, A>,
    res: Result<PollStep<T>, EngineError>,
) -> bool {
    match phase {
        PollPhase::AwaitPermit => exists|mid: HostScheduler<C, F, T, A>, asked: Result<Option<bool>, EngineError>|
            #[trigger] permit_asked(acquire, s0, mid, asked) && match asked {
                Ok(Some(_)) => exists|b: bool| #[trigger] deferred_activated(invoke, mid, s1, b)
                    && res == Ok::<PollStep<T>, EngineError>(PollStep::Done(progress(b))),
                Ok(None) => res == Ok::<PollStep<T>, EngineError>(PollStep::Suspend(PollPhase::AwaitPermit)) && s1 == mid,
                Err(e) => res == Err::<PollStep<T>, EngineError>(e) && s1 == mid,
            },
        PollPhase::AwaitEvent { progressed } => exists|mid: HostScheduler<C, F, T, A>, k: Option<usize>|
            #[trigger] pending_polled(poll, s0, mid, k) && match k {
                Some(i) => completion_taken(mid, s1, i, res),
                None => exists|mid2: HostScheduler<C, F, T, A>, asked: Result<Option<bool>, EngineError>|
                    #[trigger] permit_asked(acquire, mid, mid2, asked) && event_permit_handled(invoke, progressed, mid2, s1, asked, res),
            },
    }
}

/// A round of polling from its start: nothing to do ends it at once;
/// otherwise the next immediate call starts, the front deferred call is
/// admitted if a permit is at hand, and then the round waits (when `wait`
/// says so) for a permit or for a started call to finish, or just looks once
/// for a finished call.
pub open spec fn poll_started<C, F, T, A, Q: Fn() -> PermitPoll<A>, I: Fn(C) -> Result<F, EngineError>, P: Fn(F) -> FuturePoll<F, T>>(
    acquire: Q,
    invoke: I,
    poll: P,
    wait: bool,
    s0: HostScheduler<C, F, T, A>,
    s1: HostScheduler<C, F, T, A>,
    res: Result<PollStep<T>, EngineError>,
) -> bool {
    if s0.pending_native@.len() == 0 && s0.immediate_native@.len() == 0 && s0.deferred_native@.len() == 0 {
        res == Ok::<PollStep<T>, EngineError>(PollStep::Done(NativePoll::Idle)) && s1 == s0
    } else {
        exists|m1: HostScheduler<C, F, T, A>, b1: bool, m2: HostScheduler<C, F, T, A>, r2: Result<bool, EngineError>|
            #[trigger] immediate_activated(invoke, s0, m1, b1) && #[trigger] deferred_admitted(acquire, invoke, m1, m2, r2)
            && match r2 {
                Err(e) => res == Err::<PollStep<T>, EngineError>(e) && s1 == m2,
                Ok(b2) => if m2.pending_native@.len() == 0 {
                    if !wait || (m2.immediate_native@.len() == 0 && m2.deferred_native@.len() == 0) {
                        res == Ok::<PollStep<T>, EngineError>(PollStep::Done(progress(b1 || b2))) && s1 == m2
                    } else {
                        poll_resumed(acquire, invoke, poll, PollPhase::AwaitPermit, m2, s1, res)
                    }
                } else if wait {
                    poll_resumed(acquire, invoke, poll, PollPhase::AwaitEvent { progressed: b1 || b2 }, m2, s1, res)
                } else {
                    exists|mid: HostScheduler<C, F, T, A>, k: Option<usize>| #[trigger] pending_polled(poll, m2, mid, k)
                        && match k {
                            Some(i) => completion_taken(mid, s1, i, res),
                            None => res == Ok::<PollStep<T>, EngineError>(PollStep::Done(progress(b1 || b2))) && s1 == mid,
                        }
                },
            }
    }
}

impl<C, F, T, A> HostScheduler<C, F, T, A> {
    fn take_completion_step(&mut self, i: usize) -> (res: Result<PollStep<T>, EngineError>)
        requires
            i < old(self).pending_native@.len(),
        ensures
            completion_taken(*old(self), *final(self), i, res),
    {
        match self.take_pending_native_completion(i) {
            Ok((frame, completion)) => Ok(PollStep::Done(NativePoll::Completed { frame, completion })),
            Err(e) => Err(e),
        }
    }

    /// Resumes a round of polling that waited, from `phase`.
    pub fn resume_poll_pending_native<Q: Fn() -> PermitPoll<A>, I: Fn(C) -> Result<F, EngineError>, P: Fn(F) -> FuturePoll<F, T>>(
        &mut self,
        phase: PollPhase,
        acquire: &Q,
        invoke: &I,
        poll: &P,
    ) -> (res: Result<PollStep<T>, EngineError>)
        requires
            call_requires(*acquire, ()),
            forall|c: C| #[trigger] call_requires(*invoke, (c,)),
            forall|f: F| #[trigger] call_requires(*poll, (f,)),
        ensures
            poll_resumed(*acquire, *invoke, *poll, phase, *old(self), *final(self), res),
    {
        let ghost s0 = *self;
        match phase {
            PollPhase::AwaitPermit => {
                let asked = self.try_acquire_next_native_permit(acquire);
                let ghost mid = *self;
                match asked {
                    Ok(Some(_)) => {
                        let b = self.activate_next_permitted_deferred_native(invoke);
                        proof {
                            assert(permit_asked(*acquire, s0, mid, asked));
                            assert(deferred_activated(*invoke, mid, *self, b));
                        }
                        Ok(PollStep::Done(if b { NativePoll::Progress } else { NativePoll::Idle }))
                    },
                    Ok(None) => {
                        proof {
                            assert(permit_asked(*acquire, s0, mid, asked));
                        }
                        Ok(PollStep::Suspend(PollPhase::AwaitPermit))
                    },
                    Err(e) => {
                        proof {
                            assert(permit_asked(*acquire, s0, mid, asked));
                        }
                        Err(e)
                    },
                }
            },
            PollPhase::AwaitEvent { progressed } => {
                let found = self.poll_pending_native_once(poll);
                let ghost mid = *self;
                proof {
                    assert(pending_polled(*poll, s0, mid, found));
                }
                match found {
                    Some(i) => self.take_completion_step(i),
                    None => {
                        let asked = self.try_acquire_next_native_permit(acquire);
                        let ghost mid2 = *self;
                        proof {
                            assert(permit_asked(*acquire, mid, mid2, asked));
                        }
                        match asked {
                            Ok(Some(true)) => {
                                let b = self.activate_next_permitted_deferred_native(invoke);
                                proof {
                                    assert(deferred_activated(*invoke, mid2, *self, b));
                                }
                                Ok(PollStep::Done(if b { NativePoll::Progress } else { NativePoll::Idle }))
                            },
                            Ok(_) => {
                                if self.has_pending_native() {
                                    Ok(PollStep::Suspend(PollPhase::AwaitEvent { progressed }))
                                } else {
                                    Ok(PollStep::Done(if progressed { NativePoll::Progress } else { NativePoll::Idle }))
                                }
                            },
                            Err(e) => Err(e),
                        }
                    },
                }
            },
        }
    }

    /// One round of polling the host calls; where it must wait, it says
    /// from where to resume it once the host is woken.
    pub fn poll_pending_native<Q: Fn() -> PermitPoll<A>, I: Fn(C) -> Result<F, EngineError>, P: Fn(F) -> FuturePoll<F, T>>(
        &mut self,
        wait: bool,
        acquire: &Q,
        invoke: &I,
        poll: &P,
    ) -> (res: Result<PollStep<T>, EngineError>)
        requires
            call_requires(*acquire, ()),
            forall|c: C| #[trigger] call_requires(*invoke, (c,)),
            forall|f: F| #[trigger] call_requires(*poll, (f,)),
        ensures
            poll_started(*acquire, *invoke, *poll, wait, *old(self), *final(self), res),
    {
        let ghost s0 = *self;
        if !self.has_pending_native() && !self.has_immediate_native() && !self.has_deferred_native() {
            return Ok(PollStep::Done(NativePoll::Idle));
        }
        let b1 = self.activate_next_immediate_native(invoke);
        let ghost m1 = *self;
        let admitted = self.admit_available_deferred_native(acquire, invoke);
        let ghost m2 = *self;
        proof {
            assert(immediate_activated(*invoke, s0, m1, b1));
            assert(deferred_admitted(*acquire, *invoke, m1, m2, admitted));
        }
        let b2 = match admitted {
            Ok(b) => b,
            Err(e) => return Err(e),
        };
        let progressed = b1 || b2;
        if !self.has_pending_native() {
            if !wait || (!self.has_immediate_native() && !self.has_deferred_native()) {
                return Ok(PollStep::Done(if progressed { NativePoll::Progress } else { NativePoll::Idle }));
            }
            return self.resume_poll_pending_native(PollPhase::AwaitPermit, acquire, invoke, poll);
        }
        if wait {
            return self.resume_poll_pending_native(PollPhase::AwaitEvent { progressed }, acquire, invoke, poll);
        }
        let found = self.poll_pending_native_once(poll);
        let ghost mid = *self;
        proof {
            assert(pending_polled(*poll, m2, mid, found));
        }
        match found {
            Some(i) => self.take_completion_step(i),
            None => Ok(PollStep::Done(if progressed { NativePoll::Progress } else { NativePoll::Idle })),
        }
    }
}

} // verus!
