//! The evaluator's queue of ready work.
//!
//! Work items wait in one last-in-first-out order: the item scheduled last
//! runs first. The order is split between a `ready` queue, at most
//! `ready_work_limit` long, and a `deferred_ready` queue that takes the
//! overflow from the back of `ready` and gives it back as `ready` drains.
//! Moving items between the two never changes the order.

use std::collections::VecDeque;
use vstd::prelude::*;

verus! {

/// The identity of an evaluation frame.
#[derive(Clone, Copy, Debug, PartialEq, Eq, Structural)]
pub struct FrameId(pub u64);

/// A child frame's result, delivered to its parent.
#[derive(Debug)]
pub struct EvalReturned<P> {
    pub child: FrameId,
    pub value: P,
}

/// One unit of evaluator work: enter a frame, or resume it with a child's
/// result.
#[derive(Debug)]
pub struct EvalWorkItem<P> {
    pub frame: FrameId,
    pub returned: Option<EvalReturned<P>>,
}

impl<P> EvalWorkItem<P> {
    /// Work that enters `frame`.
    pub fn enter(frame: FrameId) -> (w: Self)
        ensures
            w.frame == frame,
            w.returned is None,
    {
        EvalWorkItem { frame, returned: None }
    }

    /// Work that resumes `frame` with the result `value` of its child `child`.
    pub fn receive(frame: FrameId, child: FrameId, value: P) -> (w: Self)
        ensures
            w.frame == frame,
            w.returned == Some(EvalReturned { child, value }),
    {
        EvalWorkItem { frame, returned: Some(EvalReturned { child, value }) }
    }
}

/// The results that the work items `s` carry, in order.
pub open spec fn returned_values<P>(s: Seq<EvalWorkItem<P>>) -> Seq<P>
    decreases s.len(),
{
    if s.len() == 0 {
        Seq::empty()
    } else {
        returned_values(s.drop_last()) + match s.last().returned {
            Some(r) => seq![r.value],
            None => Seq::empty(),
        }
    }
}

/// The smaller of two integers.
pub open spec fn min_int(a: int, b: int) -> int {
    if a <= b { a } else { b }
}

/// The ready-work limit that a requested limit gives: at least one.
pub open spec fn effective_limit(requested: usize) -> usize {
    if requested < 1 { 1 } else { requested }
}

/// The evaluator's work queue.
pub struct EvalScheduler<P> {
    ready: VecDeque<EvalWorkItem<P>>,
    deferred_ready: VecDeque<EvalWorkItem<P>>,
    ready_work_limit: usize,
}

impl<P> EvalScheduler<P> {
    /// All waiting work, the next item to run first.
    pub closed spec fn items(&self) -> Seq<EvalWorkItem<P>> {
        self.ready@ + self.deferred_ready@
    }

    /// How many items stand in the `ready` queue.
    pub closed spec fn ready_count(&self) -> nat {
        self.ready@.len()
    }

    /// The ready-work limit.
    pub closed spec fn limit(&self) -> usize {
        self.ready_work_limit
    }

    /// The limit is at least one, and `ready` holds no more than it.
    pub closed spec fn wf(&self) -> bool {
        &&& self.ready_work_limit >= 1
        &&& self.ready@.len() <= self.ready_work_limit
    }

    /// The ready queue is the front of the waiting work, and within the
    /// limit when the queue is well formed.
    pub proof fn lemma_ready_front(&self)
        ensures
            self.ready_count() <= self.items().len(),
            self.wf() ==> self.limit() >= 1 && self.ready_count() <= self.limit(),
    {
    }

    /// A queue holding the work that enters `root`.
    pub fn new(root: FrameId, ready_work_limit: usize) -> (s: Self)
        ensures
            s.wf(),
            s.items() == seq![EvalWorkItem::<P> { frame: root, returned: None }],
            s.limit() == effective_limit(ready_work_limit),
            s.ready_count() == 1,
    {
        let mut ready: VecDeque<EvalWorkItem<P>> = VecDeque::new();
        ready.push_front(EvalWorkItem::enter(root));
        let limit = if ready_work_limit < 1 { 1 } else { ready_work_limit };
        let s = EvalScheduler { ready, deferred_ready: VecDeque::new(), ready_work_limit: limit };
        proof {
            assert(s.items() =~= seq![EvalWorkItem::<P> { frame: root, returned: None }]);
        }
        s
    }

    /// Changes the ready-work limit; the waiting work keeps its order.
    pub fn set_ready_work_limit(&mut self, ready_work_limit: usize)
        requires
            old(self).wf(),
        ensures
            final(self).wf(),
            final(self).items() == old(self).items(),
            final(self).limit() == effective_limit(ready_work_limit),
    {
        self.ready_work_limit = if ready_work_limit < 1 { 1 } else { ready_work_limit };
        self.enforce_ready_limit();
    }

    /// Puts `item` first: it is the next to run.
    pub fn schedule_next(&mut self, item: EvalWorkItem<P>)
        requires
            old(self).wf(),
        ensures
            final(self).wf(),
            final(self).items() == seq![item] + old(self).items(),
            final(self).limit() == old(self).limit(),
            final(self).ready_count() == min_int(old(self).ready_count() as int + 1, old(self).limit() as int),
    {
        let ghost before = self.items();
        self.ready.push_front(item);
        proof {
            assert(self.items() =~= seq![item] + before);
        }
        self.enforce_ready_limit();
    }

    /// Takes the next item to run, if any; `ready` is then as full as the
    /// limit and the waiting work allow.
    pub fn pop_next(&mut self) -> (res: Option<EvalWorkItem<P>>)
        requires
            old(self).wf(),
        ensures
            final(self).wf(),
            final(self).limit() == old(self).limit(),
            match res {
                None => old(self).items().len() == 0 && final(self).items() == old(self).items(),
                Some(item) => old(self).items().len() > 0 && item == old(self).items()[0]
                    && final(self).items() == old(self).items().drop_first(),
            },
            final(self).ready_count() == min_int(final(self).limit() as int, final(self).items().len() as int),
    {
        let ghost all = self.items();
        self.admit_deferred_ready();
        let item = self.ready.pop_front();
        proof {
            if item is Some {
                assert(item->Some_0 == all[0]);
                assert(self.items() =~= all.drop_first());
            } else {
                assert(all.len() == 0);
            }
        }
        self.admit_deferred_ready();
        item
    }

    /// Whether any work waits.
    pub fn has_ready_work(&self) -> (b: bool)
        ensures
            b == (self.items().len() > 0),
    {
        self.ready.len() > 0 || self.deferred_ready.len() > 0
    }

    /// Moves items from the back of `ready` to the front of `deferred_ready`
    /// until `ready` is within the limit.
    fn enforce_ready_limit(&mut self)
        requires
            old(self).ready_work_limit >= 1,
        ensures
            final(self).wf(),
            final(self).items() == old(self).items(),
            final(self).ready_work_limit == old(self).ready_work_limit,
            final(self).ready@.len() == min_int(old(self).ready@.len() as int, old(self).ready_work_limit as int),
    {
        let limit = self.ready_work_limit;
        let ghost all = self.items();
        let ghost n0 = self.ready@.len();
        while self.ready.len() > limit
            invariant
                limit == self.ready_work_limit,
                limit >= 1,
                self.items() == all,
                self.ready@.len() == n0 || (n0 > limit && self.ready@.len() >= limit),
            decreases self.ready@.len(),
        {
            let ghost r = self.ready@;
            let ghost d = self.deferred_ready@;
            match self.ready.pop_back() {
                Some(item) => {
                    self.deferred_ready.push_front(item);
                    proof {
                        assert(self.items() =~= r + d);
                    }
                },
                None => {},
            }
        }
    }

    /// Moves items from the front of `deferred_ready` to the back of `ready`
    /// until `ready` reaches the limit or nothing is deferred.
    fn admit_deferred_ready(&mut self)
        requires
            old(self).wf(),
        ensures
            final(self).wf(),
            final(self).items() == old(self).items(),
            final(self).ready_work_limit == old(self).ready_work_limit,
            final(self).ready@.len() == min_int(
                final(self).ready_work_limit as int,
                final(self).items().len() as int,
            ),
    {
        let limit = self.ready_work_limit;
        let ghost all = self.items();
        while self.ready.len() < limit
            invariant_except_break
                self.ready@.len() <= limit,
            invariant
                limit == self.ready_work_limit,
                limit >= 1,
                self.items() == all,
                self.ready@.len() <= limit,
            ensures
                self.ready@.len() == limit || self.deferred_ready@.len() == 0,
            decreases self.deferred_ready@.len(),
        {
            let ghost r = self.ready@;
            let ghost d = self.deferred_ready@;
            let next = self.deferred_ready.pop_front();
            match next {
                Some(item) => {
                    self.ready.push_back(item);
                    proof {
                        assert(self.items() =~= r + d);
                    }
                },
                None => {
                    break;
                },
            }
        }
    }
}

impl<P: Copy> EvalScheduler<P> {
    /// The results carried by the waiting work, in queue order: the values
    /// that a collection must keep alive.
    pub fn visit_values(&self) -> (res: Vec<P>)
        ensures
            res@ == returned_values(self.items()),
    {
        let mut out: Vec<P> = Vec::new();
        let ghost all = self.items();
        let n = self.ready.len();
        let mut i: usize = 0;
        while i < n
            invariant
                0 <= i <= n,
                n == self.ready@.len(),
                all == self.items(),
                out@ == returned_values(all.take(i as int)),
            decreases n - i,
        {
            proof {
                assert(all.take(i + 1).drop_last() =~= all.take(i as int));
                assert(all[i as int] == self.ready@[i as int]);
            }
            match &self.ready[i].returned {
                Some(r) => out.push(r.value),
                None => {},
            }
            i += 1;
        }
        let m = self.deferred_ready.len();
        let mut j: usize = 0;
        while j < m
            invariant
                0 <= j <= m,
                n == self.ready@.len(),
                m == self.deferred_ready@.len(),
                all == self.items(),
                out@ == returned_values(all.take(n + j)),
            decreases m - j,
        {
            proof {
                assert(all.take(n + j + 1).drop_last() =~= all.take(n + j));
                assert(all[n + j] == self.deferred_ready@[j as int]);
            }
            match &self.deferred_ready[j].returned {
                Some(r) => out.push(r.value),
                None => {},
            }
            j += 1;
        }
        proof {
            assert(all.take(all.len() as int) =~= all);
        }
        out
    }
}

/// The work queue is a stack: the item scheduled last is the next popped,
/// and popping it leaves the waiting work as it was before.
pub proof fn law_schedule_then_pop<P>(items: Seq<EvalWorkItem<P>>, item: EvalWorkItem<P>)
    ensures
        (seq![item] + items).len() > 0,
        (seq![item] + items)[0] == item,
        (seq![item] + items).drop_first() == items,
{
    assert((seq![item] + items).drop_first() =~= items);
}

} // verus!
