//! The state of a built-in call in progress, over every kind of built-in,
//! and the operations the evaluator runs on it whatever its kind: sending
//! every value handle it holds through a conversion, recording scheduled
//! children, and asking whether taking a result may allocate.

use vstd::prelude::*;

use crate::error::EngineError;
use crate::dict_natives::{NativeDictMap, NativeDictTraverse};
use crate::lists::{items_failed, items_sent, map_each, maps_ok, ListItems};
use crate::natives::{NativeArrayEq, NativeFold, NativeMean, NativeSum};
use crate::scheduler::FrameId;
use crate::sequences::{NativeSequenceFilter, NativeSequenceFilterMap, NativeSequenceFlatMap, NativeSequenceMap};
use crate::unary::{NativeApplyUnary, NativeUnaryFilter, NativeUnaryFilterMap, NativeUnaryFlatMap, NativeUnaryMap};

verus! {

/// A built-in call in progress.
#[derive(Debug)]
pub enum NativeTask<P> {
    ApplyUnary(NativeApplyUnary<P>),
    SequenceMap(NativeSequenceMap<P>),
    SequenceFilter(NativeSequenceFilter<P>),
    SequenceFilterMap(NativeSequenceFilterMap<P>),
    SequenceFlatMap(NativeSequenceFlatMap<P>),
    UnaryMap(NativeUnaryMap<P>),
    UnaryFilter(NativeUnaryFilter<P>),
    UnaryFilterMap(NativeUnaryFilterMap<P>),
    UnaryFlatMap(NativeUnaryFlatMap<P>),
    Fold(NativeFold<P>),
    DictMap(NativeDictMap<P>),
    DictTraverse(NativeDictTraverse<P>),
    ArrayEq(NativeArrayEq<P>),
    Sum(NativeSum<P>),
    Mean(NativeMean<P>),
}

/// `map` sends `p` to `q`.
pub open spec fn sent<P, Q, E, F: Fn(P) -> Result<Q, E>>(map: F, p: P, q: Q) -> bool {
    map.ensures((p,), Ok::<Q, E>(q))
}

/// `map` fails on `p` with `e`.
pub open spec fn failed<P, Q, E, F: Fn(P) -> Result<Q, E>>(map: F, p: P, e: E) -> bool {
    map.ensures((p,), Err::<Q, E>(e))
}

/// `b` is `a` with its value, if any, sent through `map`.
pub open spec fn opt_sent<P, Q, E, F: Fn(P) -> Result<Q, E>>(map: F, a: Option<P>, b: Option<Q>) -> bool {
    match a {
        None => b is None,
        Some(p) => b matches Some(q) && sent(map, p, q),
    }
}

/// `map` fails with `e` on the value of `a`.
pub open spec fn opt_failed<P, Q, E, F: Fn(P) -> Result<Q, E>>(map: F, a: Option<P>, e: E) -> bool {
    a matches Some(p) && failed(map, p, e)
}

/// Slot by slot, `b` is `a` with each present value sent through `map`.
pub open spec fn slots_sent<P, Q, E, F: Fn(P) -> Result<Q, E>>(map: F, a: Seq<Option<P>>, b: Seq<Option<Q>>) -> bool {
    a.len() == b.len() && forall|i: int| 0 <= i < a.len() ==> opt_sent(map, #[trigger] a[i], b[i])
}

/// `map` fails with `e` on a present value of `a`, after succeeding on the
/// present values before it.
pub open spec fn slots_failed<P, Q, E, F: Fn(P) -> Result<Q, E>>(map: F, a: Seq<Option<P>>, e: E) -> bool {
    exists|i: int| 0 <= i < a.len() && opt_failed(map, #[trigger] a[i], e)
        && forall|k: int| 0 <= k < i ==> opt_ok(map, #[trigger] a[k])
}

/// `map` succeeds on the value of `a`, if it has one.
pub open spec fn opt_ok<P, Q, E, F: Fn(P) -> Result<Q, E>>(map: F, a: Option<P>) -> bool {
    a matches Some(p) ==> maps_ok(map, p)
}

/// `map` succeeds on every value of `v`.
pub open spec fn all_ok<P, Q, E, F: Fn(P) -> Result<Q, E>>(map: F, v: Seq<P>) -> bool {
    forall|j: int| 0 <= j < v.len() ==> maps_ok(map, #[trigger] v[j])
}

/// Slot by slot, `b` is `a` with each present payload sent through `map`.
pub open spec fn nested_sent<P, Q, E, F: Fn(P) -> Result<Q, E>>(map: F, a: Seq<Option<Option<P>>>, b: Seq<Option<Option<Q>>>) -> bool {
    a.len() == b.len() && forall|i: int| 0 <= i < a.len() ==> match #[trigger] a[i] {
        None => b[i] is None,
        Some(o) => b[i] matches Some(o2) && opt_sent(map, o, o2),
    }
}

/// `map` fails with `e` on a present payload of `a`.
pub open spec fn nested_failed<P, Q, E, F: Fn(P) -> Result<Q, E>>(map: F, a: Seq<Option<Option<P>>>, e: E) -> bool {
    exists|i: int| 0 <= i < a.len() && (#[trigger] a[i] matches Some(o) && opt_failed(map, o, e))
        && forall|k: int| 0 <= k < i ==> (#[trigger] a[k] matches Some(o2) ==> opt_ok(map, o2))
}

/// `w` is `v` with each value sent through `map`.
pub open spec fn all_sent<P, Q, E, F: Fn(P) -> Result<Q, E>>(map: F, v: Seq<P>, w: Seq<Q>) -> bool {
    v.len() == w.len() && forall|j: int| 0 <= j < v.len() ==> sent(map, #[trigger] v[j], w[j])
}

/// `map` fails with `e` on a value of `v`.
pub open spec fn any_failed<P, Q, E, F: Fn(P) -> Result<Q, E>>(map: F, v: Seq<P>, e: E) -> bool {
    exists|j: int| 0 <= j < v.len() && failed(map, #[trigger] v[j], e) && forall|k: int| 0 <= k < j ==> maps_ok(map, #[trigger] v[k])
}

/// Slot by slot, `b` is `a` with each present list sent through `map`.
pub open spec fn vecs_sent<P, Q, E, F: Fn(P) -> Result<Q, E>>(map: F, a: Seq<Option<Vec<P>>>, b: Seq<Option<Vec<Q>>>) -> bool {
    a.len() == b.len() && forall|i: int| 0 <= i < a.len() ==> match #[trigger] a[i] {
        None => b[i] is None,
        Some(v) => b[i] matches Some(w) && all_sent(map, v@, w@),
    }
}

/// `map` fails with `e` on a value of a present list of `a`.
pub open spec fn vecs_failed<P, Q, E, F: Fn(P) -> Result<Q, E>>(map: F, a: Seq<Option<Vec<P>>>, e: E) -> bool {
    exists|i: int| 0 <= i < a.len() && (#[trigger] a[i] matches Some(v) && any_failed(map, v@, e))
        && forall|k: int| 0 <= k < i ==> (#[trigger] a[k] matches Some(w) ==> all_ok(map, w@))
}

/// Sends every present payload through `map`, slot after slot, stopping at
/// the first failure.
pub fn map_nested_option_values<P, Q, E, F: Fn(P) -> Result<Q, E>>(values: Vec<Option<Option<P>>>, map: &F) -> (res: Result<
    Vec<Option<Option<Q>>>,
    E,
>)
    requires
        forall|p: P| #[trigger] map.requires((p,)),
    ensures
        match res {
            Ok(out) => nested_sent(*map, values@, out@),
            Err(e) => nested_failed(*map, values@, e),
        },
{
    let ghost vals = values@;
    let n = values.len();
    let mut pending = values;
    let mut rest: Vec<Option<Option<P>>> = Vec::new();
    while pending.len() > 0
        invariant
            pending@.len() + rest@.len() == n,
            vals.len() == n,
            forall|k: int| 0 <= k < pending@.len() ==> #[trigger] pending@[k] == vals[k],
            forall|k: int| 0 <= k < rest@.len() ==> #[trigger] rest@[k] == vals[n - 1 - k],
        decreases pending@.len(),
    {
        match pending.pop() {
            Some(v) => rest.push(v),
            None => {},
        }
    }
    let mut out: Vec<Option<Option<Q>>> = Vec::new();
    while rest.len() > 0
        invariant
            out@.len() + rest@.len() == n,
            vals.len() == n,
            vals == values@,
            forall|k: int| 0 <= k < rest@.len() ==> #[trigger] rest@[k] == vals[n - 1 - k],
            forall|p: P| #[trigger] map.requires((p,)),
            forall|i: int| 0 <= i < out@.len() ==> match #[trigger] vals[i] {
                None => out@[i] is None,
                Some(o) => out@[i] matches Some(o2) && opt_sent(*map, o, o2),
            },
        decreases rest@.len(),
    {
        let ghost i = out@.len() as int;
        let item = match rest.pop() {
            Some(x) => x,
            None => {
                return Ok(out);
            },
        };
        proof {
            assert(item == vals[i]);
        }
        match item {
            None => out.push(None),
            Some(inner) => match crate::frames::map_option_value(inner, map) {
                Ok(q) => out.push(Some(q)),
                Err(e) => {
                    proof {
                        assert(vals[i] matches Some(o) && opt_failed(*map, o, e));
                        assert(vals == values@);
                        assert(0 <= i < values@.len());
                    }
                    return Err(e);
                },
            },
        }
    }
    Ok(out)
}

/// Sends every value of every present list through `map`, slot after slot,
/// stopping at the first failure.
pub fn map_option_value_vecs<P, Q, E, F: Fn(P) -> Result<Q, E>>(values: Vec<Option<Vec<P>>>, map: &F) -> (res: Result<
    Vec<Option<Vec<Q>>>,
    E,
>)
    requires
        forall|p: P| #[trigger] map.requires((p,)),
    ensures
        match res {
            Ok(out) => vecs_sent(*map, values@, out@),
            Err(e) => vecs_failed(*map, values@, e),
        },
{
    let ghost vals = values@;
    let n = values.len();
    let mut pending = values;
    let mut rest: Vec<Option<Vec<P>>> = Vec::new();
    while pending.len() > 0
        invariant
            pending@.len() + rest@.len() == n,
            vals.len() == n,
            forall|k: int| 0 <= k < pending@.len() ==> #[trigger] pending@[k] == vals[k],
            forall|k: int| 0 <= k < rest@.len() ==> #[trigger] rest@[k] == vals[n - 1 - k],
        decreases pending@.len(),
    {
        match pending.pop() {
            Some(v) => rest.push(v),
            None => {},
        }
    }
    let mut out: Vec<Option<Vec<Q>>> = Vec::new();
    while rest.len() > 0
        invariant
            out@.len() + rest@.len() == n,
            vals.len() == n,
            vals == values@,
            forall|k: int| 0 <= k < rest@.len() ==> #[trigger] rest@[k] == vals[n - 1 - k],
            forall|p: P| #[trigger] map.requires((p,)),
            forall|i: int| 0 <= i < out@.len() ==> match #[trigger] vals[i] {
                None => out@[i] is None,
                Some(v) => out@[i] matches Some(w) && all_sent(*map, v@, w@),
            },
        decreases rest@.len(),
    {
        let ghost i = out@.len() as int;
        let item = match rest.pop() {
            Some(x) => x,
            None => {
                return Ok(out);
            },
        };
        proof {
            assert(item == vals[i]);
        }
        match item {
            None => out.push(None),
            Some(inner) => match map_each(inner, map) {
                Ok(w) => out.push(Some(w)),
                Err(e) => {
                    proof {
                        assert(vals[i] matches Some(v) && any_failed(*map, v@, e));
                        assert(vals == values@);
                        assert(0 <= i < values@.len());
                    }
                    return Err(e);
                },
            },
        }
    }
    Ok(out)
}


/// Field by field, `b` has the names of `a` and its values sent through
/// `map`.
pub open spec fn fields_sent<P, Q, E, F: Fn(P) -> Result<Q, E>>(map: F, a: Seq<(String, P)>, b: Seq<(String, Q)>) -> bool {
    a.len() == b.len() && forall|k: int| 0 <= k < a.len() ==> (#[trigger] b[k]).0 == a[k].0 && sent(map, a[k].1, b[k].1)
}

/// `map` fails with `e` on a field value of `a`.
pub open spec fn fields_failed<P, Q, E, F: Fn(P) -> Result<Q, E>>(map: F, a: Seq<(String, P)>, e: E) -> bool {
    exists|k: int| 0 <= k < a.len() && failed(map, (#[trigger] a[k]).1, e) && forall|j: int| 0 <= j < k ==> maps_ok(map, (#[trigger] a[j]).1)
}

/// Sends the value of every field through `map`, in order, keeping the
/// names, and stopping at the first failure.
pub fn map_entries_into<P, Q, E, F: Fn(P) -> Result<Q, E>>(entries: Vec<(String, P)>, map: &F) -> (res: Result<Vec<(String, Q)>, E>)
    requires
        forall|p: P| #[trigger] map.requires((p,)),
    ensures
        match res {
            Ok(out) => fields_sent(*map, entries@, out@),
            Err(e) => fields_failed(*map, entries@, e),
        },
{
    let ghost vals = entries@;
    let n = entries.len();
    let mut pending = entries;
    let mut rest: Vec<(String, P)> = Vec::new();
    while pending.len() > 0
        invariant
            pending@.len() + rest@.len() == n,
            vals.len() == n,
            forall|k: int| 0 <= k < pending@.len() ==> #[trigger] pending@[k] == vals[k],
            forall|k: int| 0 <= k < rest@.len() ==> #[trigger] rest@[k] == vals[n - 1 - k],
        decreases pending@.len(),
    {
        match pending.pop() {
            Some(v) => rest.push(v),
            None => {},
        }
    }
    let mut out: Vec<(String, Q)> = Vec::new();
    while rest.len() > 0
        invariant
            out@.len() + rest@.len() == n,
            vals.len() == n,
            vals == entries@,
            forall|k: int| 0 <= k < rest@.len() ==> #[trigger] rest@[k] == vals[n - 1 - k],
            forall|p: P| #[trigger] map.requires((p,)),
            forall|k: int| 0 <= k < out@.len() ==> (#[trigger] out@[k]).0 == vals[k].0 && sent(*map, vals[k].1, out@[k].1),
        decreases rest@.len(),
    {
        let ghost i = out@.len() as int;
        let (name, value) = match rest.pop() {
            Some(x) => x,
            None => {
                return Ok(out);
            },
        };
        proof {
            assert((name, value) == vals[i]);
        }
        match map(value) {
            Ok(q) => out.push((name, q)),
            Err(e) => {
                proof {
                    assert(failed(*map, vals[i].1, e));
                    assert(0 <= i < entries@.len());
                    assert forall|j: int| 0 <= j < i implies maps_ok(*map, (#[trigger] vals[j]).1) by {
                        assert(map.ensures((vals[j].1,), Ok::<Q, E>(out@[j].1)));
                    }
                }
                return Err(e);
            },
        }
    }
    Ok(out)
}

/// `b` is the task `a` with every value handle sent through `map`, and all
/// else as it was.
pub open spec fn task_sent<P, Q, E, F: Fn(P) -> Result<Q, E>>(map: F, a: NativeTask<P>, b: NativeTask<Q>) -> bool {
    match (a, b) {
        (NativeTask::ApplyUnary(x), NativeTask::ApplyUnary(y)) => sent(map, x.func, y.func) && sent(map, x.arg, y.arg),
        (NativeTask::SequenceMap(x), NativeTask::SequenceMap(y)) => {
            &&& sent(map, x.func, y.func)
            &&& items_sent(map, x.values, y.values)
            &&& y.shape == x.shape && y.children@ == x.children@ && y.remaining == x.remaining
            &&& slots_sent(map, x.output@, y.output@)
        },
        (NativeTask::SequenceFilter(x), NativeTask::SequenceFilter(y)) => {
            &&& sent(map, x.func, y.func)
            &&& items_sent(map, x.values, y.values)
            &&& y.shape == x.shape && y.children@ == x.children@ && y.remaining == x.remaining
            &&& y.keep@ == x.keep@
        },
        (NativeTask::SequenceFilterMap(x), NativeTask::SequenceFilterMap(y)) => {
            &&& sent(map, x.func, y.func)
            &&& items_sent(map, x.values, y.values)
            &&& y.shape == x.shape && y.children@ == x.children@ && y.remaining == x.remaining
            &&& nested_sent(map, x.output@, y.output@)
        },
        (NativeTask::SequenceFlatMap(x), NativeTask::SequenceFlatMap(y)) => {
            &&& sent(map, x.func, y.func)
            &&& items_sent(map, x.values, y.values)
            &&& y.shape == x.shape && y.children@ == x.children@ && y.remaining == x.remaining
            &&& vecs_sent(map, x.output@, y.output@)
        },
        (NativeTask::UnaryMap(x), NativeTask::UnaryMap(y)) =>
            sent(map, x.func, y.func) && sent(map, x.value, y.value) && y.shape == x.shape,
        (NativeTask::UnaryFilter(x), NativeTask::UnaryFilter(y)) =>
            sent(map, x.func, y.func) && sent(map, x.value, y.value) && sent(map, x.original, y.original),
        (NativeTask::UnaryFilterMap(x), NativeTask::UnaryFilterMap(y)) =>
            sent(map, x.func, y.func) && sent(map, x.value, y.value),
        (NativeTask::UnaryFlatMap(x), NativeTask::UnaryFlatMap(y)) =>
            sent(map, x.func, y.func) && sent(map, x.value, y.value) && y.shape == x.shape,
        (NativeTask::Fold(x), NativeTask::Fold(y)) => {
            &&& sent(map, x.func, y.func)
            &&& items_sent(map, x.values, y.values)
            &&& sent(map, x.acc, y.acc)
            &&& y.order == x.order && y.state == x.state && y.next_index == x.next_index
            &&& opt_sent(map, x.step, y.step)
        },
        (NativeTask::DictMap(x), NativeTask::DictMap(y)) => {
            &&& sent(map, x.func, y.func)
            &&& fields_sent(map, x.entries@, y.entries@)
            &&& y.children@ == x.children@ && y.remaining == x.remaining
            &&& fields_sent(map, x.output@, y.output@)
        },
        (NativeTask::DictTraverse(x), NativeTask::DictTraverse(y)) => {
            &&& sent(map, x.func, y.func)
            &&& fields_sent(map, x.entries@, y.entries@)
            &&& y.next_index == x.next_index
            &&& fields_sent(map, x.output@, y.output@)
        },
        (NativeTask::ArrayEq(x), NativeTask::ArrayEq(y)) => {
            &&& items_sent(map, x.xs, y.xs)
            &&& items_sent(map, x.ys, y.ys)
            &&& y.state == x.state && y.next_index == x.next_index && y.negate == x.negate
            &&& opt_sent(map, x.step, y.step)
        },
        (NativeTask::Sum(x), NativeTask::Sum(y)) => {
            &&& items_sent(map, x.values, y.values)
            &&& opt_sent(map, x.acc, y.acc)
            &&& opt_sent(map, x.plus, y.plus)
            &&& y.state == x.state && y.next_index == x.next_index
            &&& opt_sent(map, x.step, y.step)
        },
        (NativeTask::Mean(x), NativeTask::Mean(y)) => {
            &&& items_sent(map, x.values, y.values)
            &&& opt_sent(map, x.acc, y.acc)
            &&& y.state == x.state && y.next_index == x.next_index
            &&& opt_sent(map, x.step, y.step)
            &&& opt_sent(map, x.len_value, y.len_value)
        },
        _ => false,
    }
}

/// `b` is the list of handles `a`, unchanged.
pub open spec fn items_same<P>(a: ListItems<P>, b: ListItems<P>) -> bool {
    match (a, b) {
        (ListItems::Slice { elements, start, end }, ListItems::Slice { elements: e2, start: s2, end: n2 }) =>
            e2 == elements && s2 == start && n2 == end,
        (ListItems::BinarySlice { elements, start, end, bytes }, ListItems::BinarySlice { elements: e2, start: s2, end: n2, bytes: b2 }) =>
            e2 == elements && s2 == start && n2 == end && b2@ =~= bytes@,
        (ListItems::Pointers(v), ListItems::Pointers(w)) => w@ =~= v@,
        _ => false,
    }
}

/// `b` holds the lists of `a`, unchanged.
pub open spec fn vecs_same<P>(a: Seq<Option<Vec<P>>>, b: Seq<Option<Vec<P>>>) -> bool {
    a.len() == b.len() && forall|i: int| 0 <= i < a.len() ==> match #[trigger] a[i] {
        None => b[i] is None,
        Some(v) => b[i] matches Some(w) && w@ =~= v@,
    }
}

/// `b` is the task `a`, unchanged: the same kind, the same handles and the
/// same contents of every other field.
pub open spec fn same_task<P>(a: NativeTask<P>, b: NativeTask<P>) -> bool {
    match (a, b) {
        (NativeTask::ApplyUnary(x), NativeTask::ApplyUnary(y)) => y.func == x.func && y.arg == x.arg,
        (NativeTask::SequenceMap(x), NativeTask::SequenceMap(y)) => {
            &&& y.func == x.func
            &&& items_same(x.values, y.values)
            &&& y.shape == x.shape && y.children@ == x.children@ && y.remaining == x.remaining
            &&& y.output@ =~= x.output@
        },
        (NativeTask::SequenceFilter(x), NativeTask::SequenceFilter(y)) => {
            &&& y.func == x.func
            &&& items_same(x.values, y.values)
            &&& y.shape == x.shape && y.children@ == x.children@ && y.remaining == x.remaining
            &&& y.keep@ == x.keep@
        },
        (NativeTask::SequenceFilterMap(x), NativeTask::SequenceFilterMap(y)) => {
            &&& y.func == x.func
            &&& items_same(x.values, y.values)
            &&& y.shape == x.shape && y.children@ == x.children@ && y.remaining == x.remaining
            &&& y.output@ =~= x.output@
        },
        (NativeTask::SequenceFlatMap(x), NativeTask::SequenceFlatMap(y)) => {
            &&& y.func == x.func
            &&& items_same(x.values, y.values)
            &&& y.shape == x.shape && y.children@ == x.children@ && y.remaining == x.remaining
            &&& vecs_same(x.output@, y.output@)
        },
        (NativeTask::UnaryMap(x), NativeTask::UnaryMap(y)) =>
            y.func == x.func && y.value == x.value && y.shape == x.shape,
        (NativeTask::UnaryFilter(x), NativeTask::UnaryFilter(y)) =>
            y.func == x.func && y.value == x.value && y.original == x.original,
        (NativeTask::UnaryFilterMap(x), NativeTask::UnaryFilterMap(y)) =>
            y.func == x.func && y.value == x.value,
        (NativeTask::UnaryFlatMap(x), NativeTask::UnaryFlatMap(y)) =>
            y.func == x.func && y.value == x.value && y.shape == x.shape,
        (NativeTask::Fold(x), NativeTask::Fold(y)) => {
            &&& y.func == x.func
            &&& items_same(x.values, y.values)
            &&& y.acc == x.acc
            &&& y.order == x.order && y.state == x.state && y.next_index == x.next_index
            &&& y.step == x.step
        },
        (NativeTask::DictMap(x), NativeTask::DictMap(y)) => {
            &&& y.func == x.func
            &&& y.entries@ =~= x.entries@
            &&& y.children@ == x.children@ && y.remaining == x.remaining
            &&& y.output@ =~= x.output@
        },
        (NativeTask::DictTraverse(x), NativeTask::DictTraverse(y)) => {
            &&& y.func == x.func
            &&& y.entries@ =~= x.entries@
            &&& y.next_index == x.next_index
            &&& y.output@ =~= x.output@
        },
        (NativeTask::ArrayEq(x), NativeTask::ArrayEq(y)) => {
            &&& items_same(x.xs, y.xs)
            &&& items_same(x.ys, y.ys)
            &&& y.state == x.state && y.next_index == x.next_index && y.negate == x.negate
            &&& y.step == x.step
        },
        (NativeTask::Sum(x), NativeTask::Sum(y)) => {
            &&& items_same(x.values, y.values)
            &&& y.acc == x.acc
            &&& y.plus == x.plus
            &&& y.state == x.state && y.next_index == x.next_index
            &&& y.step == x.step
        },
        (NativeTask::Mean(x), NativeTask::Mean(y)) => {
            &&& items_same(x.values, y.values)
            &&& y.acc == x.acc
            &&& y.state == x.state && y.next_index == x.next_index
            &&& y.step == x.step
            &&& y.len_value == x.len_value
        },
        _ => false,
    }
}


/// Sending a task's handles through a map that gives every handle back
/// unchanged never fails, and gives the task back unchanged.
pub proof fn law_identity_map_keeps_task<P, E, F: Fn(P) -> Result<P, E>>(map: F, a: NativeTask<P>, b: NativeTask<P>, e: E)
    requires
        forall|p: P, r: Result<P, E>| #[trigger] map.ensures((p,), r) ==> r == Ok::<P, E>(p),
    ensures
        !task_failed(map, a, e),
        task_sent(map, a, b) ==> same_task(a, b),
{
}

/// `map` succeeds on every handle of `a`.
pub open spec fn items_ok<P, Q, E, F: Fn(P) -> Result<Q, E>>(map: F, a: ListItems<P>) -> bool {
    exists|b: ListItems<Q>| #[trigger] items_sent(map, a, b)
}

/// `map` succeeds on every field value of `a`.
pub open spec fn fields_ok<P, Q, E, F: Fn(P) -> Result<Q, E>>(map: F, a: Seq<(String, P)>) -> bool {
    exists|b: Seq<(String, Q)>| #[trigger] fields_sent(map, a, b)
}

/// `map` fails with `e` on a value handle that the task `a` holds, after
/// succeeding on every handle before it in field order.
pub open spec fn task_failed<P, Q, E, F: Fn(P) -> Result<Q, E>>(map: F, a: NativeTask<P>, e: E) -> bool {
    match a {
        NativeTask::ApplyUnary(x) => failed(map, x.func, e) || (maps_ok(map, x.func) && failed(map, x.arg, e)),
        NativeTask::SequenceMap(x) => failed(map, x.func, e) || (maps_ok(map, x.func) && (items_failed(map, x.values, e)
            || (items_ok(map, x.values) && slots_failed(map, x.output@, e)))),
        NativeTask::SequenceFilter(x) => failed(map, x.func, e) || (maps_ok(map, x.func) && items_failed(map, x.values, e)),
        NativeTask::SequenceFilterMap(x) => failed(map, x.func, e) || (maps_ok(map, x.func) && (items_failed(map, x.values, e)
            || (items_ok(map, x.values) && nested_failed(map, x.output@, e)))),
        NativeTask::SequenceFlatMap(x) => failed(map, x.func, e) || (maps_ok(map, x.func) && (items_failed(map, x.values, e)
            || (items_ok(map, x.values) && vecs_failed(map, x.output@, e)))),
        NativeTask::UnaryMap(x) => failed(map, x.func, e) || (maps_ok(map, x.func) && failed(map, x.value, e)),
        NativeTask::UnaryFilter(x) => failed(map, x.func, e) || (maps_ok(map, x.func) && (failed(map, x.value, e)
            || (maps_ok(map, x.value) && failed(map, x.original, e)))),
        NativeTask::UnaryFilterMap(x) => failed(map, x.func, e) || (maps_ok(map, x.func) && failed(map, x.value, e)),
        NativeTask::UnaryFlatMap(x) => failed(map, x.func, e) || (maps_ok(map, x.func) && failed(map, x.value, e)),
        NativeTask::Fold(x) => failed(map, x.func, e) || (maps_ok(map, x.func) && (items_failed(map, x.values, e)
            || (items_ok(map, x.values) && (failed(map, x.acc, e) || (maps_ok(map, x.acc) && opt_failed(map, x.step, e)))))),
        NativeTask::DictMap(x) => failed(map, x.func, e) || (maps_ok(map, x.func) && (fields_failed(map, x.entries@, e)
            || (fields_ok(map, x.entries@) && fields_failed(map, x.output@, e)))),
        NativeTask::DictTraverse(x) => failed(map, x.func, e) || (maps_ok(map, x.func) && (fields_failed(map, x.entries@, e)
            || (fields_ok(map, x.entries@) && fields_failed(map, x.output@, e)))),
        NativeTask::ArrayEq(x) => items_failed(map, x.xs, e) || (items_ok(map, x.xs) && (items_failed(map, x.ys, e)
            || (items_ok(map, x.ys) && opt_failed(map, x.step, e)))),
        NativeTask::Sum(x) => items_failed(map, x.values, e) || (items_ok(map, x.values) && (opt_failed(map, x.acc, e)
            || (opt_ok(map, x.acc) && (opt_failed(map, x.plus, e) || (opt_ok(map, x.plus) && opt_failed(map, x.step, e)))))),
        NativeTask::Mean(x) => items_failed(map, x.values, e) || (items_ok(map, x.values) && (opt_failed(map, x.acc, e)
            || (opt_ok(map, x.acc) && (opt_failed(map, x.step, e) || (opt_ok(map, x.step) && opt_failed(map, x.len_value, e)))))),
    }
}

/// `map` fails with `e` on a present value of `a`, as `map_option_values`
/// states it.
proof fn lemma_slots_failed<P, Q, E, F: Fn(P) -> Result<Q, E>>(map: F, a: Seq<Option<P>>, e: E)
    requires
        exists|i: int| 0 <= i < a.len() && (#[trigger] a[i]) is Some && map.ensures((a[i]->Some_0,), Err::<Q, E>(e))
            && forall|j: int| 0 <= j < i && (#[trigger] a[j]) is Some ==> maps_ok(map, a[j]->Some_0),
    ensures
        slots_failed(map, a, e),
{
    let i = choose|i: int| 0 <= i < a.len() && (#[trigger] a[i]) is Some && map.ensures((a[i]->Some_0,), Err::<Q, E>(e))
        && forall|j: int| 0 <= j < i && (#[trigger] a[j]) is Some ==> maps_ok(map, a[j]->Some_0);
    assert(opt_failed(map, a[i], e));
    assert forall|k: int| 0 <= k < i implies opt_ok(map, #[trigger] a[k]) by {
        if a[k] is Some {
            assert(maps_ok(map, a[k]->Some_0));
        }
    }
}

impl<P> NativeTask<P> {
    /// The same task with every value handle sent through `map`, stopping at
    /// the first failure.
    pub fn map_values<Q, E, F: Fn(P) -> Result<Q, E>>(self, map: &F) -> (res: Result<NativeTask<Q>, E>)
        requires
            forall|p: P| #[trigger] map.requires((p,)),
        ensures
            match res {
                Ok(t) => task_sent(*map, self, t),
                Err(e) => task_failed(*map, self, e),
            },
    {
        match self {
            NativeTask::ApplyUnary(t) => {
                let func = match map(t.func) { Ok(q) => q, Err(e) => return Err(e) };
                let arg = match map(t.arg) { Ok(q) => q, Err(e) => return Err(e) };
                Ok(NativeTask::ApplyUnary(NativeApplyUnary { func, arg }))
            },
            NativeTask::SequenceMap(t) => {
                let func = match map(t.func) { Ok(q) => q, Err(e) => return Err(e) };
                let values = match t.values.map_values(map) { Ok(v) => v, Err(e) => return Err(e) };
                let ghost slots = t.output@;
                let output = match crate::frames::map_option_values(t.output, map) {
                    Ok(v) => v,
                    Err(e) => {
                        proof {
                            lemma_slots_failed(*map, slots, e);
                        }
                        return Err(e);
                    },
                };
                Ok(NativeTask::SequenceMap(NativeSequenceMap {
                    func,
                    values,
                    shape: t.shape,
                    children: t.children,
                    output,
                    remaining: t.remaining,
                }))
            },
            NativeTask::SequenceFilter(t) => {
                let func = match map(t.func) { Ok(q) => q, Err(e) => return Err(e) };
                let values = match t.values.map_values(map) { Ok(v) => v, Err(e) => return Err(e) };
                Ok(NativeTask::SequenceFilter(NativeSequenceFilter {
                    func,
                    values,
                    shape: t.shape,
                    children: t.children,
                    keep: t.keep,
                    remaining: t.remaining,
                }))
            },
            NativeTask::SequenceFilterMap(t) => {
                let func = match map(t.func) { Ok(q) => q, Err(e) => return Err(e) };
                let values = match t.values.map_values(map) { Ok(v) => v, Err(e) => return Err(e) };
                let output = match map_nested_option_values(t.output, map) { Ok(v) => v, Err(e) => return Err(e) };
                Ok(NativeTask::SequenceFilterMap(NativeSequenceFilterMap {
                    func,
                    values,
                    shape: t.shape,
                    children: t.children,
                    output,
                    remaining: t.remaining,
                }))
            },
            NativeTask::SequenceFlatMap(t) => {
                let func = match map(t.func) { Ok(q) => q, Err(e) => return Err(e) };
                let values = match t.values.map_values(map) { Ok(v) => v, Err(e) => return Err(e) };
                let output = match map_option_value_vecs(t.output, map) { Ok(v) => v, Err(e) => return Err(e) };
                Ok(NativeTask::SequenceFlatMap(NativeSequenceFlatMap {
                    func,
                    values,
                    shape: t.shape,
                    children: t.children,
                    output,
                    remaining: t.remaining,
                }))
            },
            NativeTask::UnaryMap(t) => {
                let func = match map(t.func) { Ok(q) => q, Err(e) => return Err(e) };
                let value = match map(t.value) { Ok(q) => q, Err(e) => return Err(e) };
                Ok(NativeTask::UnaryMap(NativeUnaryMap { func, value, shape: t.shape }))
            },
            NativeTask::UnaryFilter(t) => {
                let func = match map(t.func) { Ok(q) => q, Err(e) => return Err(e) };
                let value = match map(t.value) { Ok(q) => q, Err(e) => return Err(e) };
                let original = match map(t.original) { Ok(q) => q, Err(e) => return Err(e) };
                Ok(NativeTask::UnaryFilter(NativeUnaryFilter { func, value, original }))
            },
            NativeTask::UnaryFilterMap(t) => {
                let func = match map(t.func) { Ok(q) => q, Err(e) => return Err(e) };
                let value = match map(t.value) { Ok(q) => q, Err(e) => return Err(e) };
                Ok(NativeTask::UnaryFilterMap(NativeUnaryFilterMap { func, value }))
            },
            NativeTask::UnaryFlatMap(t) => {
                let func = match map(t.func) { Ok(q) => q, Err(e) => return Err(e) };
                let value = match map(t.value) { Ok(q) => q, Err(e) => return Err(e) };
                Ok(NativeTask::UnaryFlatMap(NativeUnaryFlatMap { func, value, shape: t.shape }))
            },
            NativeTask::Fold(t) => {
                let func = match map(t.func) { Ok(q) => q, Err(e) => return Err(e) };
                let values = match t.values.map_values(map) { Ok(v) => v, Err(e) => return Err(e) };
                let acc = match map(t.acc) { Ok(q) => q, Err(e) => return Err(e) };
                let step = match crate::frames::map_option_value(t.step, map) { Ok(q) => q, Err(e) => return Err(e) };
                Ok(NativeTask::Fold(NativeFold {
                    func,
                    values,
                    acc,
                    order: t.order,
                    state: t.state,
                    next_index: t.next_index,
                    step,
                }))
            },
            NativeTask::DictMap(t) => {
                let func = match map(t.func) { Ok(q) => q, Err(e) => return Err(e) };
                let entries = match map_entries_into(t.entries, map) { Ok(v) => v, Err(e) => return Err(e) };
                let output = match map_entries_into(t.output, map) { Ok(v) => v, Err(e) => return Err(e) };
                Ok(NativeTask::DictMap(NativeDictMap { func, entries, children: t.children, output, remaining: t.remaining }))
            },
            NativeTask::DictTraverse(t) => {
                let func = match map(t.func) { Ok(q) => q, Err(e) => return Err(e) };
                let entries = match map_entries_into(t.entries, map) { Ok(v) => v, Err(e) => return Err(e) };
                let output = match map_entries_into(t.output, map) { Ok(v) => v, Err(e) => return Err(e) };
                Ok(NativeTask::DictTraverse(NativeDictTraverse { func, entries, next_index: t.next_index, output }))
            },
            NativeTask::ArrayEq(t) => {
                let xs = match t.xs.map_values(map) { Ok(v) => v, Err(e) => return Err(e) };
                let ys = match t.ys.map_values(map) { Ok(v) => v, Err(e) => return Err(e) };
                let step = match crate::frames::map_option_value(t.step, map) { Ok(q) => q, Err(e) => return Err(e) };
                Ok(NativeTask::ArrayEq(NativeArrayEq {
                    xs,
                    ys,
                    state: t.state,
                    next_index: t.next_index,
                    step,
                    negate: t.negate,
                }))
            },
            NativeTask::Sum(t) => {
                let values = match t.values.map_values(map) { Ok(v) => v, Err(e) => return Err(e) };
                let acc = match crate::frames::map_option_value(t.acc, map) { Ok(q) => q, Err(e) => return Err(e) };
                let plus = match crate::frames::map_option_value(t.plus, map) { Ok(q) => q, Err(e) => return Err(e) };
                let step = match crate::frames::map_option_value(t.step, map) { Ok(q) => q, Err(e) => return Err(e) };
                Ok(NativeTask::Sum(NativeSum { values, acc, plus, state: t.state, next_index: t.next_index, step }))
            },
            NativeTask::Mean(t) => {
                let values = match t.values.map_values(map) { Ok(v) => v, Err(e) => return Err(e) };
                let acc = match crate::frames::map_option_value(t.acc, map) { Ok(q) => q, Err(e) => return Err(e) };
                let step = match crate::frames::map_option_value(t.step, map) { Ok(q) => q, Err(e) => return Err(e) };
                let len_value = match crate::frames::map_option_value(t.len_value, map) {
                    Ok(q) => q,
                    Err(e) => return Err(e),
                };
                Ok(NativeTask::Mean(NativeMean {
                    values,
                    acc,
                    state: t.state,
                    next_index: t.next_index,
                    step,
                    len_value,
                }))
            },
        }
    }
}


/// Whether taking the next child result of `t` may allocate.
pub open spec fn may_allocate<P>(t: NativeTask<P>) -> bool {
    match t {
        NativeTask::ApplyUnary(_) => false,
        NativeTask::SequenceMap(x) => x.remaining == 1,
        NativeTask::SequenceFilter(x) => x.remaining == 1,
        NativeTask::SequenceFilterMap(x) => x.remaining == 1,
        NativeTask::SequenceFlatMap(x) => x.remaining == 1,
        NativeTask::UnaryMap(_) => true,
        NativeTask::UnaryFilter(_) => true,
        NativeTask::UnaryFilterMap(_) => false,
        NativeTask::UnaryFlatMap(_) => false,
        NativeTask::Fold(_) => false,
        NativeTask::DictMap(x) => x.remaining == 1,
        NativeTask::DictTraverse(_) => true,
        NativeTask::ArrayEq(x) => x.state is ApplySecond,
        NativeTask::Sum(x) => x.state is ApplySecond && x.plus is None && (x.next_index + 1 > usize::MAX
            || x.next_index + 1 < x.values.item_count()),
        NativeTask::Mean(x) => x.state is ApplyPlusSecond,
    }
}

/// The child frames that `t` has scheduled, for the kinds that schedule
/// children: one per element.
pub open spec fn scheduled<P>(t: NativeTask<P>) -> Option<Seq<FrameId>> {
    match t {
        NativeTask::SequenceMap(x) => Some(x.children@),
        NativeTask::SequenceFilter(x) => Some(x.children@),
        NativeTask::SequenceFilterMap(x) => Some(x.children@),
        NativeTask::SequenceFlatMap(x) => Some(x.children@),
        NativeTask::DictMap(x) => Some(x.children@),
        _ => None,
    }
}

/// `b` is `a` with its scheduled children replaced by `children`.
pub open spec fn with_children<P>(a: NativeTask<P>, b: NativeTask<P>, children: Seq<FrameId>) -> bool {
    match (a, b) {
        (NativeTask::SequenceMap(x), NativeTask::SequenceMap(y)) => y.children@ == children && y.func == x.func
            && y.values == x.values && y.shape == x.shape && y.output@ == x.output@ && y.remaining == x.remaining,
        (NativeTask::SequenceFilter(x), NativeTask::SequenceFilter(y)) => y.children@ == children && y.func == x.func
            && y.values == x.values && y.shape == x.shape && y.keep@ == x.keep@ && y.remaining == x.remaining,
        (NativeTask::SequenceFilterMap(x), NativeTask::SequenceFilterMap(y)) => y.children@ == children && y.func == x.func
            && y.values == x.values && y.shape == x.shape && y.output@ == x.output@ && y.remaining == x.remaining,
        (NativeTask::SequenceFlatMap(x), NativeTask::SequenceFlatMap(y)) => y.children@ == children && y.func == x.func
            && y.values == x.values && y.shape == x.shape && y.output@ == x.output@ && y.remaining == x.remaining,
        (NativeTask::DictMap(x), NativeTask::DictMap(y)) => y.children@ == children && y.func == x.func
            && y.entries@ == x.entries@ && y.output@ == x.output@ && y.remaining == x.remaining,
        _ => false,
    }
}

impl<P: Copy> NativeTask<P> {
    /// Whether taking the next child result may allocate, so that the
    /// evaluator must protect the task's handles first.
    pub fn receive_may_allocate(&self) -> (b: bool)
        requires
            self matches NativeTask::Sum(x) ==> x.values.well_formed(),
        ensures
            b == may_allocate(*self),
    {
        match self {
            NativeTask::ApplyUnary(t) => t.receive_may_allocate(),
            NativeTask::SequenceMap(t) => t.receive_may_allocate(),
            NativeTask::SequenceFilter(t) => t.receive_may_allocate(),
            NativeTask::SequenceFilterMap(t) => t.receive_may_allocate(),
            NativeTask::SequenceFlatMap(t) => t.receive_may_allocate(),
            NativeTask::UnaryMap(t) => t.receive_may_allocate(),
            NativeTask::UnaryFilter(t) => t.receive_may_allocate(),
            NativeTask::UnaryFilterMap(t) => t.receive_may_allocate(),
            NativeTask::UnaryFlatMap(t) => t.receive_may_allocate(),
            NativeTask::Fold(t) => t.receive_may_allocate(),
            NativeTask::DictMap(t) => t.receive_may_allocate(),
            NativeTask::DictTraverse(t) => t.receive_may_allocate(),
            NativeTask::ArrayEq(t) => t.receive_may_allocate(),
            NativeTask::Sum(t) => t.receive_may_allocate(),
            NativeTask::Mean(t) => t.receive_may_allocate(),
        }
    }

    /// Records a scheduled child frame; only the kinds that schedule one
    /// child per element take one.
    pub fn push_scheduled_child(&mut self, child: FrameId) -> (res: Result<(), EngineError>)
        ensures
            match scheduled(*old(self)) {
                Some(c) => res is Ok && with_children(*old(self), *final(self), c.push(child)),
                None => res matches Err(e) && e == EngineError::Internal("native task does not accept scheduled children")
                    && *final(self) == *old(self),
            },
    {
        match self {
            NativeTask::SequenceMap(t) => {
                t.push_scheduled_child(child);
                Ok(())
            },
            NativeTask::SequenceFilter(t) => {
                t.push_scheduled_child(child);
                Ok(())
            },
            NativeTask::SequenceFilterMap(t) => {
                t.push_scheduled_child(child);
                Ok(())
            },
            NativeTask::SequenceFlatMap(t) => {
                t.push_scheduled_child(child);
                Ok(())
            },
            NativeTask::DictMap(t) => {
                t.push_scheduled_child(child);
                Ok(())
            },
            _ => Err(EngineError::Internal("native task does not accept scheduled children")),
        }
    }

    /// The child frames scheduled so far, in order.
    pub fn scheduled_children(&self) -> (res: Result<Vec<FrameId>, EngineError>)
        ensures
            match scheduled(*self) {
                Some(c) => res matches Ok(v) && v@ == c,
                None => res matches Err(e) && e == EngineError::Internal("native task does not have scheduled children"),
            },
    {
        match self {
            NativeTask::SequenceMap(t) => Ok(copy_frames(&t.children)),
            NativeTask::SequenceFilter(t) => Ok(copy_frames(&t.children)),
            NativeTask::SequenceFilterMap(t) => Ok(copy_frames(&t.children)),
            NativeTask::SequenceFlatMap(t) => Ok(copy_frames(&t.children)),
            NativeTask::DictMap(t) => Ok(copy_frames(&t.children)),
            _ => Err(EngineError::Internal("native task does not have scheduled children")),
        }
    }
}

/// A copy of the frame list `v`.
fn copy_frames(v: &Vec<FrameId>) -> (res: Vec<FrameId>)
    ensures
        res@ == v@,
{
    let mut res: Vec<FrameId> = Vec::new();
    let mut i: usize = 0;
    while i < v.len()
        invariant
            0 <= i <= v@.len(),
            res@ == v@.take(i as int),
        decreases v@.len() - i,
    {
        res.push(v[i]);
        i += 1;
        proof {
            assert(res@ =~= v@.take(i as int));
        }
    }
    proof {
        assert(v@.take(v@.len() as int) =~= v@);
    }
    res
}

} // verus!
