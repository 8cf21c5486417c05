//! How evaluation frames collect the results of their child frames.
//!
//! A frame that evaluates several children (a sequence, a record update, an
//! application) keeps one result slot per child and a count of the results
//! it still waits for. Each child delivers exactly one result; anything else
//! is an internal error.
//!
//! The evaluator that creates frames and steps them through their states is
//! not part of this library: it reads the typed syntax tree and the type
//! functions of the language's front end, crates that this library does not
//! depend on, and awaits native futures between its decisions.

use vstd::prelude::*;

use crate::error::{EngineError, FrameFault};
use crate::scheduler::FrameId;
use crate::text::{chars_of, string_from_chars};

verus! {

/// The first position of `child` in `children`, if it occurs.
pub open spec fn first_index(children: Seq<FrameId>, child: FrameId) -> Option<int> {
    if exists|i: int| 0 <= i < children.len() && children[i] == child {
        Some(choose|i: int| 0 <= i < children.len() && children[i] == child
            && forall|j: int| 0 <= j < i ==> children[j] != child)
    } else {
        None
    }
}

/// Whether `i` is the first position of `child` in `children`.
pub open spec fn is_first_index(children: Seq<FrameId>, child: FrameId, i: int) -> bool {
    &&& 0 <= i < children.len()
    &&& children[i] == child
    &&& forall|j: int| 0 <= j < i ==> children[j] != child
}

pub(crate) fn position(children: &[FrameId], child: FrameId) -> (res: Option<usize>)
    ensures
        match res {
            Some(i) => is_first_index(children@, child, i as int),
            None => forall|j: int| 0 <= j < children@.len() ==> children@[j] != child,
        },
{
    let mut i: usize = 0;
    while i < children.len()
        invariant
            0 <= i <= children@.len(),
            forall|j: int| 0 <= j < i ==> children@[j] != child,
        decreases children@.len() - i,
    {
        if children[i] == child {
            return Some(i);
        }
        i += 1;
    }
    None
}

/// The outcome of delivering `value` from `child` to a frame of kind `kind`
/// with the given children, slots and count of missing results: the new
/// slots and count, or the error.
pub open spec fn receive_outcome<P>(
    kind: &'static str,
    children: Seq<FrameId>,
    values: Seq<Option<P>>,
    remaining: usize,
    child: FrameId,
    value: P,
) -> (Seq<Option<P>>, usize, Option<EngineError>) {
    if forall|j: int| 0 <= j < children.len() ==> children[j] != child {
        (values, remaining, Some(EngineError::Frame { kind, fault: FrameFault::UnknownChild }))
    } else {
        let i = choose|i: int| is_first_index(children, child, i);
        if i < values.len() && values[i] is Some {
            (values, remaining, Some(EngineError::Frame { kind, fault: FrameFault::DuplicateResult }))
        } else if i >= values.len() {
            (values, remaining, Some(EngineError::Frame { kind, fault: FrameFault::SlotOutOfBounds }))
        } else if remaining == 0 {
            (values.update(i, Some(value)), remaining, Some(EngineError::Frame { kind, fault: FrameFault::ExcessResult }))
        } else {
            (values.update(i, Some(value)), (remaining - 1) as usize, None)
        }
    }
}

proof fn lemma_first_index_unique(children: Seq<FrameId>, child: FrameId, i: int, k: int)
    requires
        is_first_index(children, child, i),
        is_first_index(children, child, k),
    ensures
        i == k,
{
}

/// Stores the result `value` of `child` in its slot and counts it.
///
/// The slot is that of the child's first position among `children`. A child
/// that is not among them, a slot that is already filled or does not exist,
/// and a result beyond the expected count are errors; in the last case the
/// slot has been filled already.
pub fn receive_sequence_value<P: Copy>(
    kind: &'static str,
    children: &[FrameId],
    values: &mut Vec<Option<P>>,
    remaining: &mut usize,
    child: FrameId,
    value: P,
) -> (res: Result<(), EngineError>)
    ensures
        ({
            let (vs, rem, err) = receive_outcome(kind, children@, old(values)@, *old(remaining), child, value);
            &&& final(values)@ == vs
            &&& *final(remaining) == rem
            &&& match err {
                None => res is Ok,
                Some(e) => res matches Err(x) && x == e,
            }
        }),
{
    let index = match position(children, child) {
        Some(i) => i,
        None => return Err(EngineError::Frame { kind, fault: FrameFault::UnknownChild }),
    };
    proof {
        let i = choose|i: int| is_first_index(children@, child, i);
        lemma_first_index_unique(children@, child, i, index as int);
    }
    if index < values.len() && values[index].is_some() {
        return Err(EngineError::Frame { kind, fault: FrameFault::DuplicateResult });
    }
    if index >= values.len() {
        return Err(EngineError::Frame { kind, fault: FrameFault::SlotOutOfBounds });
    }
    values.set(index, Some(value));
    match remaining.checked_sub(1) {
        Some(r) => {
            *remaining = r;
            Ok(())
        },
        None => Err(EngineError::Frame { kind, fault: FrameFault::ExcessResult }),
    }
}

/// Whether every slot holds a result.
pub open spec fn all_filled<P>(values: Seq<Option<P>>) -> bool {
    forall|i: int| 0 <= i < values.len() ==> (#[trigger] values[i]) is Some
}

/// The results of a finished frame, in slot order; a missing result is an
/// error.
pub fn completed_values<P: Copy>(kind: &'static str, values: &[Option<P>]) -> (res: Result<Vec<P>, EngineError>)
    ensures
        match res {
            Ok(v) => all_filled(values@) && v@.len() == values@.len()
                && forall|i: int| 0 <= i < values@.len() ==> values@[i] == Some(#[trigger] v@[i]),
            Err(e) => !all_filled(values@) && e == (EngineError::Frame { kind, fault: FrameFault::MissingResult }),
        },
{
    let mut out: Vec<P> = Vec::new();
    let mut i: usize = 0;
    while i < values.len()
        invariant
            0 <= i <= values@.len(),
            out@.len() == i,
            forall|j: int| 0 <= j < i ==> values@[j] == Some(#[trigger] out@[j]),
        decreases values@.len() - i,
    {
        match values[i] {
            Some(v) => out.push(v),
            None => {
                proof {
                    assert(values@[i as int] is None);
                }
                return Err(EngineError::Frame { kind, fault: FrameFault::MissingResult });
            },
        }
        i += 1;
    }
    proof {
        assert forall|j: int| 0 <= j < values@.len() implies (#[trigger] values@[j]) is Some by {
            assert(values@[j] == Some(out@[j]));
        }
    }
    Ok(out)
}

/// Whether a sequence at `next_index` of `len` items goes on after the
/// current one; an index that cannot be advanced counts as going on.
pub fn receive_continues_sequence(next_index: usize, len: usize) -> (b: bool)
    ensures
        b == (next_index + 1 > usize::MAX || next_index + 1 < len),
{
    match next_index.checked_add(1) {
        Some(n) => n < len,
        None => true,
    }
}

/// The error for a frame whose kind does not match its expression.
pub fn frame_kind_error<T>(expected: &'static str) -> (res: Result<T, EngineError>)
    ensures
        res matches Err(e) && e == (EngineError::Frame { kind: expected, fault: FrameFault::KindMismatch }),
{
    Err(EngineError::Frame { kind: expected, fault: FrameFault::KindMismatch })
}

/// The error for a frame that received a child result it was not waiting for.
pub fn unexpected_child_result<T>(frame: &'static str) -> (res: Result<T, EngineError>)
    ensures
        res matches Err(e) && e == (EngineError::Frame { kind: frame, fault: FrameFault::UnexpectedChild }),
{
    Err(EngineError::Frame { kind: frame, fault: FrameFault::UnexpectedChild })
}

/// The result-collecting state of an application frame: its head child and
/// the function value it gives, its argument children and their values, and
/// the count of missing results.
#[derive(Debug)]
pub struct AppFrame<P> {
    pub head_child: Option<FrameId>,
    pub func: Option<P>,
    pub arg_children: Vec<FrameId>,
    pub arg_values: Vec<Option<P>>,
    pub remaining: usize,
}

/// The error of an application frame for the sequence error `e`: a
/// duplicate result or a missing slot is named after the argument child.
pub open spec fn argument_error(e: EngineError) -> EngineError {
    match e {
        EngineError::Frame { kind, fault: FrameFault::DuplicateResult } => EngineError::Frame {
            kind,
            fault: FrameFault::DuplicateArgument,
        },
        EngineError::Frame { kind, fault: FrameFault::SlotOutOfBounds } => EngineError::Frame {
            kind,
            fault: FrameFault::ArgumentSlotOutOfBounds,
        },
        other => other,
    }
}

/// Stores the result of a child of an application frame: the head child's
/// result becomes the function, an argument child's result fills its slot.
pub fn receive_app_child_value<P: Copy>(frame: &mut AppFrame<P>, child: FrameId, value: P) -> (res: Result<(), EngineError>)
    ensures
        final(frame).head_child == old(frame).head_child,
        final(frame).arg_children@ == old(frame).arg_children@,
        if old(frame).head_child == Some(child) {
            if old(frame).func is Some {
                res matches Err(e) && e == (EngineError::Frame { kind: "application", fault: FrameFault::DuplicateHead })
                    && final(frame).func == old(frame).func
                    && final(frame).arg_values@ == old(frame).arg_values@
                    && final(frame).remaining == old(frame).remaining
            } else {
                &&& final(frame).func == Some(value)
                &&& final(frame).arg_values@ == old(frame).arg_values@
                &&& if old(frame).remaining == 0 {
                    res matches Err(e) && e == (EngineError::Frame { kind: "application", fault: FrameFault::ExcessResult })
                        && final(frame).remaining == 0
                } else {
                    res is Ok && final(frame).remaining == old(frame).remaining - 1
                }
            }
        } else {
            let (vs, rem, err) = receive_outcome(
                "application",
                old(frame).arg_children@,
                old(frame).arg_values@,
                old(frame).remaining,
                child,
                value,
            );
            &&& final(frame).func == old(frame).func
            &&& final(frame).arg_values@ == vs
            &&& final(frame).remaining == rem
            &&& match err {
                None => res is Ok,
                Some(e) => res matches Err(x) && x == argument_error(e),
            }
        },
{
    let is_head = match frame.head_child {
        Some(h) => h == child,
        None => false,
    };
    if is_head {
        if frame.func.is_some() {
            return Err(EngineError::Frame { kind: "application", fault: FrameFault::DuplicateHead });
        }
        frame.func = Some(value);
        match frame.remaining.checked_sub(1) {
            Some(r) => {
                frame.remaining = r;
                Ok(())
            },
            None => Err(EngineError::Frame { kind: "application", fault: FrameFault::ExcessResult }),
        }
    } else {
        match receive_sequence_value(
            "application",
            frame.arg_children.as_slice(),
            &mut frame.arg_values,
            &mut frame.remaining,
            child,
            value,
        ) {
            Ok(()) => Ok(()),
            Err(EngineError::Frame { kind, fault: FrameFault::DuplicateResult }) => Err(EngineError::Frame {
                kind,
                fault: FrameFault::DuplicateArgument,
            }),
            Err(EngineError::Frame { kind, fault: FrameFault::SlotOutOfBounds }) => Err(EngineError::Frame {
                kind,
                fault: FrameFault::ArgumentSlotOutOfBounds,
            }),
            Err(e) => Err(e),
        }
    }
}

/// Sends a present value through `map`, keeping its error.
pub fn map_option_value<P, Q, E, F: Fn(P) -> Result<Q, E>>(value: Option<P>, map: &F) -> (res: Result<Option<Q>, E>)
    requires
        value matches Some(v) ==> map.requires((v,)),
    ensures
        match value {
            None => res matches Ok(None),
            Some(v) => match res {
                Ok(Some(q)) => map.ensures((v,), Ok(q)),
                Ok(None) => false,
                Err(e) => map.ensures((v,), Err(e)),
            },
        },
{
    match value {
        None => Ok(None),
        Some(v) => match map(v) {
            Ok(q) => Ok(Some(q)),
            Err(e) => Err(e),
        },
    }
}

/// Sends every present value through `map`, in order, stopping at the
/// first error.
pub fn map_option_values<P, Q, E, F: Fn(P) -> Result<Q, E>>(values: Vec<Option<P>>, map: &F) -> (res: Result<Vec<Option<Q>>, E>)
    requires
        forall|i: int| 0 <= i < values@.len() && (#[trigger] values@[i]) is Some ==> map.requires((values@[i]->Some_0,)),
    ensures
        match res {
            Ok(out) => out@.len() == values@.len() && forall|i: int| 0 <= i < values@.len() ==> match #[trigger] values@[i] {
                None => out@[i] is None,
                Some(v) => out@[i] matches Some(q) && map.ensures((v,), Ok(q)),
            },
            Err(e) => exists|i: int| 0 <= i < values@.len() && (#[trigger] values@[i]) is Some && map.ensures((values@[i]->Some_0,), Err(e))
                && forall|j: int| 0 <= j < i && (#[trigger] values@[j]) is Some ==> crate::lists::maps_ok(*map, values@[j]->Some_0),
        },
{
    let ghost vals = values@;
    let mut out: Vec<Option<Q>> = Vec::new();
    let ghost n = vals.len();
    // Reverse, so that popping visits the values in order.
    let mut pending = values;
    let mut rest: Vec<Option<P>> = Vec::new();
    while pending.len() > 0
        invariant
            pending@.len() + rest@.len() == n,
            vals.len() == n,
            forall|k: int| 0 <= k < pending@.len() ==> #[trigger] pending@[k] == vals[k],
            forall|k: int| 0 <= k < rest@.len() ==> #[trigger] rest@[k] == vals[n - 1 - k],
        decreases pending@.len(),
    {
        match pending.pop() {
            Some(v) => rest.push(v),
            None => {},
        }
    }
    while rest.len() > 0
        invariant
            vals.len() == n,
            vals == values@,
            rest@.len() + out@.len() == n,
            forall|k: int| 0 <= k < rest@.len() ==> rest@[k] == vals[n - 1 - k],
            forall|i: int| 0 <= i < n && (#[trigger] vals[i]) is Some ==> map.requires((vals[i]->Some_0,)),
            forall|i: int| 0 <= i < out@.len() ==> match #[trigger] vals[i] {
                None => out@[i] is None,
                Some(v) => out@[i] matches Some(q) && map.ensures((v,), Ok(q)),
            },
        decreases rest@.len(),
    {
        let ghost i = out@.len() as int;
        let item = match rest.pop() {
            Some(x) => x,
            None => {
                return Ok(out);
            },
        };
        proof {
            assert(item == vals[i]);
        }
        match map_option_value(item, map) {
            Ok(q) => {
                out.push(q);
                proof {

                }
            },
            Err(e) => {
                proof {
                    assert(vals[i] is Some && map.ensures((vals[i]->Some_0,), Err(e)));
                    assert(vals == values@);
                    assert(0 <= i < values@.len());
                    assert forall|j: int| 0 <= j < i && (#[trigger] vals[j]) is Some implies crate::lists::maps_ok(*map, vals[j]->Some_0) by {
                        let q = out@[j]->Some_0;
                        assert(map.ensures((vals[j]->Some_0,), Ok(q)));
                    }
                }
                return Err(e);
            },
        }
    }
    Ok(out)
}

/// The message of the frame fault `fault` of a frame of kind `kind`.
pub open spec fn fault_text(kind: Seq<char>, fault: FrameFault) -> Seq<char> {
    match fault {
        FrameFault::UnknownChild => kind + " received result from unknown child"@,
        FrameFault::DuplicateResult => kind + " received duplicate result from child"@,
        FrameFault::DuplicateHead => kind + " received duplicate result from head child"@,
        FrameFault::DuplicateArgument => kind + " received duplicate result from argument child"@,
        FrameFault::ArgumentSlotOutOfBounds => kind + " argument result slot index out of bounds"@,
        FrameFault::SlotOutOfBounds => kind + " result slot index out of bounds"@,
        FrameFault::ExcessResult => kind + " received more results than expected"@,
        FrameFault::MissingResult => kind + " completed with missing result"@,
        FrameFault::UnexpectedChild => kind + " frame received an unexpected child result"@,
        FrameFault::KindMismatch => "frame does not match typed expression kind `"@ + kind + "`"@,
    }
}

/// The message of a frame fault.
pub fn fault_message(kind: &str, fault: FrameFault) -> (s: String)
    ensures
        s@ == fault_text(kind@, fault),
{
    let mut out: Vec<char> = Vec::new();
    match fault {
        FrameFault::KindMismatch => {
            let mut head = chars_of("frame does not match typed expression kind `");
            out.append(&mut head);
            let mut k = chars_of(kind);
            out.append(&mut k);
            out.push('`');
            proof {
                reveal_strlit("`");
                assert(out@ =~= fault_text(kind@, fault));
            }
            return string_from_chars(&out);
        },
        _ => {
            let mut k = chars_of(kind);
            out.append(&mut k);
        },
    }
    match fault {
        FrameFault::UnknownChild => {
            let mut tail = chars_of(" received result from unknown child");
            out.append(&mut tail);
        },
        FrameFault::DuplicateResult => {
            let mut tail = chars_of(" received duplicate result from child");
            out.append(&mut tail);
        },
        FrameFault::DuplicateHead => {
            let mut tail = chars_of(" received duplicate result from head child");
            out.append(&mut tail);
        },
        FrameFault::DuplicateArgument => {
            let mut tail = chars_of(" received duplicate result from argument child");
            out.append(&mut tail);
        },
        FrameFault::ArgumentSlotOutOfBounds => {
            let mut tail = chars_of(" argument result slot index out of bounds");
            out.append(&mut tail);
        },
        FrameFault::SlotOutOfBounds => {
            let mut tail = chars_of(" result slot index out of bounds");
            out.append(&mut tail);
        },
        FrameFault::ExcessResult => {
            let mut tail = chars_of(" received more results than expected");
            out.append(&mut tail);
        },
        FrameFault::MissingResult => {
            let mut tail = chars_of(" completed with missing result");
            out.append(&mut tail);
        },
        FrameFault::UnexpectedChild => {
            let mut tail = chars_of(" frame received an unexpected child result");
            out.append(&mut tail);
        },
        FrameFault::KindMismatch => {},
    }
    proof {
        assert(out@ =~= fault_text(kind@, fault));
    }
    string_from_chars(&out)
}

} // verus!
