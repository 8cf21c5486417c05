//! Reading an owned value out of the heap, guided by the type that the value
//! is expected to have.
//!
//! The reader keeps its own stack of pending work instead of recursing, so
//! that deeply nested values do not use the call stack: converting an object
//! either gives a value at once, fails, or pushes the conversion of each of
//! its parts followed by a step that assembles them.

use vstd::prelude::*;

use crate::cell::{dict_view, type_name_of, Cell, CellView, DictEntry, InternalPtr, RootedPtr};
use crate::conv_types::{
    decompose, decompose_type_app, digits, is_u8_type, lemma_tys_view, push_decimal, resolve, resolve_adt_variant, table_view, tys_view,
    type_chars, type_text, ty_view, u8_name, ConvType, TyV, TypeTable,
};
use crate::error::EngineError;
use crate::natives::same_text;
use crate::text::{chars_of, string_from_chars};
use crate::dicts::{dict_get, dict_insert_field, dict_of};
use crate::types::ranked;
use crate::heap::Heap;
use crate::lists::{bytes_of, lemma_list_walk, lemma_walk_valid, list_elements_from_cell, list_walk, spine_ends, walk, ListElement, ListWalk};
use crate::value::{concat_segments, conversion_error, local_name, local_name_spec, take_root_tail, ConversionPath, Value};

verus! {

/// The mathematical form of an owned value.
pub enum ValueV {
    Bool(bool),
    U8(u8),
    U16(u16),
    U32(u32),
    U64(u64),
    I8(i8),
    I16(i16),
    I32(i32),
    I64(i64),
    F32(u32),
    F64(u64),
    Char(char),
    String(Seq<char>),
    Uuid(u128),
    Hash(Seq<u8>),
    DateTime(i64, u32),
    Tuple(Seq<ValueV>),
    List(Seq<ValueV>),
    Bytes(Seq<u8>),
    Dict(Seq<(Seq<char>, ValueV)>),
    Adt(Seq<char>, Seq<ValueV>),
}

/// The mathematical form of `v`.
pub open spec fn value_view(v: Value) -> ValueV
    decreases v,
{
    match v {
        Value::Bool(x) => ValueV::Bool(x),
        Value::U8(x) => ValueV::U8(x),
        Value::U16(x) => ValueV::U16(x),
        Value::U32(x) => ValueV::U32(x),
        Value::U64(x) => ValueV::U64(x),
        Value::I8(x) => ValueV::I8(x),
        Value::I16(x) => ValueV::I16(x),
        Value::I32(x) => ValueV::I32(x),
        Value::I64(x) => ValueV::I64(x),
        Value::F32(x) => ValueV::F32(x),
        Value::F64(x) => ValueV::F64(x),
        Value::Char(x) => ValueV::Char(x),
        Value::String(s) => ValueV::String(s@),
        Value::Uuid(x) => ValueV::Uuid(x),
        Value::Hash(h) => ValueV::Hash(h@),
        Value::DateTime { secs, nanos } => ValueV::DateTime(secs, nanos),
        Value::Tuple(xs) => ValueV::Tuple(values_view(xs@)),
        Value::List(xs) => ValueV::List(values_view(xs@)),
        Value::Bytes(b) => ValueV::Bytes(b@),
        Value::Dict(d) => ValueV::Dict(entries_view(d@)),
        Value::Adt(n, xs) => ValueV::Adt(n@, values_view(xs@)),
    }
}

/// The mathematical forms of `s`, in order.
pub open spec fn values_view(s: Seq<Value>) -> Seq<ValueV>
    decreases s,
{
    if s.len() == 0 {
        Seq::empty()
    } else {
        seq![value_view(s[0])] + values_view(s.drop_first())
    }
}

/// The mathematical forms of the fields `s`, in order.
pub open spec fn entries_view(s: Seq<(String, Value)>) -> Seq<(Seq<char>, ValueV)>
    decreases s,
{
    if s.len() == 0 {
        Seq::empty()
    } else {
        seq![(s[0].0@, value_view(s[0].1))] + entries_view(s.drop_first())
    }
}

pub proof fn lemma_values_view(s: Seq<Value>)
    ensures
        values_view(s).len() == s.len(),
        forall|i: int| 0 <= i < s.len() ==> #[trigger] values_view(s)[i] == value_view(s[i]),
    decreases s.len(),
{
    if s.len() > 0 {
        lemma_values_view(s.drop_first());
        assert forall|i: int| 0 <= i < s.len() implies #[trigger] values_view(s)[i] == value_view(s[i]) by {
            if i > 0 {
                assert(values_view(s)[i] == values_view(s.drop_first())[i - 1]);
            }
        }
    }
}

pub proof fn lemma_entries_view(s: Seq<(String, Value)>)
    ensures
        entries_view(s).len() == s.len(),
        forall|i: int| 0 <= i < s.len() ==> #[trigger] entries_view(s)[i] == (s[i].0@, value_view(s[i].1)),
    decreases s.len(),
{
    if s.len() > 0 {
        lemma_entries_view(s.drop_first());
        assert forall|i: int| 0 <= i < s.len() implies #[trigger] entries_view(s)[i] == (s[i].0@, value_view(s[i].1)) by {
            if i > 0 {
                assert(entries_view(s)[i] == entries_view(s.drop_first())[i - 1]);
            }
        }
    }
}

/// The object that a list element stands for.
pub open spec fn elem_cell(h: Heap, e: ListElement) -> CellView {
    match e {
        ListElement::InternalPtr(p) => h.cell_at(p),
        ListElement::U8(x) => CellView::U8(x),
    }
}

/// An element names a live object, or is a byte.
pub open spec fn elem_valid(h: Heap, e: ListElement) -> bool {
    match e {
        ListElement::InternalPtr(p) => h.valid_ptr(p),
        ListElement::U8(_) => true,
    }
}

/// The value of a scalar type named `name` that the object `c` holds, if it
/// holds one.
pub open spec fn scalar_of(name: Seq<char>, c: CellView) -> Option<ValueV> {
    if name == "Bool"@ {
        match c { CellView::Bool(x) => Some(ValueV::Bool(x)), _ => None }
    } else if name == "u8"@ {
        match c { CellView::U8(x) => Some(ValueV::U8(x)), _ => None }
    } else if name == "u16"@ {
        match c { CellView::U16(x) => Some(ValueV::U16(x)), _ => None }
    } else if name == "u32"@ {
        match c { CellView::U32(x) => Some(ValueV::U32(x)), _ => None }
    } else if name == "u64"@ {
        match c { CellView::U64(x) => Some(ValueV::U64(x)), _ => None }
    } else if name == "i8"@ {
        match c { CellView::I8(x) => Some(ValueV::I8(x)), _ => None }
    } else if name == "i16"@ {
        match c { CellView::I16(x) => Some(ValueV::I16(x)), _ => None }
    } else if name == "i32"@ {
        match c { CellView::I32(x) => Some(ValueV::I32(x)), _ => None }
    } else if name == "i64"@ {
        match c { CellView::I64(x) => Some(ValueV::I64(x)), _ => None }
    } else if name == "f32"@ {
        match c { CellView::F32(x) => Some(ValueV::F32(x)), _ => None }
    } else if name == "f64"@ {
        match c { CellView::F64(x) => Some(ValueV::F64(x)), _ => None }
    } else if name == "String"@ {
        match c { CellView::String(s) => Some(ValueV::String(s)), _ => None }
    } else if name == "UUID"@ {
        match c { CellView::Uuid(x) => Some(ValueV::Uuid(x)), _ => None }
    } else if name == "Hash"@ {
        match c { CellView::Hash(x) => Some(ValueV::Hash(x)), _ => None }
    } else if name == "DateTime"@ {
        match c { CellView::DateTime(s, n) => Some(ValueV::DateTime(s, n)), _ => None }
    } else {
        None
    }
}

/// The names of the scalar types; `Char` among them, which no heap object
/// holds.
pub open spec fn is_scalar_name(name: Seq<char>) -> bool {
    name == "Bool"@ || name == "u8"@ || name == "u16"@ || name == "u32"@ || name == "u64"@ || name == "i8"@
        || name == "i16"@ || name == "i32"@ || name == "i64"@ || name == "f32"@ || name == "f64"@ || name == "Char"@
        || name == "String"@ || name == "UUID"@ || name == "Hash"@ || name == "DateTime"@
}

/// How the parts of an object are put back together.
pub enum Assemble {
    Tuple,
    List,
    Dict(Seq<Seq<char>>),
    Adt(Seq<char>),
}

/// A part still to convert: the object, its expected type, and where it
/// stands.
pub type Part = (ListElement, TyV, Seq<Seq<char>>);

/// What converting one object does before looking at its parts.
pub enum Step {
    /// The value, at once.
    Value(ValueV),
    /// A failure at a path: the expected text and the text of what was found.
    Error(Seq<Seq<char>>, Seq<char>, Seq<char>),
    /// Convert these parts in order, then assemble them.
    Expand(Assemble, Seq<Part>),
    /// The object is a list whose spine never ends.
    Stuck,
}

/// The path segment `[i]`.
pub open spec fn index_segment(i: nat) -> Seq<char> {
    seq!['['] + digits(i) + seq![']']
}

/// The path segment `.name`.
pub open spec fn field_segment(name: Seq<char>) -> Seq<char> {
    seq!['.'] + name
}

/// The index of the last field of `fs` that `es` lacks.
pub open spec fn last_missing(es: Seq<(Seq<char>, InternalPtr)>, fs: Seq<(Seq<char>, TyV)>) -> Option<int>
    decreases fs.len(),
{
    if fs.len() == 0 {
        None
    } else if dict_get(es, fs.last().0) is None {
        Some(fs.len() - 1)
    } else {
        last_missing(es, fs.drop_last())
    }
}

/// The first step of converting the object `e` to the type `t` at `path`.
pub open spec fn step(h: Heap, e: ListElement, t: TyV, path: Seq<Seq<char>>, tab: Seq<crate::conv_types::AdtV>) -> Step {
    let c = elem_cell(h, e);
    let found = type_name_of(c)@;
    let expected = type_text(t);
    match t {
        TyV::Var(_) => Step::Error(path, expected, "unresolved type variable"@),
        TyV::Fun(_, _) => Step::Error(path, expected, found),
        TyV::Tuple(ts) => match c {
            CellView::Tuple(ps) => if ps.len() != ts.len() {
                Step::Error(path, expected, "tuple with "@ + digits(ps.len()) + " items"@)
            } else {
                Step::Expand(
                    Assemble::Tuple,
                    Seq::new(ps.len(), |i: int| (ListElement::InternalPtr(ps[i]), ts[i], path.push(index_segment(i as nat)))),
                )
            },
            _ => Step::Error(path, expected, found),
        },
        TyV::Record(fs) => match c {
            CellView::Dict(es) => if es.len() != fs.len() {
                Step::Error(path, expected, "record with "@ + digits(es.len()) + " fields"@)
            } else {
                match last_missing(es, fs) {
                    Some(k) => Step::Error(path.push(field_segment(fs[k].0)), type_text(fs[k].1), "missing field"@),
                    None => Step::Expand(
                        Assemble::Dict(fs.map_values(|f: (Seq<char>, TyV)| f.0)),
                        Seq::new(
                            fs.len(),
                            |i: int| (ListElement::InternalPtr(dict_get(es, fs[i].0).unwrap()), fs[i].1, path.push(field_segment(fs[i].0))),
                        ),
                    ),
                }
            },
            _ => Step::Error(path, expected, found),
        },
        _ => {
            let (head, args) = decompose(t);
            match head {
                TyV::Con(name) => named_step(h, e, c, name, args, expected, path, tab),
                _ => Step::Error(path, expected, found),
            }
        },
    }
}

/// The first step of converting the object `c` to the constructor `name`
/// applied to `args`.
pub open spec fn named_step(
    h: Heap,
    e: ListElement,
    c: CellView,
    name: Seq<char>,
    args: Seq<TyV>,
    expected: Seq<char>,
    path: Seq<Seq<char>>,
    tab: Seq<crate::conv_types::AdtV>,
) -> Step {
    let found = type_name_of(c)@;
    if args.len() == 0 && is_scalar_name(name) {
        match scalar_of(name, c) {
            Some(v) => Step::Value(v),
            None => Step::Error(path, expected, found),
        }
    } else if name == "List"@ && args.len() == 1 && args[0] == TyV::Con(u8_name()) {
        if !spine_ends(h, c) {
            Step::Stuck
        } else {
            match list_walk(h, c) {
                ListWalk::Done(s) => if s.len() <= usize::MAX && bytes_of(h, s) is Ok {
                    Step::Value(ValueV::Bytes(bytes_of(h, s)->Ok_0))
                } else {
                    Step::Error(path, expected, found)
                },
                _ => Step::Error(path, expected, found),
            }
        }
    } else if name == "List"@ && args.len() == 1 {
        if !spine_ends(h, c) {
            Step::Stuck
        } else {
            match list_walk(h, c) {
                ListWalk::Done(s) => Step::Expand(
                    Assemble::List,
                    Seq::new(s.len(), |i: int| (s[i], args[0], path.push(index_segment(i as nat)))),
                ),
                _ => Step::Error(path, expected, found),
            }
        }
    } else if name == "Dict"@ && args.len() == 1 {
        match c {
            CellView::Dict(es) => Step::Expand(
                Assemble::Dict(es.map_values(|x: (Seq<char>, InternalPtr)| x.0)),
                Seq::new(es.len(), |i: int| (ListElement::InternalPtr(es[i].1), args[0], path.push(field_segment(es[i].0)))),
            ),
            _ => Step::Error(path, expected, found),
        }
    } else {
        match c {
            CellView::Adt(tag, ps) => match resolve(tab, name, args, tag) {
                Err(g) => Step::Error(path, name, g),
                Ok(r) => if ps.len() != r.1.len() {
                    Step::Error(path, expected, "constructor "@ + tag + " with "@ + digits(ps.len()) + " fields"@)
                } else {
                    let local = local_name_spec(r.0);
                    Step::Expand(
                        Assemble::Adt(local),
                        Seq::new(
                            ps.len(),
                            |i: int| (ListElement::InternalPtr(ps[i]), r.1[i], path.push(field_segment(local) + index_segment(i as nat))),
                        ),
                    )
                },
            },
            _ => Step::Error(path, expected, found),
        }
    }
}

/// The value that assembling the converted parts `vs` gives.
pub open spec fn assemble(k: Assemble, vs: Seq<ValueV>) -> ValueV {
    match k {
        Assemble::Tuple => ValueV::Tuple(vs),
        Assemble::List => ValueV::List(vs),
        Assemble::Dict(names) => ValueV::Dict(dict_of(Seq::new(vs.len(), |i: int| (names[i], vs[i])))),
        Assemble::Adt(tag) => ValueV::Adt(tag, vs),
    }
}

/// The outcome of a conversion.
pub enum Export {
    Done(ValueV),
    /// Failed at a path, with the expected text and the text of what was
    /// found.
    Fail(Seq<Seq<char>>, Seq<char>, Seq<char>),
    /// Not finished within the fuel.
    Diverges,
}

/// The outcome of converting parts in order.
pub enum ExportAll {
    Done(Seq<ValueV>),
    Fail(Seq<Seq<char>>, Seq<char>, Seq<char>),
    Diverges,
}

/// Converting the object `e` to the type `t` at `path`, nesting at most
/// `fuel` deep.
pub open spec fn export_at(h: Heap, e: ListElement, t: TyV, path: Seq<Seq<char>>, tab: Seq<crate::conv_types::AdtV>, fuel: nat) -> Export
    decreases fuel, 0nat,
{
    if fuel == 0 {
        Export::Diverges
    } else {
        match step(h, e, t, path, tab) {
            Step::Value(v) => Export::Done(v),
            Step::Error(p, x, g) => Export::Fail(p, x, g),
            Step::Stuck => Export::Diverges,
            Step::Expand(k, parts) => match export_all(h, parts, tab, (fuel - 1) as nat) {
                ExportAll::Done(vs) => Export::Done(assemble(k, vs)),
                ExportAll::Fail(p, x, g) => Export::Fail(p, x, g),
                ExportAll::Diverges => Export::Diverges,
            },
        }
    }
}

/// Converting `parts` in order, stopping at the first that fails.
pub open spec fn export_all(h: Heap, parts: Seq<Part>, tab: Seq<crate::conv_types::AdtV>, fuel: nat) -> ExportAll
    decreases fuel, parts.len() + 1,
{
    if parts.len() == 0 {
        ExportAll::Done(Seq::empty())
    } else {
        match export_at(h, parts[0].0, parts[0].1, parts[0].2, tab, fuel) {
            Export::Done(v) => match export_all(h, parts.drop_first(), tab, fuel) {
                ExportAll::Done(vs) => ExportAll::Done(seq![v] + vs),
                other => other,
            },
            Export::Fail(p, x, g) => ExportAll::Fail(p, x, g),
            Export::Diverges => ExportAll::Diverges,
        }
    }
}


/// A conversion has an outcome within finite nesting.
pub open spec fn export_ends(h: Heap, e: ListElement, t: TyV, tab: Seq<crate::conv_types::AdtV>) -> bool {
    exists|n: nat| !(#[trigger] export_at(h, e, t, Seq::empty(), tab, n) is Diverges)
}

/// The outcome of converting the object `e` to the type `t`.
pub open spec fn exported(h: Heap, e: ListElement, t: TyV, tab: Seq<crate::conv_types::AdtV>) -> Export {
    export_at(h, e, t, Seq::empty(), tab, choose|n: nat| !(#[trigger] export_at(h, e, t, Seq::empty(), tab, n) is Diverges))
}

/// Whether `e` is the conversion error at the path `p` with the expected
/// text `x` and the found text `g`.
pub open spec fn is_conversion_error(e: EngineError, p: Seq<Seq<char>>, x: Seq<char>, g: Seq<char>) -> bool {
    e matches EngineError::ValueConversion { path, expected, got } && path@ == seq!['$'] + concat_segments(p)
        && expected@ == x && got@ == g
}

/// An item of pending work: a part to convert (with the nesting it may
/// still use), or the assembly of the last `n` values.
pub enum WorkV {
    Convert(Part, nat),
    Assemble(Assemble, nat),
}

/// What doing the work `w` from its last item down does to the values
/// `vals`.
pub enum Run {
    Values(Seq<ValueV>),
    Fail(Seq<Seq<char>>, Seq<char>, Seq<char>),
    Stuck,
}

pub open spec fn run(h: Heap, tab: Seq<crate::conv_types::AdtV>, w: Seq<WorkV>, vals: Seq<ValueV>) -> Run
    decreases w.len(),
{
    if w.len() == 0 {
        Run::Values(vals)
    } else {
        let rest = w.drop_last();
        match w.last() {
            WorkV::Convert(p, f) => match export_at(h, p.0, p.1, p.2, tab, f) {
                Export::Done(v) => run(h, tab, rest, vals.push(v)),
                Export::Fail(a, b, c) => Run::Fail(a, b, c),
                Export::Diverges => Run::Stuck,
            },
            WorkV::Assemble(k, n) => if vals.len() < n {
                Run::Stuck
            } else {
                run(h, tab, rest, vals.take(vals.len() - n).push(assemble(k, vals.skip(vals.len() - n))))
            },
        }
    }
}

/// The conversions of `parts` as pushed onto the work: the first part last,
/// so that it is done first.
pub open spec fn pushed(parts: Seq<Part>, f: nat) -> Seq<WorkV> {
    Seq::new(parts.len(), |j: int| WorkV::Convert(parts[parts.len() - 1 - j], f))
}

/// How many steps converting a part takes at most.
pub open spec fn cost(h: Heap, p: Part, tab: Seq<crate::conv_types::AdtV>, f: nat) -> nat
    decreases f, 0nat,
{
    if f == 0 {
        1
    } else {
        match step(h, p.0, p.1, p.2, tab) {
            Step::Expand(_, parts) => 2 + cost_all(h, parts, tab, (f - 1) as nat),
            _ => 1,
        }
    }
}

pub open spec fn cost_all(h: Heap, parts: Seq<Part>, tab: Seq<crate::conv_types::AdtV>, f: nat) -> nat
    decreases f, parts.len() + 1,
{
    if parts.len() == 0 {
        0
    } else {
        cost(h, parts[0], tab, f) + cost_all(h, parts.drop_first(), tab, f)
    }
}

/// How many steps the work `w` takes at most.
pub open spec fn work_cost(h: Heap, tab: Seq<crate::conv_types::AdtV>, w: Seq<WorkV>) -> nat
    decreases w.len(),
{
    if w.len() == 0 {
        0
    } else {
        work_cost(h, tab, w.drop_last()) + match w.last() {
            WorkV::Convert(p, f) => cost(h, p, tab, f),
            WorkV::Assemble(_, _) => 1,
        }
    }
}

proof fn lemma_pushed_split(parts: Seq<Part>, f: nat)
    requires
        parts.len() > 0,
    ensures
        pushed(parts, f) == pushed(parts.drop_first(), f).push(WorkV::Convert(parts[0], f)),
{
    assert(pushed(parts, f) =~= pushed(parts.drop_first(), f).push(WorkV::Convert(parts[0], f)));
}

/// Doing the pushed conversions of `parts` converts them in order and puts
/// their values after `vals`.
proof fn lemma_run_pushed(h: Heap, tab: Seq<crate::conv_types::AdtV>, x: Seq<WorkV>, parts: Seq<Part>, f: nat, vals: Seq<ValueV>)
    ensures
        run(h, tab, x + pushed(parts, f), vals) == match export_all(h, parts, tab, f) {
            ExportAll::Done(vs) => run(h, tab, x, vals + vs),
            ExportAll::Fail(a, b, c) => Run::Fail(a, b, c),
            ExportAll::Diverges => Run::Stuck,
        },
    decreases parts.len(),
{
    if parts.len() == 0 {
        assert(x + pushed(parts, f) =~= x);
        assert(vals + Seq::<ValueV>::empty() =~= vals);
    } else {
        lemma_pushed_split(parts, f);
        let w = x + pushed(parts, f);
        assert(w.drop_last() =~= x + pushed(parts.drop_first(), f));
        assert(w.last() == WorkV::Convert(parts[0], f));
        match export_at(h, parts[0].0, parts[0].1, parts[0].2, tab, f) {
            Export::Done(v) => {
                lemma_run_pushed(h, tab, x, parts.drop_first(), f, vals.push(v));
                match export_all(h, parts.drop_first(), tab, f) {
                    ExportAll::Done(vs) => {
                        assert(vals.push(v) + vs =~= vals + (seq![v] + vs));
                    },
                    _ => {},
                }
            },
            _ => {},
        }
    }
}

/// The work of the pushed conversions of `parts` is their cost.
proof fn lemma_cost_pushed(h: Heap, tab: Seq<crate::conv_types::AdtV>, x: Seq<WorkV>, parts: Seq<Part>, f: nat)
    ensures
        work_cost(h, tab, x + pushed(parts, f)) == work_cost(h, tab, x) + cost_all(h, parts, tab, f),
    decreases parts.len(),
{
    if parts.len() == 0 {
        assert(x + pushed(parts, f) =~= x);
    } else {
        lemma_pushed_split(parts, f);
        let w = x + pushed(parts, f);
        assert(w.drop_last() =~= x + pushed(parts.drop_first(), f));
        lemma_cost_pushed(h, tab, x, parts.drop_first(), f);
    }
}

/// Converting parts gives one value per part.
proof fn lemma_export_all_len(h: Heap, parts: Seq<Part>, tab: Seq<crate::conv_types::AdtV>, f: nat)
    ensures
        export_all(h, parts, tab, f) matches ExportAll::Done(vs) ==> vs.len() == parts.len(),
    decreases parts.len(),
{
    if parts.len() > 0 {
        lemma_export_all_len(h, parts.drop_first(), tab, f);
    }
}


/// Whether `name` is the name of a scalar type.
fn scalar_name(name: &str) -> (b: bool)
    ensures
        b == is_scalar_name(name@),
{
    same_text(name, "Bool") || same_text(name, "u8") || same_text(name, "u16") || same_text(name, "u32")
        || same_text(name, "u64") || same_text(name, "i8") || same_text(name, "i16") || same_text(name, "i32")
        || same_text(name, "i64") || same_text(name, "f32") || same_text(name, "f64") || same_text(name, "Char")
        || same_text(name, "String") || same_text(name, "UUID") || same_text(name, "Hash") || same_text(name, "DateTime")
}

/// The value of the scalar type `name` that `cell` holds, if it holds one.
fn scalar_value(name: &str, cell: &Cell) -> (r: Option<Value>)
    ensures
        match scalar_of(name@, cell@) {
            Some(v) => r matches Some(x) && value_view(x) == v,
            None => r is None,
        },
{
    if same_text(name, "Bool") {
        match cell { Cell::Bool(x) => Some(Value::Bool(*x)), _ => None }
    } else if same_text(name, "u8") {
        match cell { Cell::U8(x) => Some(Value::U8(*x)), _ => None }
    } else if same_text(name, "u16") {
        match cell { Cell::U16(x) => Some(Value::U16(*x)), _ => None }
    } else if same_text(name, "u32") {
        match cell { Cell::U32(x) => Some(Value::U32(*x)), _ => None }
    } else if same_text(name, "u64") {
        match cell { Cell::U64(x) => Some(Value::U64(*x)), _ => None }
    } else if same_text(name, "i8") {
        match cell { Cell::I8(x) => Some(Value::I8(*x)), _ => None }
    } else if same_text(name, "i16") {
        match cell { Cell::I16(x) => Some(Value::I16(*x)), _ => None }
    } else if same_text(name, "i32") {
        match cell { Cell::I32(x) => Some(Value::I32(*x)), _ => None }
    } else if same_text(name, "i64") {
        match cell { Cell::I64(x) => Some(Value::I64(*x)), _ => None }
    } else if same_text(name, "f32") {
        match cell { Cell::F32(x) => Some(Value::F32(*x)), _ => None }
    } else if same_text(name, "f64") {
        match cell { Cell::F64(x) => Some(Value::F64(*x)), _ => None }
    } else if same_text(name, "String") {
        match cell { Cell::String(x) => Some(Value::String(x.clone())), _ => None }
    } else if same_text(name, "UUID") {
        match cell { Cell::Uuid(x) => Some(Value::Uuid(*x)), _ => None }
    } else if same_text(name, "Hash") {
        match cell { Cell::Hash(x) => Some(Value::Hash(*x)), _ => None }
    } else if same_text(name, "DateTime") {
        match cell { Cell::DateTime(a, b) => Some(Value::DateTime { secs: *a, nanos: *b }), _ => None }
    } else {
        None
    }
}

/// The index of the first entry of `es` named `k`.
fn entry_index(es: &Vec<DictEntry>, k: &str) -> (r: Option<usize>)
    ensures
        match r {
            Some(i) => i < es@.len() && es@[i as int].key@ == k@ && dict_get(dict_view(es@), k@) == Some(es@[i as int].value),
            None => dict_get(dict_view(es@), k@) is None,
        },
{
    let ghost d = dict_view(es@);
    let mut i: usize = 0;
    while i < es.len()
        invariant
            0 <= i <= es@.len(),
            d == dict_view(es@),
            forall|j: int| 0 <= j < i ==> (#[trigger] d[j]).0 != k@,
        decreases es@.len() - i,
    {
        proof {
            assert(d[i as int] == (es@[i as int].key@, es@[i as int].value));
        }
        if same_text(es[i].key.as_str(), k) {
            proof {
                crate::exports::lemma_get_first(d, k@, i as int);
            }
            return Some(i);
        }
        i += 1;
    }
    proof {
        crate::exports::lemma_get_absent(d, k@);
    }
    None
}

/// The path segment `[i]` as text.
pub(crate) fn index_text(i: usize) -> (s: String)
    ensures
        s@ == index_segment(i as nat),
{
    let mut out: Vec<char> = vec!['['];
    push_decimal(&mut out, i as u64);
    out.push(']');
    proof {
        assert(out@ =~= index_segment(i as nat));
    }
    string_from_chars(&out)
}

/// The path segment `.name` as text.
pub(crate) fn field_text(name: &str) -> (s: String)
    ensures
        s@ == field_segment(name@),
{
    let mut out: Vec<char> = vec!['.'];
    let mut rest = chars_of(name);
    out.append(&mut rest);
    proof {
        assert(out@ =~= field_segment(name@));
    }
    string_from_chars(&out)
}

/// The conversion error at `path` with the given expected and found texts.
pub(crate) fn failure(path: &ConversionPath, expected: Vec<char>, got: Vec<char>) -> (e: EngineError)
    ensures
        is_conversion_error(e, path@, expected@, got@),
{
    conversion_error(path.to_string(), string_from_chars(&expected), string_from_chars(&got))
}

/// The bytes that the list elements `s` stand for, or `None` where one of
/// them is not a byte.
fn elements_bytes(heap: &Heap, s: &Vec<ListElement>) -> (r: Option<Vec<u8>>)
    requires
        heap.wf(),
        forall|k: int| 0 <= k < s@.len() && (#[trigger] s@[k]) is InternalPtr ==> heap.valid_ptr(s@[k]->InternalPtr_0),
    ensures
        match bytes_of(*heap, s@) {
            Ok(b) => r matches Some(v) && v@ == b,
            Err(_) => r is None,
        },
{
    let mut out: Vec<u8> = Vec::new();
    let mut i: usize = 0;
    while i < s.len()
        invariant
            0 <= i <= s@.len(),
            heap.wf(),
            forall|k: int| 0 <= k < s@.len() && (#[trigger] s@[k]) is InternalPtr ==> heap.valid_ptr(s@[k]->InternalPtr_0),
            bytes_of(*heap, s@.take(i as int)) == Ok::<Seq<u8>, EngineError>(out@),
        decreases s@.len() - i,
    {
        proof {
            assert(s@.take(i + 1).drop_last() =~= s@.take(i as int));
            assert(s@.take(i + 1).last() == s@[i as int]);
        }
        match s[i] {
            ListElement::U8(x) => out.push(x),
            ListElement::InternalPtr(p) => {
                match heap.get_cell_from_pointer(&p) {
                    Ok(Cell::U8(x)) => out.push(*x),
                    _ => {
                        proof {
                            lemma_bytes_error_from(*heap, s@, i as int);
                        }
                        return None;
                    },
                }
            },
        }
        i += 1;
    }
    proof {
        assert(s@.take(s@.len() as int) =~= s@);
    }
    Some(out)
}

/// Once a prefix of the elements fails to be bytes, all of them do.
proof fn lemma_bytes_error_from(h: Heap, s: Seq<ListElement>, i: int)
    requires
        0 <= i < s.len(),
        bytes_of(h, s.take(i + 1)) is Err,
    ensures
        bytes_of(h, s) is Err,
    decreases s.len() - i,
{
    if i + 1 < s.len() {
        assert(s.take(i + 2).drop_last() =~= s.take(i + 1));
        lemma_bytes_error_from(h, s, i + 1);
    } else {
        assert(s.take(i + 1) =~= s);
    }
}


/// Pending work of the reader: convert an object, or assemble the values of
/// the last parts converted.
pub enum ExportWork {
    Convert { elem: ListElement, expected: ConvType, path: ConversionPath },
    Tuple(usize),
    List(usize),
    Dict(Vec<String>),
    Adt { tag: String, fields: usize },
}

/// The part that a conversion item converts.
pub open spec fn convert_part(w: ExportWork) -> Option<Part> {
    match w {
        ExportWork::Convert { elem, expected, path } => Some((elem, ty_view(expected), path@)),
        _ => None,
    }
}

/// What an assembly item assembles, and from how many values.
pub open spec fn assemble_of(w: ExportWork) -> Option<(Assemble, nat)> {
    match w {
        ExportWork::Convert { .. } => None,
        ExportWork::Tuple(n) => Some((Assemble::Tuple, n as nat)),
        ExportWork::List(n) => Some((Assemble::List, n as nat)),
        ExportWork::Dict(names) => Some((Assemble::Dict(names@.map_values(|s: String| s@)), names@.len())),
        ExportWork::Adt { tag, fields } => Some((Assemble::Adt(tag@), fields as nat)),
    }
}

/// What the reader does with one object first.
pub enum ExportStep {
    Value(Value),
    Fail(EngineError),
    Expand(ExportWork, Vec<ExportWork>),
}

/// Whether `r` does the step `s`.
pub open spec fn does_step(r: ExportStep, s: Step) -> bool {
    match s {
        Step::Value(v) => r matches ExportStep::Value(x) && value_view(x) == v,
        Step::Error(p, x, g) => r matches ExportStep::Fail(e) && is_conversion_error(e, p, x, g),
        Step::Expand(k, parts) => r matches ExportStep::Expand(a, kids) && assemble_of(a) == Some((k, parts.len()))
            && kids@.len() == parts.len() && forall|i: int| 0 <= i < parts.len() ==> convert_part(#[trigger] kids@[i]) == Some(parts[i]),
        Step::Stuck => false,
    }
}

/// Conversions of the pointers `ps`, each with the type of the same index.
fn indexed_parts(ps: &Vec<InternalPtr>, ts: &Vec<ConvType>, path: &ConversionPath) -> (kids: Vec<ExportWork>)
    requires
        ps@.len() == ts@.len(),
    ensures
        kids@.len() == ps@.len(),
        forall|i: int| 0 <= i < ps@.len() ==> convert_part(#[trigger] kids@[i]) == Some(
            (ListElement::InternalPtr(ps@[i]), ty_view(ts@[i]), path@.push(index_segment(i as nat))),
        ),
{
    let mut kids: Vec<ExportWork> = Vec::new();
    let mut i: usize = 0;
    while i < ps.len()
        invariant
            0 <= i <= ps@.len(),
            ps@.len() == ts@.len(),
            kids@.len() == i,
            forall|j: int| 0 <= j < i ==> convert_part(#[trigger] kids@[j]) == Some(
                (ListElement::InternalPtr(ps@[j]), ty_view(ts@[j]), path@.push(index_segment(j as nat))),
            ),
        decreases ps@.len() - i,
    {
        kids.push(ExportWork::Convert { elem: ListElement::InternalPtr(ps[i]), expected: ts[i].copy(), path: path.child(index_text(i)) });
        i += 1;
    }
    kids
}

/// Conversions of the list elements `s`, all with the type `t`.
fn element_parts(s: &Vec<ListElement>, t: &ConvType, path: &ConversionPath) -> (kids: Vec<ExportWork>)
    ensures
        kids@.len() == s@.len(),
        forall|i: int| 0 <= i < s@.len() ==> convert_part(#[trigger] kids@[i]) == Some((s@[i], ty_view(*t), path@.push(index_segment(i as nat)))),
{
    let mut kids: Vec<ExportWork> = Vec::new();
    let mut i: usize = 0;
    while i < s.len()
        invariant
            0 <= i <= s@.len(),
            kids@.len() == i,
            forall|j: int| 0 <= j < i ==> convert_part(#[trigger] kids@[j]) == Some((s@[j], ty_view(*t), path@.push(index_segment(j as nat)))),
        decreases s@.len() - i,
    {
        kids.push(ExportWork::Convert { elem: s[i], expected: t.copy(), path: path.child(index_text(i)) });
        i += 1;
    }
    kids
}

/// Conversions of the entries `es`, all with the type `t`, and the entries'
/// names.
fn entry_parts(es: &Vec<DictEntry>, t: &ConvType, path: &ConversionPath) -> (r: (ExportWork, Vec<ExportWork>))
    ensures
        assemble_of(r.0) == Some((Assemble::Dict(dict_view(es@).map_values(|x: (Seq<char>, InternalPtr)| x.0)), es@.len())),
        r.1@.len() == es@.len(),
        forall|i: int| 0 <= i < es@.len() ==> convert_part(#[trigger] r.1@[i]) == Some(
            (ListElement::InternalPtr(dict_view(es@)[i].1), ty_view(*t), path@.push(field_segment(dict_view(es@)[i].0))),
        ),
{
    let mut kids: Vec<ExportWork> = Vec::new();
    let mut names: Vec<String> = Vec::new();
    let mut i: usize = 0;
    while i < es.len()
        invariant
            0 <= i <= es@.len(),
            kids@.len() == i,
            names@.len() == i,
            forall|j: int| 0 <= j < i ==> (#[trigger] names@[j])@ == es@[j].key@,
            forall|j: int| 0 <= j < i ==> convert_part(#[trigger] kids@[j]) == Some(
                (ListElement::InternalPtr(es@[j].value), ty_view(*t), path@.push(field_segment(es@[j].key@))),
            ),
        decreases es@.len() - i,
    {
        kids.push(ExportWork::Convert {
            elem: ListElement::InternalPtr(es[i].value),
            expected: t.copy(),
            path: path.child(field_text(es[i].key.as_str())),
        });
        names.push(es[i].key.clone());
        i += 1;
    }
    proof {
        assert(names@.map_values(|s: String| s@) =~= dict_view(es@).map_values(|x: (Seq<char>, InternalPtr)| x.0));
    }
    (ExportWork::Dict(names), kids)
}


/// Conversions of a constructor's fields `ps`, each with the field type of
/// the same index, at the paths `.tag[i]`.
fn field_parts(ps: &Vec<InternalPtr>, ts: &Vec<ConvType>, tag: &str, path: &ConversionPath) -> (kids: Vec<ExportWork>)
    requires
        ps@.len() == ts@.len(),
    ensures
        kids@.len() == ps@.len(),
        forall|i: int| 0 <= i < ps@.len() ==> convert_part(#[trigger] kids@[i]) == Some(
            (ListElement::InternalPtr(ps@[i]), ty_view(ts@[i]), path@.push(field_segment(tag@) + index_segment(i as nat))),
        ),
{
    let mut kids: Vec<ExportWork> = Vec::new();
    let mut i: usize = 0;
    while i < ps.len()
        invariant
            0 <= i <= ps@.len(),
            ps@.len() == ts@.len(),
            kids@.len() == i,
            forall|j: int| 0 <= j < i ==> convert_part(#[trigger] kids@[j]) == Some(
                (ListElement::InternalPtr(ps@[j]), ty_view(ts@[j]), path@.push(field_segment(tag@) + index_segment(j as nat))),
            ),
        decreases ps@.len() - i,
    {
        let mut seg: Vec<char> = vec!['.'];
        let mut name = chars_of(tag);
        seg.append(&mut name);
        seg.push('[');
        push_decimal(&mut seg, i as u64);
        seg.push(']');
        proof {
            assert(seg@ =~= field_segment(tag@) + index_segment(i as nat));
        }
        kids.push(ExportWork::Convert {
            elem: ListElement::InternalPtr(ps[i]),
            expected: ts[i].copy(),
            path: path.child(string_from_chars(&seg)),
        });
        i += 1;
    }
    kids
}

/// `last_missing` found by looking from the end.
proof fn lemma_last_missing(es: Seq<(Seq<char>, InternalPtr)>, fs: Seq<(Seq<char>, TyV)>, j: int)
    requires
        0 <= j <= fs.len(),
        forall|k: int| j <= k < fs.len() ==> dict_get(es, #[trigger] fs[k].0) is Some,
    ensures
        j == 0 ==> last_missing(es, fs) is None,
        j > 0 && dict_get(es, fs[j - 1].0) is None ==> last_missing(es, fs) == Some(j - 1),
    decreases fs.len(),
{
    if fs.len() > 0 && j < fs.len() {
        let t = fs.drop_last();
        assert forall|k: int| j <= k < t.len() implies dict_get(es, #[trigger] t[k].0) is Some by {
            assert(t[k] == fs[k]);
        }
        lemma_last_missing(es, t, j);
        if j > 0 {
            assert(t[j - 1] == fs[j - 1]);
        }
    }
}

/// The step for the constructor `name` applied to `args`.
fn named_step_exec(
    heap: &Heap,
    elem: ListElement,
    cell: &Cell,
    name: &String,
    args: &Vec<ConvType>,
    expected: &ConvType,
    path: &ConversionPath,
    table: &TypeTable,
) -> (r: ExportStep)
    requires
        heap.wf(),
        cell@ == elem_cell(*heap, elem),
        heap.holds_valid(cell@),
        !(named_step(*heap, elem, cell@, name@, tys_view(args@), type_text(ty_view(*expected)), path@, table_view(*table)) is Stuck),
    ensures
        does_step(r, named_step(*heap, elem, cell@, name@, tys_view(args@), type_text(ty_view(*expected)), path@, table_view(*table))),
{
    proof {
        lemma_tys_view(args@);
    }
    if args.len() == 0 && scalar_name(name.as_str()) {
        return match scalar_value(name.as_str(), cell) {
            Some(v) => ExportStep::Value(v),
            None => ExportStep::Fail(failure(path, type_chars(expected), chars_of(cell.cell_type_name()))),
        };
    }
    if same_text(name.as_str(), "List") && args.len() == 1 {
        let binary = is_u8_type(&args[0]);
        let ghost n = choose|n: nat| !(#[trigger] walk(*heap, cell@, n) is Diverges);
        proof {
            lemma_list_walk(*heap, cell@, n);
            lemma_walk_valid(*heap, cell@, n);
        }
        let elems = match list_elements_from_cell(heap, cell) {
            Ok(v) => v,
            Err(_) => {
                return ExportStep::Fail(failure(path, type_chars(expected), chars_of(cell.cell_type_name())));
            },
        };
        if binary {
            let _ = elems.len();
            return match elements_bytes(heap, &elems) {
                Some(b) => ExportStep::Value(Value::Bytes(b)),
                None => ExportStep::Fail(failure(path, type_chars(expected), chars_of(cell.cell_type_name()))),
            };
        }
        let kids = element_parts(&elems, &args[0], path);
        return ExportStep::Expand(ExportWork::List(elems.len()), kids);
    }
    if same_text(name.as_str(), "Dict") && args.len() == 1 {
        return match cell {
            Cell::Dict(es) => {
                let (a, kids) = entry_parts(es, &args[0], path);
                ExportStep::Expand(a, kids)
            },
            _ => ExportStep::Fail(failure(path, type_chars(expected), chars_of(cell.cell_type_name()))),
        };
    }
    match cell {
        Cell::Adt(tag, ps) => match resolve_adt_variant(table, name.as_str(), args, tag.as_str()) {
            Err(g) => ExportStep::Fail(failure(path, chars_of(name.as_str()), chars_of(g.as_str()))),
            Ok((vname, fts)) => {
                if ps.len() != fts.len() {
                    let mut got = chars_of("constructor ");
                    let mut t = chars_of(tag.as_str());
                    got.append(&mut t);
                    let mut with = chars_of(" with ");
                    got.append(&mut with);
                    push_decimal(&mut got, ps.len() as u64);
                    let mut tail = chars_of(" fields");
                    got.append(&mut tail);
                    proof {
                        lemma_tys_view(fts@);
                        assert(got@ =~= "constructor "@ + tag@ + " with "@ + digits(ps@.len()) + " fields"@);
                    }
                    return ExportStep::Fail(failure(path, type_chars(expected), got));
                }
                let local = local_name(vname.as_str());
                proof {
                    lemma_tys_view(fts@);
                }
                let kids = field_parts(ps, &fts, local.as_str(), path);
                ExportStep::Expand(ExportWork::Adt { tag: local, fields: ps.len() }, kids)
            },
        },
        _ => ExportStep::Fail(failure(path, type_chars(expected), chars_of(cell.cell_type_name()))),
    }
}


/// The first step of converting the object `elem`, whose content is `cell`,
/// to the type `expected` at `path`.
fn export_step(heap: &Heap, elem: ListElement, cell: &Cell, expected: &ConvType, path: &ConversionPath, table: &TypeTable) -> (r: ExportStep)
    requires
        heap.wf(),
        cell@ == elem_cell(*heap, elem),
        heap.holds_valid(cell@),
        !(step(*heap, elem, ty_view(*expected), path@, table_view(*table)) is Stuck),
    ensures
        does_step(r, step(*heap, elem, ty_view(*expected), path@, table_view(*table))),
{
    match expected {
        ConvType::Var(_) => ExportStep::Fail(failure(path, type_chars(expected), chars_of("unresolved type variable"))),
        ConvType::Fun(_, _) => ExportStep::Fail(failure(path, type_chars(expected), chars_of(cell.cell_type_name()))),
        ConvType::Tuple(ts) => match cell {
            Cell::Tuple(ps) => {
                proof {
                    lemma_tys_view(ts@);
                }
                if ps.len() != ts.len() {
                    let mut got = chars_of("tuple with ");
                    push_decimal(&mut got, ps.len() as u64);
                    let mut tail = chars_of(" items");
                    got.append(&mut tail);
                    proof {
                        assert(got@ =~= "tuple with "@ + digits(ps@.len()) + " items"@);
                    }
                    return ExportStep::Fail(failure(path, type_chars(expected), got));
                }
                let kids = indexed_parts(ps, ts, path);
                ExportStep::Expand(ExportWork::Tuple(ps.len()), kids)
            },
            _ => ExportStep::Fail(failure(path, type_chars(expected), chars_of(cell.cell_type_name()))),
        },
        ConvType::Record(fs) => match cell {
            Cell::Dict(es) => {
                let ghost fv = crate::conv_types::fields_ty_view(fs@);
                let ghost ev = dict_view(es@);
                proof {
                    crate::conv_types::lemma_fields_ty_view(fs@);
                }
                if es.len() != fs.len() {
                    let mut got = chars_of("record with ");
                    push_decimal(&mut got, es.len() as u64);
                    let mut tail = chars_of(" fields");
                    got.append(&mut tail);
                    proof {
                        assert(got@ =~= "record with "@ + digits(es@.len()) + " fields"@);
                    }
                    return ExportStep::Fail(failure(path, type_chars(expected), got));
                }
                let mut j: usize = fs.len();
                while j > 0
                    invariant
                        j <= fs@.len(),
                        fv == crate::conv_types::fields_ty_view(fs@),
                        ev == dict_view(es@),
                        ty_view(*expected) == TyV::Record(fv),
                        cell@ == CellView::Dict(ev),
                        cell@ == elem_cell(*heap, elem),
                        ev.len() == fv.len(),
                        fv.len() == fs@.len(),
                        forall|k: int| 0 <= k < fs@.len() ==> #[trigger] fv[k] == (fs@[k].0@, ty_view(fs@[k].1)),
                        forall|k: int| j <= k < fv.len() ==> dict_get(ev, #[trigger] fv[k].0) is Some,
                    decreases j,
                {
                    if entry_index(es, fs[j - 1].0.as_str()).is_none() {
                        proof {
                            assert(fv[j - 1] == (fs@[j - 1].0@, ty_view(fs@[j - 1].1)));
                            lemma_last_missing(ev, fv, j as int);
                        }
                        let msg = chars_of("missing field");
                        let child = path.child(field_text(fs[j - 1].0.as_str()));
                        let xt = type_chars(&fs[j - 1].1);
                        let err = failure(&child, xt, msg);
                        proof {
                            assert(child@ == path@.push(field_segment(fv[j - 1].0)));
                            assert(last_missing(ev, fv) == Some(j - 1));
                            assert(ty_view(*expected) == TyV::Record(fv));
                            assert(cell@ == CellView::Dict(ev));
                            assert(step(*heap, elem, ty_view(*expected), path@, table_view(*table)) == Step::Error(child@, type_text(fv[j - 1].1), "missing field"@));
                        }
                        return ExportStep::Fail(err);
                    }
                    proof {
                        assert(fv[j - 1] == (fs@[j - 1].0@, ty_view(fs@[j - 1].1)));
                    }
                    j -= 1;
                }
                proof {
                    lemma_last_missing(ev, fv, 0);
                }
                let mut kids: Vec<ExportWork> = Vec::new();
                let mut names: Vec<String> = Vec::new();
                let mut i: usize = 0;
                while i < fs.len()
                    invariant
                        0 <= i <= fs@.len(),
                        fv == crate::conv_types::fields_ty_view(fs@),
                        ev == dict_view(es@),
                        ty_view(*expected) == TyV::Record(fv),
                        cell@ == CellView::Dict(ev),
                        cell@ == elem_cell(*heap, elem),
                        ev.len() == fv.len(),
                        fv.len() == fs@.len(),
                        forall|k: int| 0 <= k < fs@.len() ==> #[trigger] fv[k] == (fs@[k].0@, ty_view(fs@[k].1)),
                        forall|k: int| 0 <= k < fv.len() ==> dict_get(ev, #[trigger] fv[k].0) is Some,
                        kids@.len() == i,
                        names@.len() == i,
                        forall|k: int| 0 <= k < i ==> (#[trigger] names@[k])@ == fv[k].0,
                        forall|k: int| 0 <= k < i ==> convert_part(#[trigger] kids@[k]) == Some(
                            (ListElement::InternalPtr(dict_get(ev, fv[k].0).unwrap()), fv[k].1, path@.push(field_segment(fv[k].0))),
                        ),
                    decreases fs@.len() - i,
                {
                    let x = entry_index(es, fs[i].0.as_str());
                    proof {
                        assert(fv[i as int].0 == fs@[i as int].0@);
                    }
                    let target = match x {
                        Some(x) => es[x].value,
                        None => {
                            proof {
                                assert(false);
                            }
                            return ExportStep::Fail(failure(path, type_chars(expected), chars_of("missing field")));
                        },
                    };
                    kids.push(ExportWork::Convert {
                        elem: ListElement::InternalPtr(target),
                        expected: fs[i].1.copy(),
                        path: path.child(field_text(fs[i].0.as_str())),
                    });
                    names.push(fs[i].0.clone());
                    i += 1;
                }
                proof {
                    assert(names@.map_values(|s: String| s@) =~= fv.map_values(|f: (Seq<char>, TyV)| f.0));
                }
                ExportStep::Expand(ExportWork::Dict(names), kids)
            },
            _ => ExportStep::Fail(failure(path, type_chars(expected), chars_of(cell.cell_type_name()))),
        },
        _ => {
            let (head, args) = decompose_type_app(expected);
            match head {
                ConvType::Con(name) => named_step_exec(heap, elem, cell, &name, &args, expected, path, table),
                _ => ExportStep::Fail(failure(path, type_chars(expected), chars_of(cell.cell_type_name()))),
            }
        },
    }
}


/// The objects that a live object holds are live.
proof fn lemma_elem_holds_valid(h: Heap, e: ListElement)
    requires
        h.wf(),
        elem_valid(h, e),
    ensures
        h.holds_valid(elem_cell(h, e)),
{
    match e {
        ListElement::InternalPtr(p) => {
            assert forall|k: int| 0 <= k < crate::cell::children(elem_cell(h, e)).len() implies h.valid_ptr(
                #[trigger] crate::cell::children(elem_cell(h, e))[k],
            ) by {
                assert(h.valid_ptr(crate::cell::children(h.slot_cell(p.index as int))[k]));
            }
        },
        ListElement::U8(_) => {},
    }
}

/// A value that `dict_get` finds is the value of one of the entries.
proof fn lemma_dict_get_member(es: Seq<(Seq<char>, InternalPtr)>, k: Seq<char>)
    requires
        dict_get(es, k) is Some,
    ensures
        exists|j: int| 0 <= j < es.len() && #[trigger] es[j].1 == dict_get(es, k).unwrap(),
    decreases es.len(),
{
    if es[0].0 != k {
        lemma_dict_get_member(es.drop_first(), k);
        let j = choose|j: int| 0 <= j < es.drop_first().len() && #[trigger] es.drop_first()[j].1 == dict_get(es.drop_first(), k).unwrap();
        assert(es[j + 1].1 == es.drop_first()[j].1);
    } else {
        assert(es[0].1 == dict_get(es, k).unwrap());
    }
}

/// With no field missing, each field is there.
proof fn lemma_none_missing(es: Seq<(Seq<char>, InternalPtr)>, fs: Seq<(Seq<char>, TyV)>, i: int)
    requires
        last_missing(es, fs) is None,
        0 <= i < fs.len(),
    ensures
        dict_get(es, fs[i].0) is Some,
    decreases fs.len(),
{
    if i < fs.len() - 1 {
        assert(fs.drop_last()[i] == fs[i]);
        lemma_none_missing(es, fs.drop_last(), i);
    }
}

/// The parts of a step name live objects.
proof fn lemma_step_parts_valid(h: Heap, e: ListElement, t: TyV, path: Seq<Seq<char>>, tab: Seq<crate::conv_types::AdtV>)
    requires
        h.wf(),
        elem_valid(h, e),
    ensures
        step(h, e, t, path, tab) matches Step::Expand(_, parts) ==> forall|i: int| 0 <= i < parts.len() ==> elem_valid(h, #[trigger] parts[i].0),
{
    lemma_elem_holds_valid(h, e);
    let c = elem_cell(h, e);
    if let Step::Expand(_, parts) = step(h, e, t, path, tab) {
        assert forall|i: int| 0 <= i < parts.len() implies elem_valid(h, #[trigger] parts[i].0) by {
            match parts[i].0 {
                ListElement::InternalPtr(q) => {
                    match c {
                        CellView::Tuple(ps) => {
                            assert(q == ps[i]);
                            assert(crate::cell::children(c)[i] == ps[i]);
                        },
                        CellView::Adt(tag, ps) => {
                            assert(q == ps[i]);
                            assert(crate::cell::children(c)[i] == ps[i]);
                        },
                        CellView::Dict(es) => {
                            match t {
                                TyV::Record(fs) => {
                                    lemma_none_missing(es, fs, i);
                                    lemma_dict_get_member(es, fs[i].0);
                                    let j = choose|j: int| 0 <= j < es.len() && #[trigger] es[j].1 == dict_get(es, fs[i].0).unwrap();
                                    assert(crate::cell::children(c)[j] == es[j].1);
                                },
                                _ => {
                                    assert(crate::cell::children(c)[i] == es[i].1);
                                },
                            }
                        },
                        _ => {
                            let n = choose|n: nat| !(#[trigger] walk(h, c, n) is Diverges);
                            lemma_list_walk(h, c, n);
                            lemma_walk_valid(h, c, n);
                        },
                    }
                },
                ListElement::U8(_) => {},
            }
        }
    }
}

/// The fields of a dictionary of values, with the values in their
/// mathematical form.
pub open spec fn vmap(q: Seq<(Seq<char>, Value)>) -> Seq<(Seq<char>, ValueV)> {
    q.map_values(|p: (Seq<char>, Value)| (p.0, value_view(p.1)))
}

proof fn lemma_entries_vmap(s: Seq<(String, Value)>)
    ensures
        entries_view(s) == vmap(crate::dicts::fields_view(s)),
{
    lemma_entries_view(s);
    assert(entries_view(s) =~= vmap(crate::dicts::fields_view(s)));
}

/// Setting a field commutes with taking the mathematical form of values.
proof fn lemma_vmap_insert(q: Seq<(Seq<char>, Value)>, k: Seq<char>, v: Value)
    ensures
        vmap(crate::dicts::dict_insert(q, k, v)) == crate::dicts::dict_insert(vmap(q), k, value_view(v)),
    decreases q.len(),
{
    if q.len() == 0 {
        assert(vmap(crate::dicts::dict_insert(q, k, v)) =~= crate::dicts::dict_insert(vmap(q), k, value_view(v)));
    } else if q[0].0 == k {
        assert(vmap(crate::dicts::dict_insert(q, k, v)) =~= crate::dicts::dict_insert(vmap(q), k, value_view(v)));
    } else if crate::dicts::text_lt(k, q[0].0) {
        assert(vmap(crate::dicts::dict_insert(q, k, v)) =~= crate::dicts::dict_insert(vmap(q), k, value_view(v)));
    } else {
        lemma_vmap_insert(q.drop_first(), k, v);
        assert(vmap(q).drop_first() =~= vmap(q.drop_first()));
        assert(vmap(crate::dicts::dict_insert(q, k, v)) =~= crate::dicts::dict_insert(vmap(q), k, value_view(v)));
    }
}


/// The dictionary of the fields `names` with the values `fields`, set in
/// order.
fn assemble_dict(names: &Vec<String>, fields: Vec<Value>) -> (v: Value)
    requires
        names@.len() == fields@.len(),
    ensures
        value_view(v) == ValueV::Dict(dict_of(Seq::new(fields@.len(), |i: int| (names@[i]@, value_view(fields@[i]))))),
{
    let ghost pairs = Seq::new(fields@.len(), |i: int| (names@[i]@, value_view(fields@[i])));
    let ghost orig = fields@;
    let n = fields.len();
    let mut fields = fields;
    let mut rev: Vec<Value> = Vec::new();
    while fields.len() > 0
        invariant
            fields@.len() + rev@.len() == n,
            orig.len() == n,
            forall|j: int| 0 <= j < fields@.len() ==> fields@[j] == orig[j],
            forall|j: int| 0 <= j < rev@.len() ==> rev@[j] == orig[n - 1 - j],
        decreases fields@.len(),
    {
        match fields.pop() {
            Some(x) => rev.push(x),
            None => {},
        }
    }
    let mut d: Vec<(String, Value)> = Vec::new();
    proof {
        assert(entries_view(d@) =~= dict_of(pairs.take(0)));
    }
    let mut i: usize = 0;
    while i < n
        invariant
            0 <= i <= n,
            n == orig.len(),
            names@.len() == n,
            rev@.len() == n - i,
            forall|j: int| 0 <= j < rev@.len() ==> rev@[j] == orig[n - 1 - j],
            pairs == Seq::new(orig.len(), |k: int| (names@[k]@, value_view(orig[k]))),
            entries_view(d@) == dict_of(pairs.take(i as int)),
        decreases n - i,
    {
        let x = match rev.pop() {
            Some(x) => x,
            None => {
                proof {
                    assert(false);
                }
                Value::Bool(false)
            },
        };
        let ghost before = d@;
        dict_insert_field(&mut d, names[i].clone(), x);
        proof {
            lemma_entries_vmap(before);
            lemma_entries_vmap(d@);
            lemma_vmap_insert(crate::dicts::fields_view(before), names@[i as int]@, x);
            assert(pairs.take(i + 1).drop_last() =~= pairs.take(i as int));
            assert(pairs.take(i + 1).last() == (names@[i as int]@, value_view(orig[i as int])));
        }
        i += 1;
    }
    proof {
        assert(pairs.take(n as int) =~= pairs);
    }
    Value::Dict(d)
}

/// The pending work with the nesting each conversion may still use.
pub open spec fn work_v(w: ExportWork, f: nat) -> WorkV {
    match w {
        ExportWork::Convert { elem, expected, path } => WorkV::Convert((elem, ty_view(expected), path@), f),
        ExportWork::Tuple(n) => WorkV::Assemble(Assemble::Tuple, n as nat),
        ExportWork::List(n) => WorkV::Assemble(Assemble::List, n as nat),
        ExportWork::Dict(names) => WorkV::Assemble(Assemble::Dict(names@.map_values(|s: String| s@)), names@.len()),
        ExportWork::Adt { tag, fields } => WorkV::Assemble(Assemble::Adt(tag@), fields as nat),
    }
}

pub open spec fn works_view(w: Seq<ExportWork>, fuels: Seq<nat>) -> Seq<WorkV> {
    Seq::new(w.len(), |i: int| work_v(w[i], fuels[i]))
}

proof fn lemma_values_push(s: Seq<Value>, x: Value)
    ensures
        values_view(s.push(x)) == values_view(s).push(value_view(x)),
{
    lemma_values_view(s);
    lemma_values_view(s.push(x));
    assert(values_view(s.push(x)) =~= values_view(s).push(value_view(x)));
}

proof fn lemma_values_subrange(s: Seq<Value>, a: int, b: int)
    requires
        0 <= a <= b <= s.len(),
    ensures
        values_view(s.subrange(a, b)) == values_view(s).subrange(a, b),
{
    lemma_values_view(s);
    lemma_values_view(s.subrange(a, b));
    assert(values_view(s.subrange(a, b)) =~= values_view(s).subrange(a, b));
}


proof fn lemma_run_top(h: Heap, tab: Seq<crate::conv_types::AdtV>, w: Seq<WorkV>, x: WorkV, vals: Seq<ValueV>)
    ensures
        run(h, tab, w.push(x), vals) == match x {
            WorkV::Convert(p, f) => match export_at(h, p.0, p.1, p.2, tab, f) {
                Export::Done(v) => run(h, tab, w, vals.push(v)),
                Export::Fail(a, b, c) => Run::Fail(a, b, c),
                Export::Diverges => Run::Stuck,
            },
            WorkV::Assemble(k, n) => if vals.len() < n {
                Run::Stuck
            } else {
                run(h, tab, w, vals.take(vals.len() - n).push(assemble(k, vals.skip(vals.len() - n))))
            },
        },
        work_cost(h, tab, w.push(x)) == work_cost(h, tab, w) + match x {
            WorkV::Convert(p, f) => cost(h, p, tab, f),
            WorkV::Assemble(_, _) => 1,
        },
{
    assert(w.push(x).drop_last() =~= w);
    assert(w.push(x).last() == x);
}

/// Assembling the last `n` values of the stack `vv` into `built` leaves the
/// stack that the work's assembly step leaves.
proof fn lemma_assemble_step(
    h: Heap,
    tab: Seq<crate::conv_types::AdtV>,
    base: Seq<WorkV>,
    k: Assemble,
    n: nat,
    vv: Seq<Value>,
    rest: Seq<Value>,
    fields: Seq<Value>,
    built: Value,
)
    requires
        n <= vv.len(),
        rest == vv.subrange(0, vv.len() - n),
        fields == vv.subrange(vv.len() - n, vv.len() as int),
        value_view(built) == assemble(k, values_view(fields)),
    ensures
        values_view(rest.push(built)) == values_view(vv).take(values_view(vv).len() - n).push(
            assemble(k, values_view(vv).skip(values_view(vv).len() - n)),
        ),
{
    lemma_values_view(vv);
    lemma_values_subrange(vv, 0, vv.len() - n);
    lemma_values_subrange(vv, vv.len() - n, vv.len() as int);
    lemma_values_push(rest, built);
    assert(values_view(vv).take(vv.len() - n) =~= values_view(vv).subrange(0, vv.len() - n));
    assert(values_view(vv).skip(vv.len() - n) =~= values_view(vv).subrange(vv.len() - n, vv.len() as int));
}

/// What converting the part at the top of the work does to the outcome of
/// the work: a value is pushed, a failure is the outcome, or the parts are
/// pushed after their assembly; in each case with less work left.
proof fn lemma_convert_progress(h: Heap, tab: Seq<crate::conv_types::AdtV>, base: Seq<WorkV>, part: Part, f: nat, vals: Seq<ValueV>, target: Run)
    requires
        run(h, tab, base.push(WorkV::Convert(part, f)), vals) == target,
        !(target is Stuck),
    ensures
        f > 0,
        !(step(h, part.0, part.1, part.2, tab) is Stuck),
        match step(h, part.0, part.1, part.2, tab) {
            Step::Value(v) => run(h, tab, base, vals.push(v)) == target
                && work_cost(h, tab, base) < work_cost(h, tab, base.push(WorkV::Convert(part, f))),
            Step::Error(p, x, g) => target == Run::Fail(p, x, g),
            Step::Expand(k, parts) => run(h, tab, base.push(WorkV::Assemble(k, parts.len())) + pushed(parts, (f - 1) as nat), vals) == target
                && work_cost(h, tab, base.push(WorkV::Assemble(k, parts.len())) + pushed(parts, (f - 1) as nat)) < work_cost(
                    h,
                    tab,
                    base.push(WorkV::Convert(part, f)),
                ),
            Step::Stuck => false,
        },
{
    lemma_run_top(h, tab, base, WorkV::Convert(part, f), vals);
    if let Step::Expand(k, parts) = step(h, part.0, part.1, part.2, tab) {
        let g = (f - 1) as nat;
        let x = base.push(WorkV::Assemble(k, parts.len()));
        lemma_run_pushed(h, tab, x, parts, g, vals);
        lemma_export_all_len(h, parts, tab, g);
        lemma_cost_pushed(h, tab, x, parts, g);
        lemma_run_top(h, tab, base, WorkV::Assemble(k, parts.len()), vals);
        if let ExportAll::Done(vs) = export_all(h, parts, tab, g) {
            lemma_run_top(h, tab, base, WorkV::Assemble(k, parts.len()), vals + vs);
            assert((vals + vs).take((vals + vs).len() - parts.len()) =~= vals);
            assert((vals + vs).skip((vals + vs).len() - parts.len()) =~= vs);
        }
    }
}

/// The fuels of the work after expanding a part at the top of `fuels`'s
/// work into `n` parts.
pub open spec fn expanded_fuels(fuels: Seq<nat>, n: nat, g: nat) -> Seq<nat> {
    fuels.push(0) + Seq::new(n, |j: int| g)
}

/// Converts the part `elem` at `path` as the type `t`: pushes its value, or
/// fails, or pushes the assembly of its parts and then its parts, the first
/// last.
fn convert_item(
    heap: &Heap,
    table: &TypeTable,
    elem: ListElement,
    t: &ConvType,
    path: &ConversionPath,
    work: &mut Vec<ExportWork>,
    values: &mut Vec<Value>,
    Ghost(fuels): Ghost<Seq<nat>>,
    Ghost(f): Ghost<nat>,
) -> (res: Result<(), EngineError>)
    requires
        heap.wf(),
        elem_valid(*heap, elem),
        f > 0,
        !(step(*heap, elem, ty_view(*t), path@, table_view(*table)) is Stuck),
        fuels.len() == old(work)@.len(),
    ensures
        match step(*heap, elem, ty_view(*t), path@, table_view(*table)) {
            Step::Value(v) => res is Ok && final(work)@ == old(work)@ && values_view(final(values)@) == values_view(old(values)@).push(v),
            Step::Error(p, x, g) => res matches Err(e) && is_conversion_error(e, p, x, g),
            Step::Expand(k, parts) => res is Ok && final(values)@ == old(values)@
                && works_view(final(work)@, expanded_fuels(fuels, parts.len(), (f - 1) as nat)) == works_view(old(work)@, fuels).push(
                    WorkV::Assemble(k, parts.len()),
                ) + pushed(parts, (f - 1) as nat)
                && old(work)@.len() <= final(work)@.len()
                && (forall|i: int| 0 <= i < old(work)@.len() ==> #[trigger] final(work)@[i] == old(work)@[i])
                && (forall|i: int| old(work)@.len() <= i < final(work)@.len() ==> (#[trigger] convert_part(final(work)@[i]) matches Some(p) ==> elem_valid(*heap, p.0))),
            Step::Stuck => false,
        },
{
    let ghost h = *heap;
    let ghost part: Part = (elem, ty_view(*t), path@);
    proof {
        lemma_elem_holds_valid(h, elem);
        lemma_step_parts_valid(h, elem, part.1, part.2, table_view(*table));
    }
    let byte = Cell::U8(
        match elem {
            ListElement::U8(x) => x,
            ListElement::InternalPtr(_) => 0,
        },
    );
    let cell: &Cell = match elem {
        ListElement::InternalPtr(q) => match heap.get_cell_from_pointer(&q) {
            Ok(c) => c,
            Err(e) => {
                return Err(e);
            },
        },
        ListElement::U8(_) => &byte,
    };
    match export_step(heap, elem, cell, t, path, table) {
        ExportStep::Value(v) => {
            proof {
                lemma_values_push(values@, v);
            }
            values.push(v);
            Ok(())
        },
        ExportStep::Fail(e) => Err(e),
        ExportStep::Expand(a, kids) => {
            let ghost k = step(h, elem, part.1, part.2, table_view(*table))->Expand_0;
            let ghost parts = step(h, elem, part.1, part.2, table_view(*table))->Expand_1;
            let ghost g: nat = (f - 1) as nat;
            let ghost w0 = work@;
            let ghost base = works_view(work@, fuels);
            work.push(a);
            let ghost fs1 = fuels.push(0);
            proof {
                assert(works_view(work@, fs1) =~= base.push(WorkV::Assemble(k, parts.len())));
            }
            let ghost x = works_view(work@, fs1);
            let ghost kids0 = kids@;
            let mut kids = kids;
            proof {
                assert(kids@ =~= kids0.take(kids0.len() as int));
                assert(works_view(work@, fs1 + Seq::new(0, |j: int| g)) =~= x + Seq::new(0, |j: int| WorkV::Convert(parts[parts.len() - 1 - j], g)));
            }
            while kids.len() > 0
                invariant
                    kids0.len() == parts.len(),
                    kids@.len() <= kids0.len(),
                    kids@ == kids0.take(kids@.len() as int),
                    fs1.len() == w0.len() + 1,
                    work@.len() == fs1.len() + (parts.len() - kids@.len()),
                    forall|i: int| 0 <= i < parts.len() ==> convert_part(#[trigger] kids0[i]) == Some(parts[i]),
                    forall|i: int| 0 <= i < parts.len() ==> elem_valid(h, #[trigger] parts[i].0),
                    works_view(work@, fs1 + Seq::new((parts.len() - kids@.len()) as nat, |j: int| g)) == x + Seq::new(
                        (parts.len() - kids@.len()) as nat,
                        |j: int| WorkV::Convert(parts[parts.len() - 1 - j], g),
                    ),
                    forall|i: int| 0 <= i < w0.len() ==> #[trigger] work@[i] == w0[i],
                    forall|i: int| w0.len() <= i < work@.len() ==> (#[trigger] convert_part(work@[i]) matches Some(p) ==> elem_valid(h, p.0)),
                decreases kids@.len(),
            {
                let ghost wb = work@;
                let ghost m0 = (parts.len() - kids@.len()) as nat;
                let ghost vb = works_view(work@, fs1 + Seq::new(m0, |j: int| g));
                let kid = match kids.pop() {
                    Some(y) => y,
                    None => {
                        return Err(EngineError::Internal("heap-to-value conversion stack underflow"));
                    },
                };
                work.push(kid);
                proof {
                    let m = kids@.len() as int;
                    assert(kid == kids0[m]);
                    assert(convert_part(kid) == Some(parts[m]));
                    assert(work_v(kid, g) == WorkV::Convert(parts[m], g));
                    assert(kids@ =~= kids0.take(m));
                    assert(fs1 + Seq::new((m0 + 1) as nat, |j: int| g) =~= (fs1 + Seq::new(m0, |j: int| g)).push(g));
                    assert(works_view(work@, fs1 + Seq::new((m0 + 1) as nat, |j: int| g)) =~= vb.push(WorkV::Convert(parts[m], g)));
                    assert(works_view(work@, fs1 + Seq::new((parts.len() - kids@.len()) as nat, |j: int| g)) =~= x + Seq::new(
                        (parts.len() - kids@.len()) as nat,
                        |j: int| WorkV::Convert(parts[parts.len() - 1 - j], g),
                    ));
                    assert forall|i: int| w0.len() <= i < work@.len() implies (#[trigger] convert_part(work@[i]) matches Some(p) ==> elem_valid(h, p.0)) by {
                        if i < wb.len() {
                            assert(work@[i] == wb[i]);
                        }
                    }
                }
            }
            proof {
                assert(Seq::new((parts.len() - kids@.len()) as nat, |j: int| WorkV::Convert(parts[parts.len() - 1 - j], g)) =~= pushed(parts, g));
                assert(fs1 + Seq::new((parts.len() - kids@.len()) as nat, |j: int| g) =~= expanded_fuels(fuels, parts.len(), g));
            }
            Ok(())
        },
    }
}

/// Assembling the top `n` values leaves the stack that the work's assembly
/// step leaves, with less work left.
proof fn lemma_assemble_progress(
    h: Heap,
    tab: Seq<crate::conv_types::AdtV>,
    base: Seq<WorkV>,
    k: Assemble,
    n: nat,
    vv: Seq<Value>,
    rest: Seq<Value>,
    fields: Seq<Value>,
    built: Value,
    target: Run,
)
    requires
        run(h, tab, base.push(WorkV::Assemble(k, n)), values_view(vv)) == target,
        !(target is Stuck),
        rest == vv.subrange(0, vv.len() - n),
        fields == vv.subrange(vv.len() - n, vv.len() as int),
        value_view(built) == assemble(k, values_view(fields)),
    ensures
        run(h, tab, base, values_view(rest.push(built))) == target,
        work_cost(h, tab, base) < work_cost(h, tab, base.push(WorkV::Assemble(k, n))),
{
    lemma_values_view(vv);
    lemma_run_top(h, tab, base, WorkV::Assemble(k, n), values_view(vv));
    lemma_assemble_step(h, tab, base, k, n, vv, rest, fields, built);
}

impl Heap {
    /// The owned value that the rooted object `root` stands for, read as the
    /// type `expected`; the data types that `expected` names are looked up
    /// in `table`. A value that does not fit the type gives a conversion
    /// error naming where inside the value it failed, what was expected
    /// there, and what was found.
    pub fn export_value(&self, root: RootedPtr, expected: &ConvType, table: &TypeTable) -> (res: Result<Value, EngineError>)
        requires
            self.wf(),
            self.live_root(root),
            export_ends(*self, ListElement::InternalPtr(self.root_target(root)), ty_view(*expected), table_view(*table)),
        ensures
            match exported(*self, ListElement::InternalPtr(self.root_target(root)), ty_view(*expected), table_view(*table)) {
                Export::Done(v) => res matches Ok(x) && value_view(x) == v,
                Export::Fail(p, x, g) => res matches Err(e) && is_conversion_error(e, p, x, g),
                Export::Diverges => false,
            },
    {
        let p0 = self.resolve_runtime_root(root);
        let e0 = ListElement::InternalPtr(p0);
        let ghost h = *self;
        let ghost tab = table_view(*table);
        let ghost t0 = ty_view(*expected);
        let ghost n0 = choose|n: nat| !(#[trigger] export_at(h, e0, t0, Seq::empty(), tab, n) is Diverges);
        let ghost outcome = export_at(h, e0, t0, Seq::empty(), tab, n0);
        let ghost target = match outcome {
            Export::Done(v) => Run::Values(seq![v]),
            Export::Fail(a, b, c) => Run::Fail(a, b, c),
            Export::Diverges => Run::Stuck,
        };
        let mut work: Vec<ExportWork> = Vec::new();
        work.push(ExportWork::Convert { elem: e0, expected: expected.copy(), path: ConversionPath::root() });
        let ghost mut fuels: Seq<nat> = seq![n0];
        let mut values: Vec<Value> = Vec::new();
        proof {
            assert(self.root_pointer(root.slot as int) is Some);
            assert(outcome == exported(*self, ListElement::InternalPtr(self.root_target(root)), ty_view(*expected), table_view(*table)));
            assert(works_view(work@, fuels) =~= Seq::<WorkV>::empty().push(WorkV::Convert((e0, t0, Seq::empty()), n0)));
            lemma_run_top(h, tab, Seq::empty(), WorkV::Convert((e0, t0, Seq::empty()), n0), values_view(values@));
            assert(values_view(values@) =~= Seq::<ValueV>::empty());
            if let Export::Done(v) = outcome {
                assert(Seq::<ValueV>::empty().push(v) =~= seq![v]);
            }
        }
        while work.len() > 0
            invariant
                self.wf(),
                h == *self,
                tab == table_view(*table),
                fuels.len() == work@.len(),
                target == match outcome {
                    Export::Done(v) => Run::Values(seq![v]),
                    Export::Fail(a, b, c) => Run::Fail(a, b, c),
                    Export::Diverges => Run::Stuck,
                },
                !(target is Stuck),
                outcome == exported(*self, ListElement::InternalPtr(self.root_target(root)), ty_view(*expected), table_view(*table)),
                run(h, tab, works_view(work@, fuels), values_view(values@)) == target,
                forall|i: int| 0 <= i < work@.len() ==> (#[trigger] convert_part(work@[i]) matches Some(p) ==> elem_valid(h, p.0)),
            decreases work_cost(h, tab, works_view(work@, fuels)),
        {
            let ghost before = works_view(work@, fuels);
            let ghost wbefore = work@;
            let item = match work.pop() {
                Some(x) => x,
                None => {
                    return Err(EngineError::Internal("heap-to-value conversion stack underflow"));
                },
            };
            let ghost f = fuels.last();
            proof {
                fuels = fuels.drop_last();
                assert(before =~= works_view(work@, fuels).push(work_v(item, f)));
                assert forall|i: int| 0 <= i < work@.len() implies (#[trigger] convert_part(work@[i]) matches Some(p) ==> elem_valid(h, p.0)) by {
                    assert(work@[i] == wbefore[i]);
                }
                assert(item == wbefore[wbefore.len() - 1]);
            }
            let ghost base = works_view(work@, fuels);
            let ghost wmid = work@;
            match item {
                ExportWork::Convert { elem, expected: t, path } => {
                    let ghost part: Part = (elem, ty_view(t), path@);
                    proof {
                        assert(convert_part(wbefore[wbefore.len() - 1]) == Some(part));
                        lemma_convert_progress(h, tab, base, part, f, values_view(values@), target);
                    }
                    let ghost parts_n: nat = match step(h, elem, part.1, part.2, tab) {
                        Step::Expand(_, parts) => parts.len(),
                        _ => 0,
                    };
                    match convert_item(self, table, elem, &t, &path, &mut work, &mut values, Ghost(fuels), Ghost(f)) {
                        Ok(()) => {
                            proof {
                                if let Step::Expand(_, parts) = step(h, elem, part.1, part.2, tab) {
                                    fuels = expanded_fuels(fuels, parts.len(), (f - 1) as nat);
                                    assert forall|i: int| 0 <= i < work@.len() implies (#[trigger] convert_part(work@[i]) matches Some(p) ==> elem_valid(h, p.0)) by {
                                        if i < wmid.len() {
                                            assert(work@[i] == wmid[i]);
                                        }
                                    }
                                }
                            }
                        },
                        Err(e) => {
                            return Err(e);
                        },
                    }
                },
                ExportWork::Tuple(n) => {
                    let ghost vv = values@;
                    let fields = match take_root_tail(&mut values, n) {
                        Ok(x) => x,
                        Err(e) => {
                            proof {
                                lemma_values_view(vv);
                                lemma_run_top(h, tab, base, work_v(item, f), values_view(vv));
                            }
                            return Err(e);
                        },
                    };
                    let ghost fv = fields@;
                    let built = Value::Tuple(fields);
                    proof {
                        lemma_assemble_progress(h, tab, base, Assemble::Tuple, n as nat, vv, values@, fv, built, target);
                    }
                    values.push(built);
                },
                ExportWork::List(n) => {
                    let ghost vv = values@;
                    let fields = match take_root_tail(&mut values, n) {
                        Ok(x) => x,
                        Err(e) => {
                            proof {
                                lemma_values_view(vv);
                                lemma_run_top(h, tab, base, work_v(item, f), values_view(vv));
                            }
                            return Err(e);
                        },
                    };
                    let ghost fv = fields@;
                    let built = Value::List(fields);
                    proof {
                        lemma_assemble_progress(h, tab, base, Assemble::List, n as nat, vv, values@, fv, built, target);
                    }
                    values.push(built);
                },
                ExportWork::Dict(names) => {
                    let ghost vv = values@;
                    let fields = match take_root_tail(&mut values, names.len()) {
                        Ok(x) => x,
                        Err(e) => {
                            proof {
                                lemma_values_view(vv);
                                lemma_run_top(h, tab, base, work_v(item, f), values_view(vv));
                            }
                            return Err(e);
                        },
                    };
                    let ghost fv = fields@;
                    let built = assemble_dict(&names, fields);
                    proof {
                        lemma_values_view(fv);
                        let nv = names@.map_values(|s: String| s@);
                        let vs = values_view(fv);
                        assert(Seq::new(fv.len(), |i: int| (names@[i]@, value_view(fv[i]))) =~= Seq::new(vs.len(), |i: int| (nv[i], vs[i])));
                        lemma_assemble_progress(h, tab, base, Assemble::Dict(nv), names@.len(), vv, values@, fv, built, target);
                    }
                    values.push(built);
                },
                ExportWork::Adt { tag, fields: n } => {
                    let ghost vv = values@;
                    let ghost tv = tag@;
                    let fields = match take_root_tail(&mut values, n) {
                        Ok(x) => x,
                        Err(e) => {
                            proof {
                                lemma_values_view(vv);
                                lemma_run_top(h, tab, base, work_v(item, f), values_view(vv));
                            }
                            return Err(e);
                        },
                    };
                    let ghost fv = fields@;
                    let built = Value::Adt(tag, fields);
                    proof {
                        lemma_assemble_progress(h, tab, base, Assemble::Adt(tv), n as nat, vv, values@, fv, built, target);
                    }
                    values.push(built);
                },
            }
        }
        proof {
            assert(works_view(work@, fuels) =~= Seq::<WorkV>::empty());
            assert(run(h, tab, Seq::<WorkV>::empty(), values_view(values@)) == Run::Values(values_view(values@)));
            lemma_values_view(values@);
            if let Export::Done(v) = outcome {
                assert(values_view(values@) == seq![v]);
                assert(values_view(values@)[0] == value_view(values@[0]));
            }
        }
        if values.len() != 1 {
            return Err(EngineError::Internal("heap-to-value conversion produced no result"));
        }
        match values.pop() {
            Some(v) => Ok(v),
            None => Err(EngineError::Internal("heap-to-value conversion produced no result")),
        }
    }
}

/// How deep the conversion of `e` may nest in a heap ranked by `rank`.
pub open spec fn elem_rank(rank: spec_fn(InternalPtr) -> nat, e: ListElement) -> nat {
    match e {
        ListElement::InternalPtr(p) => rank(p) + 1,
        ListElement::U8(_) => 1,
    }
}

/// In a ranked heap, the spine of a list ends, and its elements rank below
/// the list.
proof fn lemma_walk_ranked(h: Heap, rank: spec_fn(InternalPtr) -> nat, p: InternalPtr, n: nat)
    requires
        h.wf(),
        ranked(h, rank),
        h.valid_ptr(p),
        rank(p) < n,
    ensures
        !(walk(h, h.cell_at(p), n) is Diverges),
        walk(h, h.cell_at(p), n) matches ListWalk::Done(s) ==> forall|k: int| 0 <= k < s.len() ==> elem_rank(rank, #[trigger] s[k]) <= rank(p),
    decreases n,
{
    let c = h.cell_at(p);
    match c {
        CellView::Cons(head, tail) => {
            assert(crate::cell::children(c)[0] == head);
            assert(crate::cell::children(c)[1] == tail);
            assert(h.valid_ptr(crate::cell::children(h.slot_cell(p.index as int))[1]));
            lemma_walk_ranked(h, rank, tail, (n - 1) as nat);
            if let ListWalk::Done(rest) = walk(h, h.cell_at(tail), (n - 1) as nat) {
                let s = seq![ListElement::InternalPtr(head)] + rest;
                assert forall|k: int| 0 <= k < s.len() implies elem_rank(rank, #[trigger] s[k]) <= rank(p) by {
                    if k > 0 {
                        assert(s[k] == rest[k - 1]);
                    }
                }
            }
        },
        CellView::ListSlice { start, end, elements } => {
            assert(crate::cell::children(c)[0] == elements);
            assert(h.valid_ptr(crate::cell::children(h.slot_cell(p.index as int))[0]));
            let b = h.cell_at(elements);
            if let ListWalk::Done(s) = walk(h, c, n) {
                assert forall|k: int| 0 <= k < s.len() implies elem_rank(rank, #[trigger] s[k]) <= rank(p) by {
                    if let CellView::Data(v) = b {
                        assert(s[k] == ListElement::InternalPtr(v[start + k]));
                        assert(crate::cell::children(b)[start + k] == v[start + k]);
                    }
                }
            }
        },
        _ => {},
    }
}

/// In a ranked heap, converting an object ends within its rank.
proof fn lemma_export_ranked(
    h: Heap,
    rank: spec_fn(InternalPtr) -> nat,
    e: ListElement,
    t: TyV,
    path: Seq<Seq<char>>,
    tab: Seq<crate::conv_types::AdtV>,
    n: nat,
)
    requires
        h.wf(),
        ranked(h, rank),
        elem_valid(h, e),
        elem_rank(rank, e) <= n,
    ensures
        !(export_at(h, e, t, path, tab, n) is Diverges),
    decreases n, 0nat,
{
    lemma_step_parts_valid(h, e, t, path, tab);
    let c = elem_cell(h, e);
    match e {
        ListElement::InternalPtr(p) => {
            lemma_walk_ranked(h, rank, p, rank(p) + 1);
            lemma_list_walk(h, c, rank(p) + 1);
        },
        ListElement::U8(x) => {
            assert(!(walk(h, c, 0) is Diverges));
        },
    }
    if let Step::Expand(k, parts) = step(h, e, t, path, tab) {
        assert forall|i: int| 0 <= i < parts.len() implies elem_valid(h, #[trigger] parts[i].0) && elem_rank(rank, parts[i].0) <= n - 1 by {
            if let ListElement::InternalPtr(p) = e {
                match c {
                    CellView::Tuple(ps) => {
                        assert(crate::cell::children(c)[i] == ps[i]);
                    },
                    CellView::Adt(tag, ps) => {
                        assert(crate::cell::children(c)[i] == ps[i]);
                    },
                    CellView::Dict(es) => {
                        match t {
                            TyV::Record(fs) => {
                                lemma_none_missing(es, fs, i);
                                lemma_dict_get_member(es, fs[i].0);
                                let j = choose|j: int| 0 <= j < es.len() && #[trigger] es[j].1 == dict_get(es, fs[i].0).unwrap();
                                assert(crate::cell::children(c)[j] == es[j].1);
                            },
                            _ => {
                                assert(crate::cell::children(c)[i] == es[i].1);
                            },
                        }
                    },
                    _ => {},
                }
            }
        }
        lemma_export_all_ranked(h, rank, parts, tab, (n - 1) as nat);
    }
}

proof fn lemma_export_all_ranked(h: Heap, rank: spec_fn(InternalPtr) -> nat, parts: Seq<Part>, tab: Seq<crate::conv_types::AdtV>, n: nat)
    requires
        h.wf(),
        ranked(h, rank),
        forall|i: int| 0 <= i < parts.len() ==> elem_valid(h, #[trigger] parts[i].0) && elem_rank(rank, parts[i].0) <= n,
    ensures
        !(export_all(h, parts, tab, n) is Diverges),
    decreases n, parts.len() + 1,
{
    if parts.len() > 0 {
        lemma_export_ranked(h, rank, parts[0].0, parts[0].1, parts[0].2, tab, n);
        assert forall|i: int| 0 <= i < parts.drop_first().len() implies elem_valid(h, #[trigger] parts.drop_first()[i].0)
            && elem_rank(rank, parts.drop_first()[i].0) <= n by {
            assert(parts.drop_first()[i] == parts[i + 1]);
        }
        lemma_export_all_ranked(h, rank, parts.drop_first(), tab, n);
    }
}

/// Converting any object of a heap whose objects reach no cycle (some rank
/// falls along every pointer) ends.
pub proof fn law_acyclic_export_ends(h: Heap, rank: spec_fn(InternalPtr) -> nat, p: InternalPtr, t: TyV, tab: Seq<crate::conv_types::AdtV>)
    requires
        h.wf(),
        ranked(h, rank),
        h.valid_ptr(p),
    ensures
        export_ends(h, ListElement::InternalPtr(p), t, tab),
{
    lemma_export_ranked(h, rank, ListElement::InternalPtr(p), t, Seq::empty(), tab, rank(p) + 1);
    assert(!(export_at(h, ListElement::InternalPtr(p), t, Seq::empty(), tab, rank(p) + 1) is Diverges));
}

} // verus!
