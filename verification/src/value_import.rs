//! Storing an owned value into the heap, guided by the type that the value
//! is expected to have.
//!
//! Like the reader, the writer keeps its own stack of pending work: storing
//! a value either allocates it at once, fails, or pushes the storing of each
//! of its parts followed by a step that allocates the object holding them.

use vstd::prelude::*;

use crate::cell::{children, map_cell, Cell, CellView, InternalPtr, RootedPtr};
use crate::conv_types::{fields_ty_view, lemma_fields_ty_view, decompose, digits, resolve, ty_view, type_text, u8_name, AdtV, ConvType, TyV};
use crate::error::EngineError;
use crate::dicts::{dict_get, dict_insert, dict_of, text_lt};
use crate::heap::{all_live, evolves_except, lemma_root_follows, rooted_alloc_with, targets, Heap};
use crate::lists::{is_alloc_error, reached, byte_elements, lemma_list_walk, lemma_walk_evolves, lists, map_elements, ptr_elements, walk, ListElement, ListWalk};
use crate::value::{local_name_spec, take_root_tail, value_kind, ConversionPath, Value};
use crate::natives::same_text;
use crate::value_export::{failure, field_text};
use crate::conv_types::{decompose_type_app, is_u8_type, lemma_tys_view, resolve_adt_variant, table_view, tys_view, type_chars, TypeTable};
use crate::value::local_name;
use crate::text::{chars_of, string_from_chars};
use crate::conv_types::push_decimal;
use crate::value_export::{
    entries_view, field_segment, index_segment, index_text, is_conversion_error, lemma_entries_view, lemma_values_view, value_view,
    values_view, Assemble, ValueV,
};

verus! {

/// The name of a value's kind.
pub open spec fn kind_v(v: ValueV) -> &'static str {
    match v {
        ValueV::Bool(_) => "Bool",
        ValueV::U8(_) => "u8",
        ValueV::U16(_) => "u16",
        ValueV::U32(_) => "u32",
        ValueV::U64(_) => "u64",
        ValueV::I8(_) => "i8",
        ValueV::I16(_) => "i16",
        ValueV::I32(_) => "i32",
        ValueV::I64(_) => "i64",
        ValueV::F32(_) => "f32",
        ValueV::F64(_) => "f64",
        ValueV::Char(_) => "Char",
        ValueV::String(_) => "String",
        ValueV::Uuid(_) => "UUID",
        ValueV::Hash(_) => "Hash",
        ValueV::DateTime(_, _) => "DateTime",
        ValueV::Tuple(_) => "tuple",
        ValueV::List(_) => "list",
        ValueV::Bytes(_) => "bytes",
        ValueV::Dict(_) => "dict",
        ValueV::Adt(_, _) => "adt",
    }
}

/// What the heap holds for a stored value: an object without parts, a byte
/// list, or an object whose parts hold the shapes of the value's parts.
pub enum Shape {
    Leaf(CellView),
    Bytes(Seq<u8>),
    Tuple(Seq<Shape>),
    List(Seq<Shape>),
    Dict(Seq<(Seq<char>, Shape)>),
    Adt(Seq<char>, Seq<Shape>),
}

/// The object that a scalar value of the type named `name` is stored as,
/// when the value is of that type.
pub open spec fn scalar_leaf(name: Seq<char>, v: ValueV) -> Option<CellView> {
    if name == "Bool"@ {
        match v { ValueV::Bool(x) => Some(CellView::Bool(x)), _ => None }
    } else if name == "u8"@ {
        match v { ValueV::U8(x) => Some(CellView::U8(x)), _ => None }
    } else if name == "u16"@ {
        match v { ValueV::U16(x) => Some(CellView::U16(x)), _ => None }
    } else if name == "u32"@ {
        match v { ValueV::U32(x) => Some(CellView::U32(x)), _ => None }
    } else if name == "u64"@ {
        match v { ValueV::U64(x) => Some(CellView::U64(x)), _ => None }
    } else if name == "i8"@ {
        match v { ValueV::I8(x) => Some(CellView::I8(x)), _ => None }
    } else if name == "i16"@ {
        match v { ValueV::I16(x) => Some(CellView::I16(x)), _ => None }
    } else if name == "i32"@ {
        match v { ValueV::I32(x) => Some(CellView::I32(x)), _ => None }
    } else if name == "i64"@ {
        match v { ValueV::I64(x) => Some(CellView::I64(x)), _ => None }
    } else if name == "f32"@ {
        match v { ValueV::F32(x) => Some(CellView::F32(x)), _ => None }
    } else if name == "f64"@ {
        match v { ValueV::F64(x) => Some(CellView::F64(x)), _ => None }
    } else if name == "String"@ {
        match v { ValueV::String(s) => Some(CellView::String(s)), _ => None }
    } else if name == "UUID"@ {
        match v { ValueV::Uuid(x) => Some(CellView::Uuid(x)), _ => None }
    } else if name == "Hash"@ {
        match v { ValueV::Hash(x) => Some(CellView::Hash(x)), _ => None }
    } else if name == "DateTime"@ {
        match v { ValueV::DateTime(s, n) => Some(CellView::DateTime(s, n)), _ => None }
    } else {
        None
    }
}

/// A part still to store: the value, its expected type, and where it
/// stands.
pub type IPart = (ValueV, TyV, Seq<Seq<char>>);

/// What storing one value does before looking at its parts.
pub enum IStep {
    /// The object to allocate, at once.
    Leaf(Shape),
    /// A failure at a path: the expected text and the text of what was found.
    Error(Seq<Seq<char>>, Seq<char>, Seq<char>),
    /// Store these parts in order, then allocate the object holding them.
    Expand(Assemble, Seq<IPart>),
}

/// Whether the `k`th field of the record type `fs` finds no value left in
/// `es`: its name is absent, or an earlier field of the type took it.
pub open spec fn unavailable(es: Seq<(Seq<char>, ValueV)>, fs: Seq<(Seq<char>, TyV)>, k: int) -> bool {
    dict_get(es, fs[k].0) is None || exists|j: int| 0 <= j < k && #[trigger] fs[j].0 == fs[k].0
}

/// The index of the first field of the record type `fs` that finds no value.
pub open spec fn first_unavailable(es: Seq<(Seq<char>, ValueV)>, fs: Seq<(Seq<char>, TyV)>) -> Option<int>
    decreases fs.len(),
{
    if fs.len() == 0 {
        None
    } else {
        match first_unavailable(es, fs.drop_last()) {
            Some(k) => Some(k),
            None => if unavailable(es, fs, fs.len() - 1) {
                Some(fs.len() - 1)
            } else {
                None
            },
        }
    }
}

/// The first step of storing the value `v` as the type `t` at `path`.
pub open spec fn istep(v: ValueV, t: TyV, path: Seq<Seq<char>>, tab: Seq<AdtV>) -> IStep {
    let got = kind_v(v)@;
    let expected = type_text(t);
    match t {
        TyV::Var(_) => IStep::Error(path, expected, "unresolved type variable"@),
        TyV::Fun(_, _) => IStep::Error(path, expected, got),
        TyV::Tuple(ts) => match v {
            ValueV::Tuple(items) => if items.len() != ts.len() {
                IStep::Error(path, expected, "tuple with "@ + digits(items.len()) + " items"@)
            } else {
                IStep::Expand(Assemble::Tuple, Seq::new(items.len(), |i: int| (items[i], ts[i], path.push(index_segment(i as nat)))))
            },
            _ => IStep::Error(path, expected, got),
        },
        TyV::Record(fs) => match v {
            ValueV::Dict(es) => if es.len() != fs.len() {
                IStep::Error(path, expected, "record with "@ + digits(es.len()) + " fields"@)
            } else {
                match first_unavailable(es, fs) {
                    Some(k) => IStep::Error(path.push(field_segment(fs[k].0)), type_text(fs[k].1), "missing field"@),
                    None => IStep::Expand(
                        Assemble::Dict(fs.map_values(|f: (Seq<char>, TyV)| f.0)),
                        Seq::new(fs.len(), |i: int| (dict_get(es, fs[i].0).unwrap(), fs[i].1, path.push(field_segment(fs[i].0)))),
                    ),
                }
            },
            _ => IStep::Error(path, expected, got),
        },
        _ => {
            let (head, args) = decompose(t);
            match head {
                TyV::Con(name) => named_istep(v, name, args, expected, path, tab),
                _ => IStep::Error(path, expected, got),
            }
        },
    }
}

/// The first step of storing `v` as the constructor `name` applied to
/// `args`.
pub open spec fn named_istep(v: ValueV, name: Seq<char>, args: Seq<TyV>, expected: Seq<char>, path: Seq<Seq<char>>, tab: Seq<AdtV>) -> IStep {
    let got = kind_v(v)@;
    let is_list = name == "List"@ && args.len() == 1;
    if args.len() == 0 && scalar_leaf(name, v) is Some {
        IStep::Leaf(Shape::Leaf(scalar_leaf(name, v)->Some_0))
    } else if is_list && args[0] == TyV::Con(u8_name()) && v is Bytes {
        IStep::Leaf(Shape::Bytes(v->Bytes_0))
    } else if is_list && args[0] != TyV::Con(u8_name()) && v is List {
        let items = v->List_0;
        IStep::Expand(Assemble::List, Seq::new(items.len(), |i: int| (items[i], args[0], path.push(index_segment(i as nat)))))
    } else if name == "Dict"@ && args.len() == 1 && v is Dict {
        let es = v->Dict_0;
        IStep::Expand(
            Assemble::Dict(es.map_values(|x: (Seq<char>, ValueV)| x.0)),
            Seq::new(es.len(), |i: int| (es[i].1, args[0], path.push(field_segment(es[i].0)))),
        )
    } else if v is Adt {
        let tag = v->Adt_0;
        let fields = v->Adt_1;
        match resolve(tab, name, args, tag) {
            Err(g) => IStep::Error(path, name, g),
            Ok(r) => if fields.len() != r.1.len() {
                IStep::Error(path, expected, "constructor "@ + tag + " with "@ + digits(fields.len()) + " fields"@)
            } else {
                let local = local_name_spec(r.0);
                IStep::Expand(
                    Assemble::Adt(local),
                    Seq::new(fields.len(), |i: int| (fields[i], r.1[i], path.push(field_segment(local) + index_segment(i as nat)))),
                )
            },
        }
    } else {
        IStep::Error(path, expected, got)
    }
}

/// The shape of the object that assembling the parts' shapes `ss` gives.
pub open spec fn assemble_shape(k: Assemble, ss: Seq<Shape>) -> Shape {
    match k {
        Assemble::Tuple => Shape::Tuple(ss),
        Assemble::List => Shape::List(ss),
        Assemble::Dict(names) => Shape::Dict(dict_of(Seq::new(ss.len(), |i: int| (names[i], ss[i])))),
        Assemble::Adt(tag) => Shape::Adt(tag, ss),
    }
}

/// The outcome of storing a value.
pub enum Import {
    Built(Shape),
    Fail(Seq<Seq<char>>, Seq<char>, Seq<char>),
    Diverges,
}

pub enum ImportAll {
    Built(Seq<Shape>),
    Fail(Seq<Seq<char>>, Seq<char>, Seq<char>),
    Diverges,
}

/// Storing `v` as `t` at `path`, nesting at most `fuel` deep.
pub open spec fn import_at(v: ValueV, t: TyV, path: Seq<Seq<char>>, tab: Seq<AdtV>, fuel: nat) -> Import
    decreases fuel, 0nat,
{
    if fuel == 0 {
        Import::Diverges
    } else {
        match istep(v, t, path, tab) {
            IStep::Leaf(s) => Import::Built(s),
            IStep::Error(p, x, g) => Import::Fail(p, x, g),
            IStep::Expand(k, parts) => match import_all(parts, tab, (fuel - 1) as nat) {
                ImportAll::Built(ss) => Import::Built(assemble_shape(k, ss)),
                ImportAll::Fail(p, x, g) => Import::Fail(p, x, g),
                ImportAll::Diverges => Import::Diverges,
            },
        }
    }
}

/// Storing `parts` in order, stopping at the first that fails.
pub open spec fn import_all(parts: Seq<IPart>, tab: Seq<AdtV>, fuel: nat) -> ImportAll
    decreases fuel, parts.len() + 1,
{
    if parts.len() == 0 {
        ImportAll::Built(Seq::empty())
    } else {
        match import_at(parts[0].0, parts[0].1, parts[0].2, tab, fuel) {
            Import::Built(s) => match import_all(parts.drop_first(), tab, fuel) {
                ImportAll::Built(ss) => ImportAll::Built(seq![s] + ss),
                other => other,
            },
            Import::Fail(p, x, g) => ImportAll::Fail(p, x, g),
            Import::Diverges => ImportAll::Diverges,
        }
    }
}

/// An object without parts.
pub open spec fn plain(c: CellView) -> bool {
    match c {
        CellView::Bool(_) | CellView::U8(_) | CellView::U16(_) | CellView::U32(_) | CellView::U64(_) | CellView::I8(_)
        | CellView::I16(_) | CellView::I32(_) | CellView::I64(_) | CellView::F32(_) | CellView::F64(_)
        | CellView::String(_) | CellView::Uuid(_) | CellView::Hash(_) | CellView::DateTime(_, _) => true,
        _ => false,
    }
}

/// The object at `p` in `h` has the shape `s`: the same content, with each
/// part holding the shape of the value's part.
pub open spec fn shape_at(h: Heap, p: InternalPtr, s: Shape) -> bool
    decreases s,
{
    h.valid_ptr(p) && match s {
        Shape::Leaf(c) => plain(c) && h.cell_at(p) == c,
        Shape::Bytes(b) => lists(h, h.cell_at(p), byte_elements(b)),
        Shape::Tuple(ss) => h.cell_at(p) is Tuple && h.cell_at(p)->Tuple_0.len() == ss.len()
            && forall|i: int| 0 <= i < ss.len() ==> shape_at(h, #[trigger] h.cell_at(p)->Tuple_0[i], ss[i]),
        Shape::List(ss) => exists|qs: Seq<InternalPtr>| qs.len() == ss.len() && lists(h, h.cell_at(p), ptr_elements(qs))
            && forall|i: int| 0 <= i < ss.len() ==> shape_at(h, #[trigger] qs[i], ss[i]),
        Shape::Dict(es) => h.cell_at(p) is Dict && h.cell_at(p)->Dict_0.len() == es.len()
            && forall|i: int| 0 <= i < es.len() ==> (#[trigger] h.cell_at(p)->Dict_0[i]).0 == es[i].0
                && shape_at(h, h.cell_at(p)->Dict_0[i].1, es[i].1),
        Shape::Adt(tag, ss) => h.cell_at(p) is Adt && h.cell_at(p)->Adt_0 == tag && h.cell_at(p)->Adt_1.len() == ss.len()
            && forall|i: int| 0 <= i < ss.len() ==> shape_at(h, #[trigger] h.cell_at(p)->Adt_1[i], ss[i]),
    }
}


/// The objects that a list reached from a moved object names were moved too.
proof fn lemma_walk_domain(a: Heap, b: Heap, f: Map<InternalPtr, InternalPtr>, fresh: Set<int>, p: InternalPtr, n: nat)
    requires
        evolves_except(a, b, f, fresh),
        f.contains_key(p),
    ensures
        walk(a, a.cell_at(p), n) matches ListWalk::Done(s) ==> forall|k: int| 0 <= k < s.len() && (#[trigger] s[k]) is InternalPtr ==> f.contains_key(s[k]->InternalPtr_0),
    decreases n,
{
    let c = a.cell_at(p);
    match c {
        CellView::Cons(head, tail) => {
            assert(children(c)[0] == head && children(c)[1] == tail);
            assert(f.contains_key(children(c)[0]));
            assert(f.contains_key(children(c)[1]));
            if n > 0 {
                lemma_walk_domain(a, b, f, fresh, tail, (n - 1) as nat);
                if let ListWalk::Done(s) = walk(a, c, n) {
                    let rest = walk(a, a.cell_at(tail), (n - 1) as nat)->Done_0;
                    assert(s == seq![ListElement::InternalPtr(head)] + rest);
                    assert forall|k: int| 0 <= k < s.len() && (#[trigger] s[k]) is InternalPtr implies f.contains_key(s[k]->InternalPtr_0) by {
                        if k > 0 {
                            assert(s[k] == rest[k - 1]);
                        }
                    }
                }
            }
        },
        CellView::ListSlice { start, end, elements } => {
            assert(children(c)[0] == elements);
            assert(f.contains_key(children(c)[0]));
            let bc = a.cell_at(elements);
            if let CellView::Data(v) = bc {
                if let ListWalk::Done(s) = walk(a, c, n) {
                    assert forall|k: int| 0 <= k < s.len() && (#[trigger] s[k]) is InternalPtr implies f.contains_key(s[k]->InternalPtr_0) by {
                        assert(s[k] == ListElement::InternalPtr(v[start + k]));
                        assert(children(bc)[start + k] == v[start + k]);
                    }
                }
            }
        },
        _ => {},
    }
}

/// A list reached from a moved object lists the moved elements.
proof fn lemma_lists_evolves(a: Heap, b: Heap, f: Map<InternalPtr, InternalPtr>, fresh: Set<int>, p: InternalPtr, elems: Seq<ListElement>)
    requires
        evolves_except(a, b, f, fresh),
        f.contains_key(p),
        lists(a, a.cell_at(p), elems),
    ensures
        lists(b, b.cell_at(f[p]), map_elements(elems, f)),
        forall|k: int| 0 <= k < elems.len() && (#[trigger] elems[k]) is InternalPtr ==> f.contains_key(elems[k]->InternalPtr_0),
{
    let c = a.cell_at(p);
    let n = choose|n: nat| !(#[trigger] walk(a, c, n) is Diverges);
    lemma_list_walk(a, c, n);
    lemma_walk_evolves(a, b, f, fresh, p, n);
    lemma_walk_domain(a, b, f, fresh, p, n);
    assert(!(walk(b, b.cell_at(f[p]), n) is Diverges));
    lemma_list_walk(b, b.cell_at(f[p]), n);
}

/// Moving objects keeps the shape of each moved object.
pub proof fn lemma_shape_evolves(a: Heap, b: Heap, f: Map<InternalPtr, InternalPtr>, fresh: Set<int>, p: InternalPtr, s: Shape)
    requires
        evolves_except(a, b, f, fresh),
        f.contains_key(p),
        shape_at(a, p, s),
    ensures
        shape_at(b, f[p], s),
    decreases s,
{
    let c = a.cell_at(p);
    assert(b.cell_at(f[p]) == map_cell(c, f));
    match s {
        Shape::Leaf(x) => {},
        Shape::Bytes(bs) => {
            lemma_lists_evolves(a, b, f, fresh, p, byte_elements(bs));
            assert(map_elements(byte_elements(bs), f) =~= byte_elements(bs));
        },
        Shape::Tuple(ss) => {
            let ps = c->Tuple_0;
            assert forall|i: int| 0 <= i < ss.len() implies shape_at(b, #[trigger] b.cell_at(f[p])->Tuple_0[i], ss[i]) by {
                assert(children(c)[i] == ps[i]);
                assert(f.contains_key(children(c)[i]));
                lemma_shape_evolves(a, b, f, fresh, ps[i], ss[i]);
            }
        },
        Shape::List(ss) => {
            let qs = choose|qs: Seq<InternalPtr>| qs.len() == ss.len() && lists(a, c, ptr_elements(qs))
                && forall|i: int| 0 <= i < ss.len() ==> shape_at(a, #[trigger] qs[i], ss[i]);
            lemma_lists_evolves(a, b, f, fresh, p, ptr_elements(qs));
            let qs2 = qs.map_values(|q: InternalPtr| f[q]);
            assert(map_elements(ptr_elements(qs), f) =~= ptr_elements(qs2));
            assert forall|i: int| 0 <= i < ss.len() implies shape_at(b, #[trigger] qs2[i], ss[i]) by {
                assert(ptr_elements(qs)[i] == ListElement::InternalPtr(qs[i]));
                lemma_shape_evolves(a, b, f, fresh, qs[i], ss[i]);
            }
        },
        Shape::Dict(es) => {
            let e = c->Dict_0;
            assert forall|i: int| 0 <= i < es.len() implies (#[trigger] b.cell_at(f[p])->Dict_0[i]).0 == es[i].0
                && shape_at(b, b.cell_at(f[p])->Dict_0[i].1, es[i].1) by {
                assert(children(c)[i] == e[i].1);
                assert(f.contains_key(children(c)[i]));
                lemma_shape_evolves(a, b, f, fresh, e[i].1, es[i].1);
            }
        },
        Shape::Adt(tag, ss) => {
            let ps = c->Adt_1;
            assert forall|i: int| 0 <= i < ss.len() implies shape_at(b, #[trigger] b.cell_at(f[p])->Adt_1[i], ss[i]) by {
                assert(children(c)[i] == ps[i]);
                assert(f.contains_key(children(c)[i]));
                lemma_shape_evolves(a, b, f, fresh, ps[i], ss[i]);
            }
        },
    }
}


/// Setting a field in two dictionaries with the same names, whose values
/// have the shapes of each other, keeps that so.
proof fn lemma_insert_parallel(h: Heap, e: Seq<(Seq<char>, InternalPtr)>, d: Seq<(Seq<char>, Shape)>, k: Seq<char>, x: InternalPtr, y: Shape)
    requires
        e.len() == d.len(),
        forall|i: int| 0 <= i < e.len() ==> (#[trigger] e[i]).0 == d[i].0 && shape_at(h, e[i].1, d[i].1),
        shape_at(h, x, y),
    ensures
        dict_insert(e, k, x).len() == dict_insert(d, k, y).len(),
        forall|i: int| 0 <= i < dict_insert(e, k, x).len() ==> (#[trigger] dict_insert(e, k, x)[i]).0 == dict_insert(d, k, y)[i].0
            && shape_at(h, dict_insert(e, k, x)[i].1, dict_insert(d, k, y)[i].1),
    decreases e.len(),
{
    if e.len() > 0 {
        assert(e[0].0 == d[0].0);
        if e[0].0 != k && !text_lt(k, e[0].0) {
            lemma_insert_parallel(h, e.drop_first(), d.drop_first(), k, x, y);
            let ei = dict_insert(e, k, x);
            let di = dict_insert(d, k, y);
            assert forall|i: int| 0 <= i < ei.len() implies (#[trigger] ei[i]).0 == di[i].0 && shape_at(h, ei[i].1, di[i].1) by {
                if i > 0 {
                    assert(ei[i] == dict_insert(e.drop_first(), k, x)[i - 1]);
                    assert(di[i] == dict_insert(d.drop_first(), k, y)[i - 1]);
                }
            }
        } else {
            let ei = dict_insert(e, k, x);
            let di = dict_insert(d, k, y);
            assert forall|i: int| 0 <= i < ei.len() implies (#[trigger] ei[i]).0 == di[i].0 && shape_at(h, ei[i].1, di[i].1) by {
                if e[0].0 != k && i > 0 {
                    assert(ei[i] == e[i - 1]);
                    assert(di[i] == d[i - 1]);
                }
            }
        }
    } else {
        assert(dict_insert(e, k, x)[0] == (k, x));
        assert(dict_insert(d, k, y)[0] == (k, y));
    }
}

/// A dictionary made from names and objects matches the dictionary made
/// from the same names and the objects' shapes.
pub proof fn lemma_dict_of_parallel(h: Heap, keys: Seq<Seq<char>>, ptrs: Seq<InternalPtr>, ss: Seq<Shape>)
    requires
        keys.len() == ptrs.len(),
        keys.len() == ss.len(),
        forall|i: int| 0 <= i < ss.len() ==> shape_at(h, #[trigger] ptrs[i], ss[i]),
    ensures
        ({
            let e = dict_of(Seq::new(keys.len(), |i: int| (keys[i], ptrs[i])));
            let d = dict_of(Seq::new(keys.len(), |i: int| (keys[i], ss[i])));
            &&& e.len() == d.len()
            &&& forall|i: int| 0 <= i < e.len() ==> (#[trigger] e[i]).0 == d[i].0 && shape_at(h, e[i].1, d[i].1)
        }),
    decreases keys.len(),
{
    let pe = Seq::new(keys.len(), |i: int| (keys[i], ptrs[i]));
    let pd = Seq::new(keys.len(), |i: int| (keys[i], ss[i]));
    if keys.len() > 0 {
        let n = keys.len() - 1;
        lemma_dict_of_parallel(h, keys.drop_last(), ptrs.drop_last(), ss.drop_last());
        assert(pe.drop_last() =~= Seq::new(keys.drop_last().len(), |i: int| (keys.drop_last()[i], ptrs.drop_last()[i])));
        assert(pd.drop_last() =~= Seq::new(keys.drop_last().len(), |i: int| (keys.drop_last()[i], ss.drop_last()[i])));
        lemma_insert_parallel(h, dict_of(pe.drop_last()), dict_of(pd.drop_last()), keys[n], ptrs[n], ss[n]);
    }
}

/// How deeply a value nests.
pub open spec fn vdepth(v: ValueV) -> nat
    decreases v,
{
    match v {
        ValueV::Tuple(xs) => 1 + depth_all(xs),
        ValueV::List(xs) => 1 + depth_all(xs),
        ValueV::Dict(es) => 1 + depth_entries(es),
        ValueV::Adt(_, xs) => 1 + depth_all(xs),
        _ => 1,
    }
}

pub open spec fn depth_all(xs: Seq<ValueV>) -> nat
    decreases xs,
{
    if xs.len() == 0 {
        0
    } else {
        let a = vdepth(xs[0]);
        let b = depth_all(xs.drop_first());
        if a > b { a } else { b }
    }
}

pub open spec fn depth_entries(es: Seq<(Seq<char>, ValueV)>) -> nat
    decreases es,
{
    if es.len() == 0 {
        0
    } else {
        let a = vdepth(es[0].1);
        let b = depth_entries(es.drop_first());
        if a > b { a } else { b }
    }
}

proof fn lemma_depth_all(xs: Seq<ValueV>, i: int)
    requires
        0 <= i < xs.len(),
    ensures
        vdepth(xs[i]) <= depth_all(xs),
    decreases xs.len(),
{
    if i > 0 {
        lemma_depth_all(xs.drop_first(), i - 1);
        assert(xs.drop_first()[i - 1] == xs[i]);
    }
}

proof fn lemma_depth_entries(es: Seq<(Seq<char>, ValueV)>, i: int)
    requires
        0 <= i < es.len(),
    ensures
        vdepth(es[i].1) <= depth_entries(es),
    decreases es.len(),
{
    if i > 0 {
        lemma_depth_entries(es.drop_first(), i - 1);
        assert(es.drop_first()[i - 1] == es[i]);
    }
}

/// A value that `dict_get` finds is nested no deeper than the entries.
proof fn lemma_depth_get(es: Seq<(Seq<char>, ValueV)>, k: Seq<char>)
    requires
        dict_get(es, k) is Some,
    ensures
        vdepth(dict_get(es, k).unwrap()) <= depth_entries(es),
    decreases es.len(),
{
    if es[0].0 == k {
        lemma_depth_entries(es, 0);
    } else {
        lemma_depth_get(es.drop_first(), k);
    }
}

/// The parts of a step nest less deeply than the value.
proof fn lemma_istep_depth(v: ValueV, t: TyV, path: Seq<Seq<char>>, tab: Seq<AdtV>)
    ensures
        istep(v, t, path, tab) matches IStep::Expand(_, parts) ==> forall|i: int| 0 <= i < parts.len() ==> vdepth(#[trigger] parts[i].0) < vdepth(v),
{
    if let IStep::Expand(_, parts) = istep(v, t, path, tab) {
        assert forall|i: int| 0 <= i < parts.len() implies vdepth(#[trigger] parts[i].0) < vdepth(v) by {
            match v {
                ValueV::Tuple(xs) => lemma_depth_all(xs, i),
                ValueV::List(xs) => lemma_depth_all(xs, i),
                ValueV::Adt(_, xs) => lemma_depth_all(xs, i),
                ValueV::Dict(es) => {
                    match t {
                        TyV::Record(fs) => {
                            lemma_first_available(es, fs, i);
                            lemma_depth_get(es, fs[i].0);
                        },
                        _ => lemma_depth_entries(es, i),
                    }
                },
                _ => {},
            }
        }
    }
}

/// With no field unavailable, each field of the type finds a value.
proof fn lemma_first_available(es: Seq<(Seq<char>, ValueV)>, fs: Seq<(Seq<char>, TyV)>, i: int)
    requires
        first_unavailable(es, fs) is None,
        0 <= i < fs.len(),
    ensures
        !unavailable(es, fs, i),
    decreases fs.len(),
{
    if i < fs.len() - 1 {
        let t = fs.drop_last();
        lemma_first_available(es, t, i);
        assert(t[i] == fs[i]);
        if exists|j: int| 0 <= j < i && #[trigger] fs[j].0 == fs[i].0 {
            let j = choose|j: int| 0 <= j < i && #[trigger] fs[j].0 == fs[i].0;
            assert(t[j] == fs[j]);
        }
    }
}

/// Storing a value ends within as much nesting as the value has.
proof fn lemma_import_ends(v: ValueV, t: TyV, path: Seq<Seq<char>>, tab: Seq<AdtV>, fuel: nat)
    requires
        fuel >= vdepth(v),
    ensures
        !(import_at(v, t, path, tab, fuel) is Diverges),
    decreases fuel, 0nat,
{
    lemma_istep_depth(v, t, path, tab);
    if let IStep::Expand(_, parts) = istep(v, t, path, tab) {
        lemma_import_all_ends(parts, tab, (fuel - 1) as nat);
    }
}

proof fn lemma_import_all_ends(parts: Seq<IPart>, tab: Seq<AdtV>, fuel: nat)
    requires
        forall|i: int| 0 <= i < parts.len() ==> vdepth(#[trigger] parts[i].0) <= fuel,
    ensures
        !(import_all(parts, tab, fuel) is Diverges),
    decreases fuel, parts.len() + 1,
{
    if parts.len() > 0 {
        lemma_import_ends(parts[0].0, parts[0].1, parts[0].2, tab, fuel);
        assert forall|i: int| 0 <= i < parts.drop_first().len() implies vdepth(#[trigger] parts.drop_first()[i].0) <= fuel by {
            assert(parts.drop_first()[i] == parts[i + 1]);
        }
        lemma_import_all_ends(parts.drop_first(), tab, fuel);
    }
}


/// An item of pending work: a part to store (with the nesting it may still
/// use), or the allocation of an object holding the last `n` objects.
pub enum IWork {
    Convert(IPart, nat),
    Assemble(Assemble, nat),
}

/// What doing the work `w` from its last item down does to the shapes `ss`
/// of the objects stored so far.
pub enum IRun {
    Shapes(Seq<Shape>),
    Fail(Seq<Seq<char>>, Seq<char>, Seq<char>),
    Stuck,
}

pub open spec fn irun(tab: Seq<AdtV>, w: Seq<IWork>, ss: Seq<Shape>) -> IRun
    decreases w.len(),
{
    if w.len() == 0 {
        IRun::Shapes(ss)
    } else {
        let rest = w.drop_last();
        match w.last() {
            IWork::Convert(p, f) => match import_at(p.0, p.1, p.2, tab, f) {
                Import::Built(s) => irun(tab, rest, ss.push(s)),
                Import::Fail(a, b, c) => IRun::Fail(a, b, c),
                Import::Diverges => IRun::Stuck,
            },
            IWork::Assemble(k, n) => if ss.len() < n {
                IRun::Stuck
            } else {
                irun(tab, rest, ss.take(ss.len() - n).push(assemble_shape(k, ss.skip(ss.len() - n))))
            },
        }
    }
}

/// The parts as pushed onto the work: the first part last.
pub open spec fn ipushed(parts: Seq<IPart>, f: nat) -> Seq<IWork> {
    Seq::new(parts.len(), |j: int| IWork::Convert(parts[parts.len() - 1 - j], f))
}

/// How many steps storing a part takes at most.
pub open spec fn icost(p: IPart, tab: Seq<AdtV>, f: nat) -> nat
    decreases f, 0nat,
{
    if f == 0 {
        1
    } else {
        match istep(p.0, p.1, p.2, tab) {
            IStep::Expand(_, parts) => 2 + icost_all(parts, tab, (f - 1) as nat),
            _ => 1,
        }
    }
}

pub open spec fn icost_all(parts: Seq<IPart>, tab: Seq<AdtV>, f: nat) -> nat
    decreases f, parts.len() + 1,
{
    if parts.len() == 0 {
        0
    } else {
        icost(parts[0], tab, f) + icost_all(parts.drop_first(), tab, f)
    }
}

pub open spec fn iwork_cost(tab: Seq<AdtV>, w: Seq<IWork>) -> nat
    decreases w.len(),
{
    if w.len() == 0 {
        0
    } else {
        iwork_cost(tab, w.drop_last()) + match w.last() {
            IWork::Convert(p, f) => icost(p, tab, f),
            IWork::Assemble(_, _) => 1,
        }
    }
}

proof fn lemma_irun_top(tab: Seq<AdtV>, w: Seq<IWork>, x: IWork, ss: Seq<Shape>)
    ensures
        irun(tab, w.push(x), ss) == match x {
            IWork::Convert(p, f) => match import_at(p.0, p.1, p.2, tab, f) {
                Import::Built(s) => irun(tab, w, ss.push(s)),
                Import::Fail(a, b, c) => IRun::Fail(a, b, c),
                Import::Diverges => IRun::Stuck,
            },
            IWork::Assemble(k, n) => if ss.len() < n {
                IRun::Stuck
            } else {
                irun(tab, w, ss.take(ss.len() - n).push(assemble_shape(k, ss.skip(ss.len() - n))))
            },
        },
        iwork_cost(tab, w.push(x)) == iwork_cost(tab, w) + match x {
            IWork::Convert(p, f) => icost(p, tab, f),
            IWork::Assemble(_, _) => 1,
        },
{
    assert(w.push(x).drop_last() =~= w);
    assert(w.push(x).last() == x);
}

proof fn lemma_irun_pushed(tab: Seq<AdtV>, x: Seq<IWork>, parts: Seq<IPart>, f: nat, ss: Seq<Shape>)
    ensures
        irun(tab, x + ipushed(parts, f), ss) == match import_all(parts, tab, f) {
            ImportAll::Built(vs) => irun(tab, x, ss + vs),
            ImportAll::Fail(a, b, c) => IRun::Fail(a, b, c),
            ImportAll::Diverges => IRun::Stuck,
        },
    decreases parts.len(),
{
    if parts.len() == 0 {
        assert(x + ipushed(parts, f) =~= x);
        assert(ss + Seq::<Shape>::empty() =~= ss);
    } else {
        assert(ipushed(parts, f) =~= ipushed(parts.drop_first(), f).push(IWork::Convert(parts[0], f)));
        let w = x + ipushed(parts, f);
        assert(w.drop_last() =~= x + ipushed(parts.drop_first(), f));
        assert(w.last() == IWork::Convert(parts[0], f));
        if let Import::Built(s) = import_at(parts[0].0, parts[0].1, parts[0].2, tab, f) {
            lemma_irun_pushed(tab, x, parts.drop_first(), f, ss.push(s));
            if let ImportAll::Built(vs) = import_all(parts.drop_first(), tab, f) {
                assert(ss.push(s) + vs =~= ss + (seq![s] + vs));
            }
        }
    }
}

proof fn lemma_icost_pushed(tab: Seq<AdtV>, x: Seq<IWork>, parts: Seq<IPart>, f: nat)
    ensures
        iwork_cost(tab, x + ipushed(parts, f)) == iwork_cost(tab, x) + icost_all(parts, tab, f),
    decreases parts.len(),
{
    if parts.len() == 0 {
        assert(x + ipushed(parts, f) =~= x);
    } else {
        assert(ipushed(parts, f) =~= ipushed(parts.drop_first(), f).push(IWork::Convert(parts[0], f)));
        let w = x + ipushed(parts, f);
        assert(w.drop_last() =~= x + ipushed(parts.drop_first(), f));
        lemma_icost_pushed(tab, x, parts.drop_first(), f);
    }
}

proof fn lemma_import_all_len(parts: Seq<IPart>, tab: Seq<AdtV>, f: nat)
    ensures
        import_all(parts, tab, f) matches ImportAll::Built(vs) ==> vs.len() == parts.len(),
    decreases parts.len(),
{
    if parts.len() > 0 {
        lemma_import_all_len(parts.drop_first(), tab, f);
    }
}

/// What storing the part at the top of the work does to the outcome of the
/// work, with less work left.
proof fn lemma_iconvert_progress(tab: Seq<AdtV>, base: Seq<IWork>, part: IPart, f: nat, ss: Seq<Shape>, target: IRun)
    requires
        irun(tab, base.push(IWork::Convert(part, f)), ss) == target,
        !(target is Stuck),
    ensures
        f > 0,
        match istep(part.0, part.1, part.2, tab) {
            IStep::Leaf(s) => irun(tab, base, ss.push(s)) == target && iwork_cost(tab, base) < iwork_cost(tab, base.push(IWork::Convert(part, f))),
            IStep::Error(p, x, g) => target == IRun::Fail(p, x, g),
            IStep::Expand(k, parts) => irun(tab, base.push(IWork::Assemble(k, parts.len())) + ipushed(parts, (f - 1) as nat), ss) == target
                && iwork_cost(tab, base.push(IWork::Assemble(k, parts.len())) + ipushed(parts, (f - 1) as nat)) < iwork_cost(
                    tab,
                    base.push(IWork::Convert(part, f)),
                ),
        },
{
    lemma_irun_top(tab, base, IWork::Convert(part, f), ss);
    if let IStep::Expand(k, parts) = istep(part.0, part.1, part.2, tab) {
        let g = (f - 1) as nat;
        let x = base.push(IWork::Assemble(k, parts.len()));
        lemma_irun_pushed(tab, x, parts, g, ss);
        lemma_import_all_len(parts, tab, g);
        lemma_icost_pushed(tab, x, parts, g);
        lemma_irun_top(tab, base, IWork::Assemble(k, parts.len()), ss);
        if let ImportAll::Built(vs) = import_all(parts, tab, g) {
            lemma_irun_top(tab, base, IWork::Assemble(k, parts.len()), ss + vs);
            assert((ss + vs).take((ss + vs).len() - parts.len()) =~= ss);
            assert((ss + vs).skip((ss + vs).len() - parts.len()) =~= vs);
        }
    }
}


/// Pending work of the writer: store a value, or allocate the object
/// holding the last objects stored.
pub enum ImportWork {
    Convert { value: Value, expected: ConvType, path: ConversionPath },
    Tuple(usize),
    List(usize),
    Dict(Vec<String>),
    Adt { tag: String, fields: usize },
}

pub open spec fn iconvert_part(w: ImportWork) -> Option<IPart> {
    match w {
        ImportWork::Convert { value, expected, path } => Some((value_view(value), ty_view(expected), path@)),
        _ => None,
    }
}

pub open spec fn iassemble_of(w: ImportWork) -> Option<(Assemble, nat)> {
    match w {
        ImportWork::Convert { .. } => None,
        ImportWork::Tuple(n) => Some((Assemble::Tuple, n as nat)),
        ImportWork::List(n) => Some((Assemble::List, n as nat)),
        ImportWork::Dict(names) => Some((Assemble::Dict(names@.map_values(|s: String| s@)), names@.len())),
        ImportWork::Adt { tag, fields } => Some((Assemble::Adt(tag@), fields as nat)),
    }
}

/// What the writer does with one value first.
pub enum ImportStep {
    Scalar(Cell),
    Bytes(Vec<u8>),
    Fail(EngineError),
    /// The allocation step, and the parts to store, the last part first.
    Expand(ImportWork, Vec<ImportWork>),
}

pub open spec fn does_istep(r: ImportStep, s: IStep) -> bool {
    match s {
        IStep::Leaf(Shape::Leaf(c)) => r matches ImportStep::Scalar(x) && x@ == c,
        IStep::Leaf(Shape::Bytes(b)) => r matches ImportStep::Bytes(x) && x@ == b,
        IStep::Leaf(_) => false,
        IStep::Error(p, x, g) => r matches ImportStep::Fail(e) && is_conversion_error(e, p, x, g),
        IStep::Expand(k, parts) => r matches ImportStep::Expand(a, kids) && iassemble_of(a) == Some((k, parts.len()))
            && kids@.len() == parts.len()
            && forall|j: int| 0 <= j < parts.len() ==> iconvert_part(#[trigger] kids@[j]) == Some(parts[parts.len() - 1 - j]),
    }
}

/// Stores of `items`, the last first, with the types of the same index and
/// the paths `[i]`.
fn indexed_items(items: Vec<Value>, ts: &Vec<ConvType>, one: Option<&ConvType>, path: &ConversionPath) -> (kids: Vec<ImportWork>)
    requires
        one is None ==> items@.len() == ts@.len(),
    ensures
        kids@.len() == items@.len(),
        forall|j: int| 0 <= j < items@.len() ==> iconvert_part(#[trigger] kids@[j]) == Some(
            (
                value_view(items@[items@.len() - 1 - j]),
                match one {
                    Some(t) => ty_view(*t),
                    None => ty_view(ts@[items@.len() - 1 - j]),
                },
                path@.push(index_segment((items@.len() - 1 - j) as nat)),
            ),
        ),
{
    let ghost orig = items@;
    let n = items.len();
    let mut items = items;
    let mut kids: Vec<ImportWork> = Vec::new();
    while items.len() > 0
        invariant
            items@.len() + kids@.len() == n,
            orig.len() == n,
            one is None ==> n == ts@.len(),
            forall|i: int| 0 <= i < items@.len() ==> items@[i] == orig[i],
            forall|j: int| 0 <= j < kids@.len() ==> iconvert_part(#[trigger] kids@[j]) == Some(
                (
                    value_view(orig[n - 1 - j]),
                    match one {
                        Some(t) => ty_view(*t),
                        None => ty_view(ts@[n - 1 - j]),
                    },
                    path@.push(index_segment((n - 1 - j) as nat)),
                ),
            ),
        decreases items@.len(),
    {
        let i = items.len() - 1;
        let v = match items.pop() {
            Some(v) => v,
            None => {
                return kids;
            },
        };
        let t = match one {
            Some(t) => t.copy(),
            None => ts[i].copy(),
        };
        kids.push(ImportWork::Convert { value: v, expected: t, path: path.child(index_text(i)) });
    }
    kids
}

/// A copy of `v`.
fn copy_value(v: &Value) -> (r: Value)
    ensures
        value_view(r) == value_view(*v),
    decreases v,
{
    match v {
        Value::Bool(x) => Value::Bool(*x),
        Value::U8(x) => Value::U8(*x),
        Value::U16(x) => Value::U16(*x),
        Value::U32(x) => Value::U32(*x),
        Value::U64(x) => Value::U64(*x),
        Value::I8(x) => Value::I8(*x),
        Value::I16(x) => Value::I16(*x),
        Value::I32(x) => Value::I32(*x),
        Value::I64(x) => Value::I64(*x),
        Value::F32(x) => Value::F32(*x),
        Value::F64(x) => Value::F64(*x),
        Value::Char(x) => Value::Char(*x),
        Value::String(x) => Value::String(x.clone()),
        Value::Uuid(x) => Value::Uuid(*x),
        Value::Hash(x) => Value::Hash(*x),
        Value::DateTime { secs, nanos } => Value::DateTime { secs: *secs, nanos: *nanos },
        Value::Tuple(xs) => Value::Tuple(copy_values(xs)),
        Value::List(xs) => Value::List(copy_values(xs)),
        Value::Bytes(b) => Value::Bytes(b.clone()),
        Value::Dict(es) => {
            let mut out: Vec<(String, Value)> = Vec::new();
            let mut i: usize = 0;
            proof {
                lemma_entries_view(es@);
            }
            while i < es.len()
                invariant
                    0 <= i <= es@.len(),
                    out@.len() == i,
                    entries_view(es@).len() == es@.len(),
                    forall|k: int| 0 <= k < es@.len() ==> #[trigger] entries_view(es@)[k] == (es@[k].0@, value_view(es@[k].1)),
                    forall|k: int| 0 <= k < i ==> (#[trigger] out@[k]).0@ == es@[k].0@ && value_view(out@[k].1) == value_view(es@[k].1),
                    decreases_to!(*v => es),
                decreases es@.len() - i,
            {
                proof {
                    assert(decreases_to!(es => es[i as int]));
                }
                let c = copy_value(&es[i].1);
                out.push((es[i].0.clone(), c));
                i += 1;
            }
            proof {
                lemma_entries_view(out@);
                assert(entries_view(out@) =~= entries_view(es@));
            }
            Value::Dict(out)
        },
        Value::Adt(n, xs) => Value::Adt(n.clone(), copy_values(xs)),
    }
}

/// Copies of the values `xs`.
fn copy_values(xs: &Vec<Value>) -> (r: Vec<Value>)
    ensures
        values_view(r@) == values_view(xs@),
    decreases xs,
{
    let mut out: Vec<Value> = Vec::new();
    let mut i: usize = 0;
    proof {
        lemma_values_view(xs@);
    }
    while i < xs.len()
        invariant
            0 <= i <= xs@.len(),
            out@.len() == i,
            forall|k: int| 0 <= k < i ==> value_view(#[trigger] out@[k]) == value_view(xs@[k]),
        decreases xs@.len() - i,
    {
        proof {
            assert(decreases_to!(xs => xs[i as int]));
        }
        let c = copy_value(&xs[i]);
        out.push(c);
        i += 1;
    }
    proof {
        lemma_values_view(out@);
        lemma_values_view(xs@);
        assert(values_view(out@) =~= values_view(xs@));
    }
    out
}

proof fn lemma_kind(v: Value)
    ensures
        kind_v(value_view(v)) == value_kind(v),
{
}

/// The object that the scalar value `v` of the type named `name` is stored
/// as, if `v` is of that type.
fn scalar_cell(name: &str, v: &Value) -> (r: Option<Cell>)
    ensures
        match scalar_leaf(name@, value_view(*v)) {
            Some(c) => r matches Some(x) && x@ == c,
            None => r is None,
        },
{
    if same_text(name, "Bool") {
        match v { Value::Bool(x) => Some(Cell::Bool(*x)), _ => None }
    } else if same_text(name, "u8") {
        match v { Value::U8(x) => Some(Cell::U8(*x)), _ => None }
    } else if same_text(name, "u16") {
        match v { Value::U16(x) => Some(Cell::U16(*x)), _ => None }
    } else if same_text(name, "u32") {
        match v { Value::U32(x) => Some(Cell::U32(*x)), _ => None }
    } else if same_text(name, "u64") {
        match v { Value::U64(x) => Some(Cell::U64(*x)), _ => None }
    } else if same_text(name, "i8") {
        match v { Value::I8(x) => Some(Cell::I8(*x)), _ => None }
    } else if same_text(name, "i16") {
        match v { Value::I16(x) => Some(Cell::I16(*x)), _ => None }
    } else if same_text(name, "i32") {
        match v { Value::I32(x) => Some(Cell::I32(*x)), _ => None }
    } else if same_text(name, "i64") {
        match v { Value::I64(x) => Some(Cell::I64(*x)), _ => None }
    } else if same_text(name, "f32") {
        match v { Value::F32(x) => Some(Cell::F32(*x)), _ => None }
    } else if same_text(name, "f64") {
        match v { Value::F64(x) => Some(Cell::F64(*x)), _ => None }
    } else if same_text(name, "String") {
        match v { Value::String(x) => Some(Cell::String(x.clone())), _ => None }
    } else if same_text(name, "UUID") {
        match v { Value::Uuid(x) => Some(Cell::Uuid(*x)), _ => None }
    } else if same_text(name, "Hash") {
        match v { Value::Hash(x) => Some(Cell::Hash(*x)), _ => None }
    } else if same_text(name, "DateTime") {
        match v { Value::DateTime { secs, nanos } => Some(Cell::DateTime(*secs, *nanos)), _ => None }
    } else {
        None
    }
}

/// The position of the first field of `es` named `k`.
fn value_entry(es: &Vec<(String, Value)>, k: &str) -> (r: Option<usize>)
    ensures
        match r {
            Some(i) => i < es@.len() && dict_get(entries_view(es@), k@) == Some(value_view(es@[i as int].1)),
            None => dict_get(entries_view(es@), k@) is None,
        },
{
    let ghost d = entries_view(es@);
    proof {
        lemma_entries_view(es@);
    }
    let mut i: usize = 0;
    while i < es.len()
        invariant
            0 <= i <= es@.len(),
            d == entries_view(es@),
            d.len() == es@.len(),
            forall|j: int| 0 <= j < es@.len() ==> #[trigger] d[j] == (es@[j].0@, value_view(es@[j].1)),
            forall|j: int| 0 <= j < i ==> (#[trigger] d[j]).0 != k@,
        decreases es@.len() - i,
    {
        if same_text(es[i].0.as_str(), k) {
            proof {
                crate::exports::lemma_get_first(d, k@, i as int);
            }
            return Some(i);
        }
        i += 1;
    }
    proof {
        crate::exports::lemma_get_absent(d, k@);
    }
    None
}

/// The path segment `.tag[i]` as text.
fn field_index_text(tag: &str, i: usize) -> (s: String)
    ensures
        s@ == field_segment(tag@) + index_segment(i as nat),
{
    let mut out: Vec<char> = vec!['.'];
    let mut rest = chars_of(tag);
    out.append(&mut rest);
    out.push('[');
    push_decimal(&mut out, i as u64);
    out.push(']');
    proof {
        assert(out@ =~= field_segment(tag@) + index_segment(i as nat));
    }
    string_from_chars(&out)
}

/// Stores of the fields of a constructor `tag`, the last first, with the
/// types `ts` and the paths `.tag[i]`.
fn field_items(items: Vec<Value>, ts: &Vec<ConvType>, tag: &str, path: &ConversionPath) -> (kids: Vec<ImportWork>)
    requires
        items@.len() == ts@.len(),
    ensures
        kids@.len() == items@.len(),
        forall|j: int| 0 <= j < items@.len() ==> iconvert_part(#[trigger] kids@[j]) == Some(
            (
                value_view(items@[items@.len() - 1 - j]),
                ty_view(ts@[items@.len() - 1 - j]),
                path@.push(field_segment(tag@) + index_segment((items@.len() - 1 - j) as nat)),
            ),
        ),
{
    let ghost orig = items@;
    let n = items.len();
    let mut items = items;
    let mut kids: Vec<ImportWork> = Vec::new();
    while items.len() > 0
        invariant
            items@.len() + kids@.len() == n,
            orig.len() == n,
            n == ts@.len(),
            forall|i: int| 0 <= i < items@.len() ==> items@[i] == orig[i],
            forall|j: int| 0 <= j < kids@.len() ==> iconvert_part(#[trigger] kids@[j]) == Some(
                (value_view(orig[n - 1 - j]), ty_view(ts@[n - 1 - j]), path@.push(field_segment(tag@) + index_segment((n - 1 - j) as nat))),
            ),
        decreases items@.len(),
    {
        let i = items.len() - 1;
        let v = match items.pop() {
            Some(v) => v,
            None => {
                return kids;
            },
        };
        let seg = field_index_text(tag, i);
        kids.push(ImportWork::Convert { value: v, expected: ts[i].copy(), path: path.child(seg) });
    }
    kids
}

/// The names of the fields `es`, in order.
fn entry_names(es: &Vec<(String, Value)>) -> (names: Vec<String>)
    ensures
        names@.map_values(|s: String| s@) == entries_view(es@).map_values(|x: (Seq<char>, ValueV)| x.0),
{
    proof {
        lemma_entries_view(es@);
    }
    let mut names: Vec<String> = Vec::new();
    let mut i: usize = 0;
    while i < es.len()
        invariant
            0 <= i <= es@.len(),
            names@.len() == i,
            forall|j: int| 0 <= j < i ==> (#[trigger] names@[j])@ == es@[j].0@,
        decreases es@.len() - i,
    {
        names.push(es[i].0.clone());
        i += 1;
    }
    proof {
        assert(names@.map_values(|s: String| s@) =~= entries_view(es@).map_values(|x: (Seq<char>, ValueV)| x.0));
    }
    names
}

/// Stores of the field values of `es`, the last first, each of type `t`, at
/// the paths `.name`.
fn entry_items(es: Vec<(String, Value)>, t: &ConvType, path: &ConversionPath) -> (kids: Vec<ImportWork>)
    ensures
        kids@.len() == es@.len(),
        forall|j: int| 0 <= j < es@.len() ==> iconvert_part(#[trigger] kids@[j]) == Some(
            (
                entries_view(es@)[es@.len() - 1 - j].1,
                ty_view(*t),
                path@.push(field_segment(entries_view(es@)[es@.len() - 1 - j].0)),
            ),
        ),
{
    proof {
        lemma_entries_view(es@);
    }
    let ghost orig = es@;
    let n = es.len();
    let mut es = es;
    let mut kids: Vec<ImportWork> = Vec::new();
    while es.len() > 0
        invariant
            es@.len() + kids@.len() == n,
            orig.len() == n,
            entries_view(orig).len() == n,
            forall|i: int| 0 <= i < n ==> #[trigger] entries_view(orig)[i] == (orig[i].0@, value_view(orig[i].1)),
            forall|i: int| 0 <= i < es@.len() ==> es@[i] == orig[i],
            forall|j: int| 0 <= j < kids@.len() ==> iconvert_part(#[trigger] kids@[j]) == Some(
                (value_view(orig[n - 1 - j].1), ty_view(*t), path@.push(field_segment(orig[n - 1 - j].0@))),
            ),
        decreases es@.len(),
    {
        let (name, v) = match es.pop() {
            Some(x) => x,
            None => {
                return kids;
            },
        };
        kids.push(ImportWork::Convert { value: v, expected: t.copy(), path: path.child(field_text(name.as_str())) });
    }
    kids
}

/// The first field of the record type `fs` that finds no value in `es`.
fn find_unavailable(es: &Vec<(String, Value)>, fs: &Vec<(String, ConvType)>) -> (r: Option<usize>)
    ensures
        match first_unavailable(entries_view(es@), fields_ty_view(fs@)) {
            Some(k) => r == Some(k as usize),
            None => r is None,
        },
        r matches Some(k) ==> k < fs@.len() && first_unavailable(entries_view(es@), fields_ty_view(fs@)) == Some(k as int),
{
    let ghost e = entries_view(es@);
    let ghost f = fields_ty_view(fs@);
    proof {
        lemma_fields_ty_view(fs@);
        assert(f.take(0) =~= Seq::<(Seq<char>, TyV)>::empty());
    }
    let mut k: usize = 0;
    while k < fs.len()
        invariant
            0 <= k <= fs@.len(),
            e == entries_view(es@),
            f == fields_ty_view(fs@),
            f.len() == fs@.len(),
            forall|i: int| 0 <= i < fs@.len() ==> #[trigger] f[i] == (fs@[i].0@, ty_view(fs@[i].1)),
            first_unavailable(e, f.take(k as int)) is None,
        decreases fs@.len() - k,
    {
        let mut bad = value_entry(es, fs[k].0.as_str()).is_none();
        let mut j: usize = 0;
        while j < k && !bad
            invariant
                0 <= j <= k < fs@.len(),
                forall|i: int| 0 <= i < fs@.len() ==> #[trigger] f[i] == (fs@[i].0@, ty_view(fs@[i].1)),
                bad == (dict_get(e, f[k as int].0) is None || exists|i: int| 0 <= i < j && #[trigger] f[i].0 == f[k as int].0),
            decreases k - j,
        {
            let same = same_text(fs[j].0.as_str(), fs[k].0.as_str());
            proof {
                assert(f[j as int].0 == fs@[j as int].0@);
                assert(f[k as int].0 == fs@[k as int].0@);
                if same {
                    assert(f[j as int].0 == f[k as int].0);
                } else {
                    assert forall|i: int| 0 <= i < j + 1 && #[trigger] f[i].0 == f[k as int].0 implies 0 <= i < j by {}
                }
            }
            if same {
                bad = true;
            }
            j += 1;
        }
        let ghost t = f.take(k + 1);
        proof {
            assert(t.drop_last() =~= f.take(k as int));
            assert(t.last() == f[k as int]);
            assert(unavailable(e, t, k as int) == (dict_get(e, f[k as int].0) is None || exists|i: int| 0 <= i < k && #[trigger] f[i].0 == f[k as int].0)) by {
                assert forall|i: int| 0 <= i < k implies t[i] == f[i] by {}
            }
        }
        if bad {
            proof {
                assert(first_unavailable(e, t) == Some(k as int));
                lemma_first_stays(e, f, k as int + 1, f.len() as int);
                assert(f.take(f.len() as int) =~= f);
            }
            return Some(k);
        }
        k += 1;
    }
    proof {
        assert(f.take(k as int) =~= f);
    }
    None
}

/// Once a prefix of the fields has an unavailable field, every longer
/// prefix has the same first one.
proof fn lemma_first_stays(e: Seq<(Seq<char>, ValueV)>, f: Seq<(Seq<char>, TyV)>, m: int, n: int)
    requires
        0 < m <= n <= f.len(),
        first_unavailable(e, f.take(m)) is Some,
    ensures
        first_unavailable(e, f.take(n)) == first_unavailable(e, f.take(m)),
    decreases n - m,
{
    if n > m {
        lemma_first_stays(e, f, m, n - 1);
        assert(f.take(n).drop_last() =~= f.take(n - 1));
    }
}

/// Stores of the record fields `fs`, the last first, each with the value of
/// the field of that name in `es`, at the paths `.name`.
fn record_items(es: &Vec<(String, Value)>, fs: &Vec<(String, ConvType)>, path: &ConversionPath) -> (kids: Vec<ImportWork>)
    requires
        forall|i: int| 0 <= i < fs@.len() ==> dict_get(entries_view(es@), #[trigger] fields_ty_view(fs@)[i].0) is Some,
    ensures
        kids@.len() == fs@.len(),
        forall|j: int| 0 <= j < fs@.len() ==> iconvert_part(#[trigger] kids@[j]) == Some(
            ({
                let f = fields_ty_view(fs@)[fs@.len() - 1 - j];
                (dict_get(entries_view(es@), f.0).unwrap(), f.1, path@.push(field_segment(f.0)))
            }),
        ),
{
    let ghost f = fields_ty_view(fs@);
    proof {
        lemma_fields_ty_view(fs@);
    }
    let n = fs.len();
    let mut kids: Vec<ImportWork> = Vec::new();
    let mut i: usize = n;
    while i > 0
        invariant
            0 <= i <= n,
            n == fs@.len(),
            f == fields_ty_view(fs@),
            f.len() == n,
            forall|k: int| 0 <= k < fs@.len() ==> #[trigger] f[k] == (fs@[k].0@, ty_view(fs@[k].1)),
            forall|k: int| 0 <= k < fs@.len() ==> dict_get(entries_view(es@), #[trigger] f[k].0) is Some,
            kids@.len() == n - i,
            forall|j: int| 0 <= j < n - i ==> iconvert_part(#[trigger] kids@[j]) == Some(
                (dict_get(entries_view(es@), f[n - 1 - j].0).unwrap(), f[n - 1 - j].1, path@.push(field_segment(f[n - 1 - j].0))),
            ),
        decreases i,
    {
        i -= 1;
        proof {
            assert(f[i as int].0 == fs@[i as int].0@);
        }
        let v = match value_entry(es, fs[i].0.as_str()) {
            Some(x) => copy_value(&es[x].1),
            None => {
                proof {
                    assert(dict_get(entries_view(es@), f[i as int].0) is Some);
                    assert(false);
                }
                Value::Bool(false)
            },
        };
        kids.push(ImportWork::Convert { value: v, expected: fs[i].1.copy(), path: path.child(field_text(fs[i].0.as_str())) });
        proof {
            assert(n - 1 - (n - i - 1) == i);
        }
    }
    kids
}

/// The text `pre`, the decimal `n`, then `post`.
fn count_text(pre: &str, n: usize, post: &str) -> (r: Vec<char>)
    ensures
        r@ == pre@ + digits(n as nat) + post@,
{
    let mut out = chars_of(pre);
    push_decimal(&mut out, n as u64);
    let mut tail = chars_of(post);
    out.append(&mut tail);
    proof {
        assert(out@ =~= pre@ + digits(n as nat) + post@);
    }
    out
}

/// The first step of storing `value` as the constructor `name` applied to
/// `args`.
fn named_import_step(
    value: Value,
    name: &String,
    args: &Vec<ConvType>,
    expected: &ConvType,
    path: &ConversionPath,
    table: &TypeTable,
) -> (r: ImportStep)
    ensures
        does_istep(
            r,
            named_istep(value_view(value), name@, tys_view(args@), type_text(ty_view(*expected)), path@, table_view(*table)),
        ),
{
    proof {
        lemma_tys_view(args@);
        lemma_kind(value);
    }
    let kind = value.value_type_name();
    if args.len() == 0 {
        match scalar_cell(name.as_str(), &value) {
            Some(c) => {
                return ImportStep::Scalar(c);
            },
            None => {},
        }
    }
    let is_list = same_text(name.as_str(), "List") && args.len() == 1;
    let u8_arg = is_list && is_u8_type(&args[0]);
    let is_dict = same_text(name.as_str(), "Dict") && args.len() == 1;
    match value {
        Value::Bytes(b) => {
            if u8_arg {
                ImportStep::Bytes(b)
            } else {
                ImportStep::Fail(failure(path, type_chars(expected), chars_of(kind)))
            }
        },
        Value::List(xs) => {
            if is_list && !u8_arg {
                proof {
                    lemma_values_view(xs@);
                }
                let n = xs.len();
                let kids = indexed_items(xs, args, Some(&args[0]), path);
                ImportStep::Expand(ImportWork::List(n), kids)
            } else {
                ImportStep::Fail(failure(path, type_chars(expected), chars_of(kind)))
            }
        },
        Value::Dict(es) => {
            if is_dict {
                proof {
                    lemma_entries_view(es@);
                }
                let names = entry_names(&es);
                let ghost ev = entries_view(es@);
                let kids = entry_items(es, &args[0], path);
                proof {
                    assert(names@.map_values(|s: String| s@) =~= ev.map_values(|x: (Seq<char>, ValueV)| x.0));
                    assert(iassemble_of(ImportWork::Dict(names)) == Some((Assemble::Dict(ev.map_values(|x: (Seq<char>, ValueV)| x.0)), ev.len())));
                }
                ImportStep::Expand(ImportWork::Dict(names), kids)
            } else {
                ImportStep::Fail(failure(path, type_chars(expected), chars_of(kind)))
            }
        },
        Value::Adt(tag, fields) => {
            proof {
                lemma_values_view(fields@);
            }
            match resolve_adt_variant(table, name.as_str(), args, tag.as_str()) {
                Err(g) => ImportStep::Fail(failure(path, chars_of(name.as_str()), chars_of(g.as_str()))),
                Ok((vname, fts)) => {
                    proof {
                        lemma_tys_view(fts@);
                    }
                    if fields.len() != fts.len() {
                        let mut got = chars_of("constructor ");
                        let mut t = chars_of(tag.as_str());
                        got.append(&mut t);
                        let mut rest = count_text(" with ", fields.len(), " fields");
                        got.append(&mut rest);
                        proof {
                            assert(got@ =~= "constructor "@ + tag@ + " with "@ + digits(fields@.len()) + " fields"@);
                        }
                        return ImportStep::Fail(failure(path, type_chars(expected), got));
                    }
                    let local = local_name(vname.as_str());
                    let n = fields.len();
                    let kids = field_items(fields, &fts, local.as_str(), path);
                    ImportStep::Expand(ImportWork::Adt { tag: local, fields: n }, kids)
                },
            }
        },
        _ => ImportStep::Fail(failure(path, type_chars(expected), chars_of(kind))),
    }
}

/// The first step of storing `value` as the type `expected` at `path`.
fn import_step(value: Value, expected: &ConvType, path: &ConversionPath, table: &TypeTable) -> (r: ImportStep)
    ensures
        does_istep(r, istep(value_view(value), ty_view(*expected), path@, table_view(*table))),
{
    proof {
        lemma_kind(value);
    }
    let kind = value.value_type_name();
    match expected {
        ConvType::Var(_) => {
            let x = type_chars(expected);
            let g = chars_of("unresolved type variable");
            let e = failure(path, x, g);
            proof {
                assert(istep(value_view(value), ty_view(*expected), path@, table_view(*table)) == IStep::Error(
                    path@,
                    type_text(ty_view(*expected)),
                    "unresolved type variable"@,
                ));
            }
            ImportStep::Fail(e)
        },
        ConvType::Fun(_, _) => ImportStep::Fail(failure(path, type_chars(expected), chars_of(kind))),
        ConvType::Tuple(ts) => match value {
            Value::Tuple(items) => {
                proof {
                    lemma_tys_view(ts@);
                    lemma_values_view(items@);
                }
                if items.len() != ts.len() {
                    let got = count_text("tuple with ", items.len(), " items");
                    return ImportStep::Fail(failure(path, type_chars(expected), got));
                }
                let n = items.len();
                let kids = indexed_items(items, ts, None, path);
                ImportStep::Expand(ImportWork::Tuple(n), kids)
            },
            _ => ImportStep::Fail(failure(path, type_chars(expected), chars_of(kind))),
        },
        ConvType::Record(fs) => match value {
            Value::Dict(es) => {
                let ghost f = fields_ty_view(fs@);
                let ghost e = entries_view(es@);
                proof {
                    lemma_fields_ty_view(fs@);
                    lemma_entries_view(es@);
                }
                if es.len() != fs.len() {
                    let got = count_text("record with ", es.len(), " fields");
                    return ImportStep::Fail(failure(path, type_chars(expected), got));
                }
                match find_unavailable(&es, fs) {
                    Some(k) => {
                        proof {
                            assert(f[k as int] == (fs@[k as int].0@, ty_view(fs@[k as int].1)));
                        }
                        let child = path.child(field_text(fs[k].0.as_str()));
                        let x = type_chars(&fs[k].1);
                        let g = chars_of("missing field");
                        let err = failure(&child, x, g);
                        proof {
                            assert(child@ == path@.push(field_segment(f[k as int].0)));
                            assert(ty_view(*expected) == TyV::Record(f));
                            assert(value_view(value) == ValueV::Dict(e));
                            assert(istep(value_view(value), ty_view(*expected), path@, table_view(*table)) == IStep::Error(
                                child@,
                                type_text(f[k as int].1),
                                "missing field"@,
                            ));
                        }
                        ImportStep::Fail(err)
                    },
                    None => {
                        proof {
                            assert forall|i: int| 0 <= i < fs@.len() implies dict_get(e, #[trigger] f[i].0) is Some by {
                                lemma_first_available(e, f, i);
                            }
                        }
                        let mut names: Vec<String> = Vec::new();
                        let mut i: usize = 0;
                        while i < fs.len()
                            invariant
                                0 <= i <= fs@.len(),
                                names@.len() == i,
                                forall|j: int| 0 <= j < i ==> (#[trigger] names@[j])@ == fs@[j].0@,
                            decreases fs@.len() - i,
                        {
                            names.push(fs[i].0.clone());
                            i += 1;
                        }
                        proof {
                            assert(names@.map_values(|s: String| s@) =~= f.map_values(|x: (Seq<char>, TyV)| x.0));
                        }
                        let kids = record_items(&es, fs, path);
                        ImportStep::Expand(ImportWork::Dict(names), kids)
                    },
                }
            },
            _ => ImportStep::Fail(failure(path, type_chars(expected), chars_of(kind))),
        },
        _ => {
            let (head, args) = decompose_type_app(expected);
            match head {
                ConvType::Con(name) => named_import_step(value, &name, &args, expected, path, table),
                _ => ImportStep::Fail(failure(path, type_chars(expected), chars_of(kind))),
            }
        },
    }
}

/// Every token of `roots` is live in `h` and stands for an object of the
/// shape of the same index in `ss`.
pub open spec fn holds_shapes(h: Heap, roots: Seq<RootedPtr>, ss: Seq<Shape>) -> bool {
    &&& roots.len() == ss.len()
    &&& forall|i: int| 0 <= i < roots.len() ==> h.live_root(#[trigger] roots[i]) && shape_at(h, h.root_target(roots[i]), ss[i])
}

/// Tokens that held shapes before an operation that moved objects still
/// hold them after it.
proof fn lemma_shapes_follow(a: Heap, b: Heap, f: Map<InternalPtr, InternalPtr>, fresh: Set<int>, roots: Seq<RootedPtr>, ss: Seq<Shape>)
    requires
        evolves_except(a, b, f, fresh),
        holds_shapes(a, roots, ss),
    ensures
        holds_shapes(b, roots, ss),
{
    assert forall|i: int| 0 <= i < roots.len() implies b.live_root(#[trigger] roots[i]) && shape_at(b, b.root_target(roots[i]), ss[i]) by {
        lemma_root_follows(a, b, f, fresh, roots[i]);
        lemma_shape_evolves(a, b, f, fresh, a.root_target(roots[i]), ss[i]);
    }
}

/// Allocates the object that holds the stored objects `fields`, whose
/// shapes are `ss`, as the assembly step `kind` says, and roots it.
fn store_assembled(heap: &mut Heap, kind: ImportWork, fields: &Vec<RootedPtr>, Ghost(ss): Ghost<Seq<Shape>>) -> (res: Result<RootedPtr, EngineError>)
    requires
        old(heap).wf(),
        holds_shapes(*old(heap), fields@, ss),
        iassemble_of(kind) matches Some(x) && x.1 == fields@.len(),
    ensures
        final(heap).wf(),
        exists|f: Map<InternalPtr, InternalPtr>, fresh: Set<int>| #[trigger] reached(*old(heap), *final(heap), f, fresh),
        match res {
            Ok(r) => final(heap).live_root(r) && shape_at(*final(heap), final(heap).root_target(r), assemble_shape(iassemble_of(kind)->Some_0.0, ss)),
            Err(e) => is_alloc_error(*final(heap), e),
        },
{
    let ghost a = *heap;
    let ghost t = targets(a, fields@);
    proof {
        assert forall|k: int| 0 <= k < fields@.len() implies a.live_root(#[trigger] fields@[k]) by {}
        assert(all_live(a, fields@));
    }
    match kind {
        ImportWork::Tuple(_) => {
            let res = heap.alloc_root_tuple(fields);
            proof {
                let c = CellView::Tuple(t);
                let g = choose|g: Map<InternalPtr, InternalPtr>| #[trigger] rooted_alloc_with(a, *heap, g, c, res);
                assert(rooted_alloc_with(a, *heap, g, c, res));
                lemma_alloc_outcome(a, *heap, g, c, res);
                if let Ok(r) = res {
                    let b = *heap;
                    assert(children(c) == t);
                    assert forall|i: int| 0 <= i < ss.len() implies shape_at(b, #[trigger] b.cell_at(b.root_target(r))->Tuple_0[i], ss[i]) by {
                        assert(b.cell_at(b.root_target(r))->Tuple_0[i] == g[t[i]]);
                        lemma_shape_evolves(a, b, g, set![r.slot as int], t[i], ss[i]);
                    }
                }
            }
            res
        },
        ImportWork::Adt { tag, fields: _ } => {
            let ghost tv = tag@;
            let res = heap.alloc_root_adt(tag, fields);
            proof {
                let c = CellView::Adt(tv, t);
                let g = choose|g: Map<InternalPtr, InternalPtr>| #[trigger] rooted_alloc_with(a, *heap, g, c, res);
                assert(rooted_alloc_with(a, *heap, g, c, res));
                lemma_alloc_outcome(a, *heap, g, c, res);
                if let Ok(r) = res {
                    let b = *heap;
                    assert(children(c) == t);
                    assert forall|i: int| 0 <= i < ss.len() implies shape_at(b, #[trigger] b.cell_at(b.root_target(r))->Adt_1[i], ss[i]) by {
                        assert(b.cell_at(b.root_target(r))->Adt_1[i] == g[t[i]]);
                        lemma_shape_evolves(a, b, g, set![r.slot as int], t[i], ss[i]);
                    }
                }
            }
            res
        },
        ImportWork::List(_) => {
            let res = heap.alloc_root_list(fields);
            proof {
                let b = *heap;
                let (f, fresh) = choose|f: Map<InternalPtr, InternalPtr>, fresh: Set<int>| #[trigger] reached(a, b, f, fresh)
                    && (forall|k: int| 0 <= k < fields@.len() ==> f.contains_key(#[trigger] targets(a, fields@)[k]))
                    && match res {
                        Ok(r) => b.live_root(r) && lists(b, b.cell_at(b.root_target(r)), ptr_elements(targets(a, fields@).map_values(|p: InternalPtr| f[p]))),
                        Err(e) => is_alloc_error(b, e),
                    };
                if let Ok(r) = res {
                    let qs = t.map_values(|p: InternalPtr| f[p]);
                    assert forall|i: int| 0 <= i < ss.len() implies shape_at(b, #[trigger] qs[i], ss[i]) by {
                        lemma_shape_evolves(a, b, f, fresh, t[i], ss[i]);
                    }
                    assert(qs.len() == ss.len());
                }
            }
            res
        },
        ImportWork::Dict(names) => {
            let ghost keys = names@.map_values(|s: String| s@);
            let ghost e = dict_of(Seq::new(names@.len(), |i: int| (names@[i]@, a.root_target(fields@[i]))));
            proof {
                assert(Seq::new(names@.len(), |i: int| (names@[i]@, a.root_target(fields@[i]))) =~= Seq::new(keys.len(), |i: int| (keys[i], t[i])));
                lemma_dict_of_parallel(a, keys, t, ss);
            }
            let res = heap.alloc_root_dict(names, fields);
            proof {
                let c = CellView::Dict(e);
                let g = choose|g: Map<InternalPtr, InternalPtr>| #[trigger] rooted_alloc_with(a, *heap, g, c, res);
                assert(rooted_alloc_with(a, *heap, g, c, res));
                lemma_alloc_outcome(a, *heap, g, c, res);
                if let Ok(r) = res {
                    let b = *heap;
                    let d = dict_of(Seq::new(keys.len(), |i: int| (keys[i], ss[i])));
                    let ch = children(c);
                    assert(ch == e.map_values(|x: (Seq<char>, InternalPtr)| x.1));
                    assert forall|i: int| 0 <= i < e.len() implies (#[trigger] b.cell_at(b.root_target(r))->Dict_0[i]).0 == d[i].0
                        && shape_at(b, b.cell_at(b.root_target(r))->Dict_0[i].1, d[i].1) by {
                        assert(ch[i] == e[i].1);
                        assert(b.cell_at(b.root_target(r))->Dict_0[i] == (e[i].0, g[e[i].1]));
                        lemma_shape_evolves(a, b, g, set![r.slot as int], e[i].1, d[i].1);
                    }
                    assert(Seq::new(ss.len(), |i: int| (keys[i], ss[i])) =~= Seq::new(ss.len(), |i: int| (names@.map_values(|s: String| s@)[i], ss[i])));
                }
            }
            res
        },
        ImportWork::Convert { .. } => {
            proof {
                assert(false);
            }
            Err(EngineError::HeapExhausted)
        },
    }
}

/// What an allocation that roots its result leaves, in the terms of the
/// writer: the heaps are related, and an error is an allocation error.
proof fn lemma_alloc_outcome(a: Heap, b: Heap, g: Map<InternalPtr, InternalPtr>, c: CellView, res: Result<RootedPtr, EngineError>)
    requires
        rooted_alloc_with(a, b, g, c, res),
    ensures
        reached(a, b, g, match res { Ok(r) => set![r.slot as int], Err(_) => Set::<int>::empty() }),
        res matches Err(e) ==> is_alloc_error(b, e),
{
}

/// Pending work with the nesting each store may still use.
pub open spec fn iwork_v(w: ImportWork, f: nat) -> IWork {
    match w {
        ImportWork::Convert { value, expected, path } => IWork::Convert((value_view(value), ty_view(expected), path@), f),
        other => IWork::Assemble(iassemble_of(other)->Some_0.0, iassemble_of(other)->Some_0.1),
    }
}

pub open spec fn iworks_view(w: Seq<ImportWork>, fuels: Seq<nat>) -> Seq<IWork> {
    Seq::new(w.len(), |i: int| iwork_v(w[i], fuels[i]))
}

/// The objects that storing `v` as `t` gives: their shape, or where and why
/// the value does not fit the type.
pub open spec fn imported(v: ValueV, t: TyV, tab: Seq<AdtV>) -> Import {
    import_at(v, t, Seq::empty(), tab, vdepth(v))
}

/// The number of stored objects that an assembly step takes.
fn assembly_width(w: &ImportWork) -> (n: usize)
    requires
        iassemble_of(*w) is Some,
    ensures
        n == iassemble_of(*w)->Some_0.1,
{
    match w {
        ImportWork::Tuple(n) => *n,
        ImportWork::List(n) => *n,
        ImportWork::Dict(names) => names.len(),
        ImportWork::Adt { fields, .. } => *fields,
        ImportWork::Convert { .. } => 0,
    }
}

impl Heap {
    /// Stores the host value `value` as the type `expected`, resolving data
    /// types in `table`, and roots the result.
    ///
    /// The value is walked with a work list rather than by recursion, so
    /// that deeply nested values take no stack. A value that does not fit
    /// the type gives a conversion error naming where inside the value it
    /// failed, what was expected there, and what was found. Every object
    /// stored on the way is rooted, so the collections that allocating may
    /// run keep them.
    pub fn alloc_value(&mut self, value: Value, expected: &ConvType, table: &TypeTable) -> (res: Result<RootedPtr, EngineError>)
        requires
            old(self).wf(),
        ensures
            final(self).wf(),
            exists|f: Map<InternalPtr, InternalPtr>, fresh: Set<int>| #[trigger] reached(*old(self), *final(self), f, fresh),
            match imported(value_view(value), ty_view(*expected), table_view(*table)) {
                Import::Built(s) => (res matches Ok(r) && final(self).live_root(r) && shape_at(*final(self), final(self).root_target(r), s))
                    || (res matches Err(e) && is_alloc_error(*final(self), e)),
                Import::Fail(p, x, g) => res matches Err(e) && (is_conversion_error(e, p, x, g) || is_alloc_error(*final(self), e)),
                Import::Diverges => false,
            },
    {
        let ghost h0 = *self;
        let ghost tab = table_view(*table);
        let ghost v0 = value_view(value);
        let ghost t0 = ty_view(*expected);
        let ghost n0 = vdepth(v0);
        let ghost outcome = import_at(v0, t0, Seq::empty(), tab, n0);
        let ghost target = match outcome {
            Import::Built(s) => IRun::Shapes(seq![s]),
            Import::Fail(a, b, c) => IRun::Fail(a, b, c),
            Import::Diverges => IRun::Stuck,
        };
        proof {
            lemma_import_ends(v0, t0, Seq::empty(), tab, n0);
        }
        let mut work: Vec<ImportWork> = Vec::new();
        let root_path = ConversionPath::root();
        work.push(ImportWork::Convert { value, expected: expected.copy(), path: root_path });
        let ghost mut fuels: Seq<nat> = seq![n0];
        let mut roots: Vec<RootedPtr> = Vec::new();
        let ghost mut ss: Seq<Shape> = Seq::empty();
        let ghost mut fmap: Map<InternalPtr, InternalPtr> = crate::heap::identity_on(h0);
        let ghost mut fresh: Set<int> = Set::empty();
        proof {
            crate::heap::lemma_evolves_refl(h0);
            assert(iworks_view(work@, fuels) =~= Seq::<IWork>::empty().push(IWork::Convert((v0, t0, Seq::empty()), n0)));
            lemma_irun_top(tab, Seq::empty(), IWork::Convert((v0, t0, Seq::empty()), n0), ss);
            if let Import::Built(s) = outcome {
                assert(Seq::<Shape>::empty().push(s) =~= seq![s]);
            }
        }
        while work.len() > 0
            invariant
                self.wf(),
                h0 == *old(self),
                tab == table_view(*table),
                fuels.len() == work@.len(),
                outcome == imported(v0, t0, tab),
                v0 == value_view(value),
                t0 == ty_view(*expected),
                target == match outcome {
                    Import::Built(s) => IRun::Shapes(seq![s]),
                    Import::Fail(a, b, c) => IRun::Fail(a, b, c),
                    Import::Diverges => IRun::Stuck,
                },
                !(target is Stuck),
                irun(tab, iworks_view(work@, fuels), ss) == target,
                holds_shapes(*self, roots@, ss),
                reached(h0, *self, fmap, fresh),
            decreases iwork_cost(tab, iworks_view(work@, fuels)),
        {
            let ghost before = iworks_view(work@, fuels);
            let ghost wbefore = work@;
            let item = match work.pop() {
                Some(x) => x,
                None => {
                    proof {
                        assert(false);
                    }
                    return Err(EngineError::HeapExhausted);
                },
            };
            let ghost f = fuels.last();
            proof {
                fuels = fuels.drop_last();
                assert(before =~= iworks_view(work@, fuels).push(iwork_v(item, f)));
                assert(item == wbefore[wbefore.len() - 1]);
            }
            let ghost base = iworks_view(work@, fuels);
            let ghost hb = *self;
            match item {
                ImportWork::Convert { value: v, expected: t, path } => {
                    let ghost part: IPart = (value_view(v), ty_view(t), path@);
                    proof {
                        lemma_iconvert_progress(tab, base, part, f, ss, target);
                    }
                    let ghost st = istep(part.0, part.1, part.2, tab);
                    match import_step(v, &t, &path, table) {
                        ImportStep::Scalar(c) => {
                            let ghost cv = c@;
                            let made = self.alloc_root(c);
                            let ghost g = choose|g: Map<InternalPtr, InternalPtr>| #[trigger] rooted_alloc_with(hb, *self, g, cv, made);
                            proof {
                                assert(rooted_alloc_with(hb, *self, g, cv, made));
                                lemma_alloc_outcome(hb, *self, g, cv, made);
                                let fr2 = match made { Ok(r) => set![r.slot as int], Err(_) => Set::<int>::empty() };
                                crate::heap::lemma_evolves_compose(h0, hb, *self, fmap, g, fresh, fr2);
                                lemma_shapes_follow(hb, *self, g, fr2, roots@, ss);
                                fmap = crate::heap::compose(fmap, g);
                                fresh = fresh + fr2;
                            }
                            match made {
                                Ok(r) => {
                                    proof {
                                        crate::heap::lemma_map_cell_identity(cv, g);
                                        assert(shape_at(*self, self.root_target(r), Shape::Leaf(cv)));
                                        ss = ss.push(Shape::Leaf(cv));
                                    }
                                    roots.push(r);
                                },
                                Err(e) => {
                                    proof {
                                        assert(reached(*old(self), *self, fmap, fresh));
                                    }
                                    return Err(e);
                                },
                            }
                        },
                        ImportStep::Bytes(b) => {
                            let ghost bv = b@;
                            let made = self.alloc_root_binary_list(b);
                            proof {
                                let (g, fr2) = choose|g: Map<InternalPtr, InternalPtr>, fr2: Set<int>| #[trigger] reached(hb, *self, g, fr2)
                                    && match made {
                                        Ok(r) => self.live_root(r) && lists(*self, self.cell_at(self.root_target(r)), byte_elements(bv)),
                                        Err(e) => is_alloc_error(*self, e),
                                    };
                                crate::heap::lemma_evolves_compose(h0, hb, *self, fmap, g, fresh, fr2);
                                lemma_shapes_follow(hb, *self, g, fr2, roots@, ss);
                                fmap = crate::heap::compose(fmap, g);
                                fresh = fresh + fr2;
                            }
                            match made {
                                Ok(r) => {
                                    proof {
                                        assert(shape_at(*self, self.root_target(r), Shape::Bytes(bv)));
                                        ss = ss.push(Shape::Bytes(bv));
                                    }
                                    roots.push(r);
                                },
                                Err(e) => {
                                    proof {
                                        assert(reached(*old(self), *self, fmap, fresh));
                                    }
                                    return Err(e);
                                },
                            }
                        },
                        ImportStep::Fail(e) => {
                            proof {
                                assert(reached(*old(self), *self, fmap, fresh));
                            }
                            return Err(e);
                        },
                        ImportStep::Expand(a, kids) => {
                            let ghost parts = st->Expand_1;
                            let ghost k = st->Expand_0;
                            let ghost g = (f - 1) as nat;
                            let ghost w0 = work@;
                            work.push(a);
                            let mut kids = kids;
                            let ghost kv = kids@;
                            work.append(&mut kids);
                            proof {
                                let nf = fuels.push(0) + Seq::new(parts.len(), |j: int| g);
                                assert(work@ == w0.push(a) + kv);
                                assert(iworks_view(work@, nf) =~= base.push(IWork::Assemble(k, parts.len())) + ipushed(parts, g));
                                fuels = nf;
                            }
                        },
                    }
                },
                other => {
                    let n = assembly_width(&other);
                    let ghost k = iassemble_of(other)->Some_0.0;
                    let ghost rv = roots@;
                    proof {
                        lemma_irun_top(tab, base, IWork::Assemble(k, n as nat), ss);
                    }
                    let fields = match take_root_tail(&mut roots, n) {
                        Ok(x) => x,
                        Err(e) => {
                            proof {
                                assert(false);
                            }
                            return Err(e);
                        },
                    };
                    let ghost ssf = ss.skip(ss.len() - n);
                    let ghost ssk = ss.take(ss.len() - n);
                    proof {
                        assert(holds_shapes(*self, fields@, ssf)) by {
                            assert forall|i: int| 0 <= i < fields@.len() implies self.live_root(#[trigger] fields@[i]) && shape_at(*self, self.root_target(fields@[i]), ssf[i]) by {
                                assert(fields@[i] == rv[rv.len() - n + i]);
                            }
                        }
                        assert(holds_shapes(*self, roots@, ssk)) by {
                            assert forall|i: int| 0 <= i < roots@.len() implies self.live_root(#[trigger] roots@[i]) && shape_at(*self, self.root_target(roots@[i]), ssk[i]) by {
                                assert(roots@[i] == rv[i]);
                            }
                        }
                    }
                    let made = store_assembled(self, other, &fields, Ghost(ssf));
                    proof {
                        let (g, fr2) = choose|g: Map<InternalPtr, InternalPtr>, fr2: Set<int>| #[trigger] reached(hb, *self, g, fr2);
                        crate::heap::lemma_evolves_compose(h0, hb, *self, fmap, g, fresh, fr2);
                        lemma_shapes_follow(hb, *self, g, fr2, roots@, ssk);
                        fmap = crate::heap::compose(fmap, g);
                        fresh = fresh + fr2;
                    }
                    match made {
                        Ok(r) => {
                            roots.push(r);
                            proof {
                                ss = ssk.push(assemble_shape(k, ssf));
                                assert(holds_shapes(*self, roots@, ss)) by {
                                    assert forall|i: int| 0 <= i < roots@.len() implies self.live_root(#[trigger] roots@[i]) && shape_at(*self, self.root_target(roots@[i]), ss[i]) by {
                                        if i < roots@.len() - 1 {
                                            assert(roots@[i] == roots@.drop_last()[i]);
                                        }
                                    }
                                }
                            }
                        },
                        Err(e) => {
                            proof {
                                assert(reached(*old(self), *self, fmap, fresh));
                            }
                            return Err(e);
                        },
                    }
                },
            }
        }
        proof {
            assert(iworks_view(work@, fuels) =~= Seq::<IWork>::empty());
            if let Import::Fail(a, b, c) = outcome {
                assert(false);
            }
        }
        proof {
            assert(reached(*old(self), *self, fmap, fresh));
        }
        match roots.pop() {
            Some(r) => Ok(r),
            None => {
                proof {
                    assert(false);
                }
                Err(EngineError::HeapExhausted)
            },
        }
    }
}

/// The shape that storing `v` as `t` gives, where it fits.
pub open spec fn built_shape(v: Value, t: ConvType, tab: Seq<AdtV>) -> Shape {
    imported(value_view(v), ty_view(t), tab)->Built_0
}

/// The `i`th of `args` is the first that does not fit its type, and `e` is
/// its conversion error.
pub open spec fn first_misfit(args: Seq<(Value, ConvType)>, tab: Seq<AdtV>, i: int, e: EngineError) -> bool {
    &&& 0 <= i < args.len()
    &&& forall|j: int| 0 <= j < i ==> imported(value_view(#[trigger] args[j].0), ty_view(args[j].1), tab) is Built
    &&& imported(value_view(args[i].0), ty_view(args[i].1), tab) matches Import::Fail(p, x, g) && is_conversion_error(e, p, x, g)
}

impl Heap {
    /// Stores the input values of a program's main function, each as its
    /// type, in order, and roots them; the first value that does not fit its
    /// type gives its conversion error.
    #[verifier::loop_isolation(false)]
    pub fn alloc_input_args(&mut self, args: Vec<(Value, ConvType)>, table: &TypeTable) -> (res: Result<Vec<RootedPtr>, EngineError>)
        requires
            old(self).wf(),
        ensures
            final(self).wf(),
            exists|f: Map<InternalPtr, InternalPtr>, fresh: Set<int>| #[trigger] reached(*old(self), *final(self), f, fresh),
            match res {
                Ok(rs) => rs@.len() == args@.len() && forall|i: int| 0 <= i < args@.len() ==> {
                    &&& imported(value_view(#[trigger] args@[i].0), ty_view(args@[i].1), table_view(*table)) is Built
                    &&& holds_shapes(*final(self), seq![rs@[i]], seq![built_shape(args@[i].0, args@[i].1, table_view(*table))])
                },
                Err(e) => is_alloc_error(*final(self), e) || exists|i: int| #[trigger] first_misfit(args@, table_view(*table), i, e),
            },
    {
        let ghost h0 = *self;
        let ghost tab = table_view(*table);
        let ghost orig = args@;
        let n = args.len();
        let mut pending = args;
        let mut rest: Vec<(Value, ConvType)> = Vec::new();
        while pending.len() > 0
            invariant
                pending@.len() + rest@.len() == n,
                orig.len() == n,
                forall|k: int| 0 <= k < pending@.len() ==> #[trigger] pending@[k] == orig[k],
                forall|k: int| 0 <= k < rest@.len() ==> #[trigger] rest@[k] == orig[n - 1 - k],
            decreases pending@.len(),
        {
            match pending.pop() {
                Some(x) => rest.push(x),
                None => {},
            }
        }
        let mut out: Vec<RootedPtr> = Vec::new();
        let ghost mut ss: Seq<Shape> = Seq::empty();
        let ghost mut fmap: Map<InternalPtr, InternalPtr> = crate::heap::identity_on(h0);
        let ghost mut fresh: Set<int> = Set::empty();
        proof {
            crate::heap::lemma_evolves_refl(h0);
        }
        while rest.len() > 0
            invariant
                self.wf(),
                h0 == *old(self),
                tab == table_view(*table),
                orig.len() == n,
                out@.len() + rest@.len() == n,
                forall|k: int| 0 <= k < rest@.len() ==> #[trigger] rest@[k] == orig[n - 1 - k],
                holds_shapes(*self, out@, ss),
                forall|i: int| 0 <= i < out@.len() ==> imported(value_view(#[trigger] orig[i].0), ty_view(orig[i].1), tab) is Built
                    && ss[i] == built_shape(orig[i].0, orig[i].1, tab),
                reached(h0, *self, fmap, fresh),
            decreases rest@.len(),
        {
            let ghost i = out@.len() as int;
            let (v, t) = match rest.pop() {
                Some(x) => x,
                None => {
                    proof {
                        assert(false);
                    }
                    return Err(EngineError::HeapExhausted);
                },
            };
            proof {
                assert((v, t) == orig[i]);
            }
            let ghost hb = *self;
            let made = self.alloc_value(v, &t, table);
            proof {
                let (g, fr2) = choose|g: Map<InternalPtr, InternalPtr>, fr2: Set<int>| #[trigger] reached(hb, *self, g, fr2);
                crate::heap::lemma_evolves_compose(h0, hb, *self, fmap, g, fresh, fr2);
                lemma_shapes_follow(hb, *self, g, fr2, out@, ss);
                fmap = crate::heap::compose(fmap, g);
                fresh = fresh + fr2;
                assert(reached(*old(self), *self, fmap, fresh));
            }
            match made {
                Ok(r) => {
                    out.push(r);
                    proof {
                        let s = built_shape(orig[i].0, orig[i].1, tab);
                        ss = ss.push(s);
                        assert forall|k: int| 0 <= k < out@.len() implies self.live_root(#[trigger] out@[k]) && shape_at(*self, self.root_target(out@[k]), ss[k]) by {
                            if k < i {
                                assert(out@[k] == out@.drop_last()[k]);
                            }
                        }
                    }
                },
                Err(e) => {
                    proof {
                        if !is_alloc_error(*self, e) {
                            assert(first_misfit(orig, tab, i, e));
                        }
                    }
                    return Err(e);
                },
            }
        }
        proof {
            assert forall|i: int| 0 <= i < orig.len() implies {
                &&& imported(value_view(#[trigger] orig[i].0), ty_view(orig[i].1), tab) is Built
                &&& holds_shapes(*self, seq![out@[i]], seq![built_shape(orig[i].0, orig[i].1, tab)])
            } by {
                assert(self.live_root(out@[i]));
            }
            assert(reached(*old(self), *self, fmap, fresh));
        }
        Ok(out)
    }
}

/// A scalar value stored as its scalar type is an object that reading back
/// as that type gives the same value: the store and the read agree on every
/// scalar type.
pub proof fn law_stored_scalar_reads_back(h: Heap, p: InternalPtr, v: ValueV, name: Seq<char>, path: Seq<Seq<char>>, tab: Seq<AdtV>, n: nat)
    requires
        n > 0,
        import_at(v, TyV::Con(name), path, tab, n) is Built,
        import_at(v, TyV::Con(name), path, tab, n)->Built_0 is Leaf,
        shape_at(h, p, import_at(v, TyV::Con(name), path, tab, n)->Built_0),
    ensures
        crate::value_export::step(h, ListElement::InternalPtr(p), TyV::Con(name), path, tab) == crate::value_export::Step::Value(v),
{
    let t = TyV::Con(name);
    assert(decompose(t) == (t, Seq::<TyV>::empty()));
    let c = import_at(v, t, path, tab, n)->Built_0->Leaf_0;
    assert(scalar_leaf(name, v) == Some(c));
    assert(h.cell_at(p) == c);
    assert(crate::value_export::is_scalar_name(name));
    assert(crate::value_export::scalar_of(name, c) == Some(v));
}

} // verus!
