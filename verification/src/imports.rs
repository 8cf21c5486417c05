//! Binding the names that an import brings into a module.
//!
//! `import m as A;` makes the exports of `m` reachable through `A`;
//! `import m (*);` binds every exported value, type and class under its own
//! name; `import m (x, y as z);` binds the listed exports, each under its
//! alias where it has one. A name that the importing module declares itself,
//! or that an earlier import already bound, cannot be bound again, and a
//! listed name that the module does not export is an error.

use vstd::prelude::*;

use crate::dicts::{dict_get, dict_insert, dict_insert_field, fields_view, lemma_get_mapped, lemma_insert_view};
use crate::error::{EngineError, ModuleError};
use crate::exports::{exported, exports_deep, field_index, listed, EntryV, ModuleExports};
use crate::module_types::{sym_view, CanonicalSymbol, ModuleKey, SymbolKind};
use crate::natives::same_text;

verus! {

/// What an import binds: the module under its alias only, every export, or
/// the listed exports (each with an optional local alias).
#[derive(Debug)]
pub enum ImportClauseSpec {
    AliasOnly,
    All,
    Items(Vec<(String, Option<String>)>),
}

/// An import: the alias of the module and what it binds.
#[derive(Debug)]
pub struct ImportSpec {
    pub alias: String,
    pub clause: ImportClauseSpec,
}

/// The names that an importing module declares itself: its values, and its
/// types and classes.
#[derive(Debug)]
pub struct ImportBindingPolicy {
    pub forbidden_values: Vec<String>,
    pub forbidden_types: Vec<String>,
}

/// The names that the imports of a module bound so far: modules under their
/// aliases, and values, types and classes under their local names, each
/// table in name order.
#[derive(Debug)]
pub struct ImportBindings {
    pub alias_exports: Vec<(String, ModuleExports)>,
    pub imported_values: Vec<(String, CanonicalSymbol)>,
    pub imported_types: Vec<(String, CanonicalSymbol)>,
    pub imported_classes: Vec<(String, CanonicalSymbol)>,
}

/// A canonical symbol by its contents.
pub type SymV = (ModuleKey, SymbolKind, Seq<char>, Seq<char>);

/// A table of bound symbols by name.
pub open spec fn syms_view(v: Seq<(String, CanonicalSymbol)>) -> Seq<(Seq<char>, SymV)> {
    v.map_values(|p: (String, CanonicalSymbol)| (p.0@, sym_view(p.1)))
}

/// The modules bound under aliases, by their export tables.
pub open spec fn aliases_view(v: Seq<(String, ModuleExports)>) -> Seq<(Seq<char>, Seq<(Seq<char>, EntryV)>)> {
    v.map_values(|p: (String, ModuleExports)| (p.0@, exports_deep(p.1@)))
}

/// The three tables of bound names: values, types, classes.
pub type TablesV = (Seq<(Seq<char>, SymV)>, Seq<(Seq<char>, SymV)>, Seq<(Seq<char>, SymV)>);

pub open spec fn tables_view(b: ImportBindings) -> TablesV {
    (syms_view(b.imported_values@), syms_view(b.imported_types@), syms_view(b.imported_classes@))
}

pub open spec fn names_view(v: Seq<String>) -> Seq<Seq<char>> {
    v.map_values(|s: String| s@)
}

/// One step of binding: bind `local` to a symbol in a namespace, or fail
/// because a listed export does not exist.
pub enum BindReq {
    Bind(SymbolKind, Seq<char>, SymV),
    Missing(Seq<char>),
}

/// Why binding failed: the name is the importing module's own, the name is
/// already bound, or the listed export does not exist.
pub enum BindErr {
    Conflict(Seq<char>),
    Duplicate(Seq<char>),
    Missing(Seq<char>),
}

/// Binding `local` to `sym` in the table `t`, unless the name is forbidden
/// or already bound.
pub open spec fn bind_in(t: Seq<(Seq<char>, SymV)>, forbidden: Seq<Seq<char>>, local: Seq<char>, sym: SymV) -> Result<
    Seq<(Seq<char>, SymV)>,
    BindErr,
> {
    if forbidden.contains(local) {
        Err(BindErr::Conflict(local))
    } else if dict_get(t, local) is Some {
        Err(BindErr::Duplicate(local))
    } else {
        Ok(dict_insert(t, local, sym))
    }
}

/// One step on the tables; types and classes share the forbidden names.
pub open spec fn bind_step(t: TablesV, fv: Seq<Seq<char>>, ft: Seq<Seq<char>>, r: BindReq) -> Result<TablesV, BindErr> {
    match r {
        BindReq::Bind(SymbolKind::Value, local, sym) => match bind_in(t.0, fv, local, sym) {
            Ok(x) => Ok((x, t.1, t.2)),
            Err(e) => Err(e),
        },
        BindReq::Bind(SymbolKind::Type, local, sym) => match bind_in(t.1, ft, local, sym) {
            Ok(x) => Ok((t.0, x, t.2)),
            Err(e) => Err(e),
        },
        BindReq::Bind(SymbolKind::Class, local, sym) => match bind_in(t.2, ft, local, sym) {
            Ok(x) => Ok((t.0, t.1, x)),
            Err(e) => Err(e),
        },
        BindReq::Missing(name) => Err(BindErr::Missing(name)),
    }
}

/// The tables after the steps `reqs` in order, stopping at the first that
/// fails, with its error.
pub open spec fn run_binds(t: TablesV, fv: Seq<Seq<char>>, ft: Seq<Seq<char>>, reqs: Seq<BindReq>) -> (TablesV, Option<BindErr>)
    decreases reqs.len(),
{
    if reqs.len() == 0 {
        (t, None)
    } else {
        let prev = run_binds(t, fv, ft, reqs.drop_last());
        if prev.1 is Some {
            prev
        } else {
            match bind_step(prev.0, fv, ft, reqs.last()) {
                Ok(x) => (x, None),
                Err(e) => (prev.0, Some(e)),
            }
        }
    }
}

/// The steps of binding every export: all values, then all types, then all
/// classes, each in name order.
pub open spec fn all_reqs(ex: Seq<(Seq<char>, crate::exports::ExportEntry)>) -> Seq<BindReq> {
    listed(ex, SymbolKind::Value).map_values(|p: (Seq<char>, CanonicalSymbol)| BindReq::Bind(SymbolKind::Value, p.0, sym_view(p.1)))
        + listed(ex, SymbolKind::Type).map_values(|p: (Seq<char>, CanonicalSymbol)| BindReq::Bind(SymbolKind::Type, p.0, sym_view(p.1)))
        + listed(ex, SymbolKind::Class).map_values(|p: (Seq<char>, CanonicalSymbol)| BindReq::Bind(SymbolKind::Class, p.0, sym_view(p.1)))
}

/// The bind step for the namespace `kind` of the export `name`, if it
/// exports a symbol there.
pub open spec fn slot_req(ex: Seq<(Seq<char>, crate::exports::ExportEntry)>, name: Seq<char>, local: Seq<char>, kind: SymbolKind) -> Seq<BindReq> {
    match exported(ex, name, kind) {
        Some(s) => seq![BindReq::Bind(kind, local, sym_view(s))],
        None => Seq::empty(),
    }
}

/// The steps of binding one listed export: its value, type and class (those
/// it has) under the local name, or the failure when it has none.
pub open spec fn item_reqs(ex: Seq<(Seq<char>, crate::exports::ExportEntry)>, name: Seq<char>, alias: Option<Seq<char>>) -> Seq<BindReq> {
    let local = match alias {
        Some(a) => a,
        None => name,
    };
    let binds = slot_req(ex, name, local, SymbolKind::Value) + slot_req(ex, name, local, SymbolKind::Type) + slot_req(
        ex,
        name,
        local,
        SymbolKind::Class,
    );
    if binds.len() == 0 {
        seq![BindReq::Missing(name)]
    } else {
        binds
    }
}

/// The listed exports by their views.
pub open spec fn items_view(items: Seq<(String, Option<String>)>) -> Seq<(Seq<char>, Option<Seq<char>>)> {
    items.map_values(
        |p: (String, Option<String>)|
            (
                p.0@,
                match p.1 {
                    Some(a) => Some(a@),
                    None => None,
                },
            ),
    )
}

/// The steps of binding the listed exports, in order.
pub open spec fn items_reqs(ex: Seq<(Seq<char>, crate::exports::ExportEntry)>, items: Seq<(Seq<char>, Option<Seq<char>>)>) -> Seq<BindReq>
    decreases items.len(),
{
    if items.len() == 0 {
        Seq::empty()
    } else {
        items_reqs(ex, items.drop_last()) + item_reqs(ex, items.last().0, items.last().1)
    }
}

/// `err` is the error for the failure `e` of an import of the module
/// aliased `module`.
pub open spec fn is_bind_error(err: EngineError, e: BindErr, module: Seq<char>) -> bool {
    match e {
        BindErr::Conflict(n) => err matches EngineError::Module(ModuleError::ImportNameConflictsWithLocal { module: m, name })
            && m@ == module && name@ == n,
        BindErr::Duplicate(n) => err matches EngineError::Module(ModuleError::DuplicateImportedName { name }) && name@ == n,
        BindErr::Missing(n) => err matches EngineError::Module(ModuleError::MissingExport { module: m, export })
            && m@ == module && export@ == n,
    }
}

/// What running the steps `reqs` leaves: the tables as far as the steps
/// went, the aliases unchanged, and the error of the failing step.
pub open spec fn ran(a: ImportBindings, b: ImportBindings, fv: Seq<Seq<char>>, ft: Seq<Seq<char>>, reqs: Seq<BindReq>, module: Seq<char>, res: Result<(), EngineError>) -> bool {
    let r = run_binds(tables_view(a), fv, ft, reqs);
    &&& tables_view(b) == r.0
    &&& aliases_view(b.alias_exports@) == aliases_view(a.alias_exports@)
    &&& match r.1 {
        None => res is Ok,
        Some(e) => res matches Err(x) && is_bind_error(x, e, module),
    }
}

/// Whether `name` is one of `names`.
fn contains_name(names: &Vec<String>, name: &String) -> (b: bool)
    ensures
        b == names_view(names@).contains(name@),
{
    let mut i: usize = 0;
    while i < names.len()
        invariant
            0 <= i <= names@.len(),
            forall|j: int| 0 <= j < i ==> names@[j]@ != name@,
        decreases names@.len() - i,
    {
        if same_text(names[i].as_str(), name.as_str()) {
            proof {
                assert(names_view(names@)[i as int] == name@);
            }
            return true;
        }
        i += 1;
    }
    proof {
        if names_view(names@).contains(name@) {
            let j = choose|j: int| 0 <= j < names_view(names@).len() && names_view(names@)[j] == name@;
            assert(names@[j]@ == name@);
        }
    }
    false
}

/// Binds `local` to `sym` in `table`, unless the name is forbidden or bound.
fn bind_one(table: &mut Vec<(String, CanonicalSymbol)>, forbidden: &Vec<String>, module: &String, local: &String, sym: &CanonicalSymbol) -> (res: Result<(), EngineError>)
    ensures
        match bind_in(syms_view(old(table)@), names_view(forbidden@), local@, sym_view(*sym)) {
            Ok(t) => res is Ok && syms_view(final(table)@) == t,
            Err(e) => res matches Err(x) && is_bind_error(x, e, module@) && final(table)@ == old(table)@,
        },
{
    if contains_name(forbidden, local) {
        return Err(EngineError::Module(ModuleError::ImportNameConflictsWithLocal { module: module.clone(), name: local.clone() }));
    }
    let ghost t0 = table@;
    let ghost g = |c: CanonicalSymbol| sym_view(c);
    proof {
        assert(syms_view(t0) =~= fields_view(t0).map_values(|p: (Seq<char>, CanonicalSymbol)| (p.0, g(p.1))));
        lemma_get_mapped(fields_view(t0), local@, g);
    }
    match field_index(table, local.as_str()) {
        Some(_) => {
            return Err(EngineError::Module(ModuleError::DuplicateImportedName { name: local.clone() }));
        },
        None => {},
    }
    let c = sym.copy();
    let ghost cv = c;
    dict_insert_field(table, local.clone(), c);
    proof {
        lemma_insert_view(fields_view(t0), local@, cv, g);
        assert(syms_view(table@) =~= fields_view(table@).map_values(|p: (Seq<char>, CanonicalSymbol)| (p.0, g(p.1))));
    }
    Ok(())
}

/// Once a step failed, the later steps change nothing.
proof fn lemma_run_stops(t: TablesV, fv: Seq<Seq<char>>, ft: Seq<Seq<char>>, reqs: Seq<BindReq>, j: int, k: int)
    requires
        0 <= j <= k <= reqs.len(),
        run_binds(t, fv, ft, reqs.take(j)).1 is Some,
    ensures
        run_binds(t, fv, ft, reqs.take(k)) == run_binds(t, fv, ft, reqs.take(j)),
    decreases k - j,
{
    if k > j {
        lemma_run_stops(t, fv, ft, reqs, j, k - 1);
        assert(reqs.take(k).drop_last() =~= reqs.take(k - 1));
    }
}

/// A step of binding, as the library holds it.
enum BindRequest {
    Bind(SymbolKind, String, CanonicalSymbol),
    Missing(String),
}

spec fn req_view(r: BindRequest) -> BindReq {
    match r {
        BindRequest::Bind(k, l, s) => BindReq::Bind(k, l@, sym_view(s)),
        BindRequest::Missing(n) => BindReq::Missing(n@),
    }
}

spec fn reqs_view(v: Seq<BindRequest>) -> Seq<BindReq> {
    v.map_values(|r: BindRequest| req_view(r))
}

/// Runs the steps `reqs` in order, stopping at the first that fails.
fn apply_requests(out: &mut ImportBindings, reqs: &Vec<BindRequest>, policy: &ImportBindingPolicy, module: &String) -> (res: Result<(), EngineError>)
    ensures
        ran(
            *old(out),
            *final(out),
            names_view(policy.forbidden_values@),
            names_view(policy.forbidden_types@),
            reqs_view(reqs@),
            module@,
            res,
        ),
{
    let ghost a = *out;
    let ghost rv = reqs_view(reqs@);
    let ghost fv = names_view(policy.forbidden_values@);
    let ghost ft = names_view(policy.forbidden_types@);
    let mut i: usize = 0;
    proof {
        assert(rv.take(0) =~= Seq::<BindReq>::empty());
    }
    while i < reqs.len()
        invariant
            0 <= i <= reqs@.len(),
            rv == reqs_view(reqs@),
            a == *old(out),
            fv == names_view(policy.forbidden_values@),
            ft == names_view(policy.forbidden_types@),
            run_binds(tables_view(a), fv, ft, rv.take(i as int)) == (tables_view(*out), None::<BindErr>),
            aliases_view(out.alias_exports@) == aliases_view(a.alias_exports@),
        decreases reqs@.len() - i,
    {
        proof {
            assert(rv.take(i + 1).drop_last() =~= rv.take(i as int));
            assert(rv.take(i + 1).last() == req_view(reqs@[i as int]));
        }
        let ghost before = *out;
        let r = match &reqs[i] {
            BindRequest::Bind(kind, local, sym) => match kind {
                SymbolKind::Value => bind_one(&mut out.imported_values, &policy.forbidden_values, module, local, sym),
                SymbolKind::Type => bind_one(&mut out.imported_types, &policy.forbidden_types, module, local, sym),
                SymbolKind::Class => bind_one(&mut out.imported_classes, &policy.forbidden_types, module, local, sym),
            },
            BindRequest::Missing(name) => Err(EngineError::Module(ModuleError::MissingExport { module: module.clone(), export: name.clone() })),
        };
        match r {
            Ok(()) => {},
            Err(e) => {
                proof {
                    assert(tables_view(*out) == tables_view(before));
                    assert(run_binds(tables_view(a), fv, ft, rv.take(i + 1)).1 is Some);
                    lemma_run_stops(tables_view(a), fv, ft, rv, i + 1, rv.len() as int);
                    assert(rv.take(rv.len() as int) =~= rv);
                }
                return Err(e);
            },
        }
        i += 1;
    }
    proof {
        assert(rv.take(i as int) =~= rv);
    }
    Ok(())
}

/// Appends a step binding each listed symbol in the namespace `kind` under
/// its own name.
fn push_listed(reqs: &mut Vec<BindRequest>, items: &Vec<(&String, &CanonicalSymbol)>, kind: SymbolKind)
    ensures
        reqs_view(final(reqs)@) == reqs_view(old(reqs)@) + items@.map_values(|p: (&String, &CanonicalSymbol)| (p.0@, *p.1)).map_values(
            |p: (Seq<char>, CanonicalSymbol)| BindReq::Bind(kind, p.0, sym_view(p.1)),
        ),
{
    let ghost r0 = reqs_view(reqs@);
    let ghost want = items@.map_values(|p: (&String, &CanonicalSymbol)| (p.0@, *p.1)).map_values(
        |p: (Seq<char>, CanonicalSymbol)| BindReq::Bind(kind, p.0, sym_view(p.1)),
    );
    let mut i: usize = 0;
    proof {
        assert(r0 + want.take(0) =~= r0);
    }
    while i < items.len()
        invariant
            0 <= i <= items@.len(),
            want.len() == items@.len(),
            want == items@.map_values(|p: (&String, &CanonicalSymbol)| (p.0@, *p.1)).map_values(
                |p: (Seq<char>, CanonicalSymbol)| BindReq::Bind(kind, p.0, sym_view(p.1)),
            ),
            reqs_view(reqs@) == r0 + want.take(i as int),
        decreases items@.len() - i,
    {
        let (name, sym) = items[i];
        let ghost before = reqs@;
        let n2 = name.clone();
        let s2 = sym.copy();
        let ghost x = BindRequest::Bind(kind, n2, s2);
        reqs.push(BindRequest::Bind(kind, n2, s2));
        proof {
            assert(reqs@ == before.push(x));
            assert(req_view(x) == want[i as int]);
            assert(reqs_view(reqs@) =~= reqs_view(before).push(req_view(x)));
            assert(want[i as int] == BindReq::Bind(kind, items@[i as int].0@, sym_view(*items@[i as int].1)));
            assert(reqs_view(reqs@) =~= r0 + want.take(i + 1));
        }
        i += 1;
    }
    proof {
        assert(want.take(i as int) =~= want);
    }
}

/// Appends the step binding the export `name` in the namespace `kind` under
/// `local`, if it exports a symbol there; says whether it did.
fn push_slot(reqs: &mut Vec<BindRequest>, exports: &ModuleExports, name: &String, local: &String, kind: SymbolKind) -> (found: bool)
    ensures
        reqs_view(final(reqs)@) == reqs_view(old(reqs)@) + slot_req(exports@, name@, local@, kind),
        found == (slot_req(exports@, name@, local@, kind).len() > 0),
{
    let ghost r0 = reqs_view(reqs@);
    let s = match kind {
        SymbolKind::Value => exports.value(name),
        SymbolKind::Type => exports.typ(name),
        SymbolKind::Class => exports.class(name),
    };
    match s {
        Some(c) => {
            reqs.push(BindRequest::Bind(kind, local.clone(), c.copy()));
            proof {
                assert(reqs_view(reqs@) =~= r0 + slot_req(exports@, name@, local@, kind));
            }
            true
        },
        None => {
            proof {
                assert(r0 + slot_req(exports@, name@, local@, kind) =~= r0);
            }
            false
        },
    }
}

/// The steps of binding every export.
fn all_requests(exports: &ModuleExports) -> (reqs: Vec<BindRequest>)
    ensures
        reqs_view(reqs@) == all_reqs(exports@),
{
    let mut reqs: Vec<BindRequest> = Vec::new();
    proof {
        assert(reqs_view(reqs@) =~= Seq::<BindReq>::empty());
    }
    let vs = exports.values();
    push_listed(&mut reqs, &vs, SymbolKind::Value);
    let ts = exports.types();
    push_listed(&mut reqs, &ts, SymbolKind::Type);
    let cs = exports.classes();
    push_listed(&mut reqs, &cs, SymbolKind::Class);
    proof {
        assert(reqs_view(reqs@) =~= all_reqs(exports@));
    }
    reqs
}

/// The steps of binding the listed exports.
fn item_requests(exports: &ModuleExports, items: &Vec<(String, Option<String>)>) -> (reqs: Vec<BindRequest>)
    ensures
        reqs_view(reqs@) == items_reqs(exports@, items_view(items@)),
{
    let ghost iv = items_view(items@);
    let mut reqs: Vec<BindRequest> = Vec::new();
    let mut i: usize = 0;
    proof {
        assert(iv.take(0) =~= Seq::<(Seq<char>, Option<Seq<char>>)>::empty());
        assert(reqs_view(reqs@) =~= Seq::<BindReq>::empty());
    }
    while i < items.len()
        invariant
            0 <= i <= items@.len(),
            iv == items_view(items@),
            reqs_view(reqs@) == items_reqs(exports@, iv.take(i as int)),
        decreases items@.len() - i,
    {
        let ghost r0 = reqs_view(reqs@);
        let name = &items[i].0;
        let local = match &items[i].1 {
            Some(a) => a,
            None => name,
        };
        let v = push_slot(&mut reqs, exports, name, local, SymbolKind::Value);
        let t = push_slot(&mut reqs, exports, name, local, SymbolKind::Type);
        let c = push_slot(&mut reqs, exports, name, local, SymbolKind::Class);
        if !v && !t && !c {
            reqs.push(BindRequest::Missing(name.clone()));
        }
        proof {
            assert(iv.take(i + 1).drop_last() =~= iv.take(i as int));
            assert(iv.take(i + 1).last() == iv[i as int]);
            assert(iv[i as int].0 == name@);
            assert(reqs_view(reqs@) =~= r0 + item_reqs(exports@, iv[i as int].0, iv[i as int].1));
        }
        i += 1;
    }
    proof {
        assert(iv.take(i as int) =~= iv);
    }
    reqs
}

/// Binds the names that `import` brings in, given the exports of the
/// imported module and the names the importing module declares itself.
///
/// An import of the module alone records its exports under the alias. An
/// import of every export binds all values, then all types, then all
/// classes; an import of listed exports binds, for each in order, its value,
/// type and class under the local name, and fails where the module exports
/// none of them. Binding a name that the importing module declares, or that
/// is already bound, fails; the bindings made before the failure stay.
pub fn add_import_bindings(out: &mut ImportBindings, import: &ImportSpec, exports: &ModuleExports, policy: &ImportBindingPolicy) -> (res: Result<(), EngineError>)
    requires
        exports.wf(),
    ensures
        match import.clause {
            ImportClauseSpec::AliasOnly => {
                &&& res is Ok
                &&& tables_view(*final(out)) == tables_view(*old(out))
                &&& aliases_view(final(out).alias_exports@) == dict_insert(
                    aliases_view(old(out).alias_exports@),
                    import.alias@,
                    exports_deep(exports@),
                )
            },
            ImportClauseSpec::All => ran(
                *old(out),
                *final(out),
                names_view(policy.forbidden_values@),
                names_view(policy.forbidden_types@),
                all_reqs(exports@),
                import.alias@,
                res,
            ),
            ImportClauseSpec::Items(items) => ran(
                *old(out),
                *final(out),
                names_view(policy.forbidden_values@),
                names_view(policy.forbidden_types@),
                items_reqs(exports@, items_view(items@)),
                import.alias@,
                res,
            ),
        },
{
    match &import.clause {
        ImportClauseSpec::AliasOnly => {
            let ghost t0 = out.alias_exports@;
            let copied = exports.copy();
            let ghost cv = copied;
            dict_insert_field(&mut out.alias_exports, import.alias.clone(), copied);
            proof {
                let g = |m: ModuleExports| exports_deep(m@);
                lemma_insert_view(fields_view(t0), import.alias@, cv, g);
                assert(aliases_view(t0) =~= fields_view(t0).map_values(|p: (Seq<char>, ModuleExports)| (p.0, g(p.1))));
                assert(aliases_view(out.alias_exports@) =~= fields_view(out.alias_exports@).map_values(
                    |p: (Seq<char>, ModuleExports)| (p.0, g(p.1)),
                ));
            }
            Ok(())
        },
        ImportClauseSpec::All => {
            let reqs = all_requests(exports);
            apply_requests(out, &reqs, policy, &import.alias)
        },
        ImportClauseSpec::Items(items) => {
            let reqs = item_requests(exports, items);
            apply_requests(out, &reqs, policy, &import.alias)
        },
    }
}

impl ImportBindings {
    /// No bindings.
    pub fn new() -> (b: Self)
        ensures
            b.alias_exports@.len() == 0,
            b.imported_values@.len() == 0,
            b.imported_types@.len() == 0,
            b.imported_classes@.len() == 0,
    {
        ImportBindings { alias_exports: Vec::new(), imported_values: Vec::new(), imported_types: Vec::new(), imported_classes: Vec::new() }
    }
}

/// The table of the namespace `kind`.
pub open spec fn table_for(t: TablesV, kind: SymbolKind) -> Seq<(Seq<char>, SymV)> {
    match kind {
        SymbolKind::Value => t.0,
        SymbolKind::Type => t.1,
        SymbolKind::Class => t.2,
    }
}

/// `t` with the table of the namespace `kind` replaced by `x`.
pub open spec fn with_table(t: TablesV, kind: SymbolKind, x: Seq<(Seq<char>, SymV)>) -> TablesV {
    match kind {
        SymbolKind::Value => (x, t.1, t.2),
        SymbolKind::Type => (t.0, x, t.2),
        SymbolKind::Class => (t.0, t.1, x),
    }
}

/// The names that may not be bound in the namespace `kind`.
pub open spec fn forbidden_for(fv: Seq<Seq<char>>, ft: Seq<Seq<char>>, kind: SymbolKind) -> Seq<Seq<char>> {
    match kind {
        SymbolKind::Value => fv,
        _ => ft,
    }
}

/// Importing one listed name binds, under its local name, the symbol that
/// the module exports for it in each namespace where it exports one, and
/// fails as a missing export only when it exports the name in no
/// namespace.
pub proof fn law_listed_item_binds_its_exports(ex: Seq<(Seq<char>, crate::exports::ExportEntry)>, name: Seq<char>, alias: Option<Seq<char>>)
    ensures
        ({
            let local = match alias {
                Some(a) => a,
                None => name,
            };
            let reqs = item_reqs(ex, name, alias);
            &&& forall|kind: SymbolKind| #[trigger] exported(ex, name, kind) is Some ==> reqs.contains(
                BindReq::Bind(kind, local, sym_view(exported(ex, name, kind)->Some_0)),
            )
            &&& (reqs.contains(BindReq::Missing(name)) <==> (exported(ex, name, SymbolKind::Value) is None
                && exported(ex, name, SymbolKind::Type) is None && exported(ex, name, SymbolKind::Class) is None))
        }),
{
    let local = match alias {
        Some(a) => a,
        None => name,
    };
    let a = slot_req(ex, name, local, SymbolKind::Value);
    let b = slot_req(ex, name, local, SymbolKind::Type);
    let c = slot_req(ex, name, local, SymbolKind::Class);
    let binds = a + b + c;
    let reqs = item_reqs(ex, name, alias);
    assert forall|kind: SymbolKind| #[trigger] exported(ex, name, kind) is Some implies reqs.contains(
        BindReq::Bind(kind, local, sym_view(exported(ex, name, kind)->Some_0)),
    ) by {
        let s = exported(ex, name, kind)->Some_0;
        let x = BindReq::Bind(kind, local, sym_view(s));
        match kind {
            SymbolKind::Value => {
                assert(binds[0] == x);
            },
            SymbolKind::Type => {
                assert(binds[a.len() as int] == x);
            },
            SymbolKind::Class => {
                assert(binds[(a.len() + b.len()) as int] == x);
            },
        }
    }
    if reqs.contains(BindReq::Missing(name)) {
        if binds.len() > 0 {
            let j = choose|j: int| 0 <= j < reqs.len() && reqs[j] == BindReq::Missing(name);
            assert(reqs[j] is Bind);
        }
    }
    if exported(ex, name, SymbolKind::Value) is None && exported(ex, name, SymbolKind::Type) is None
        && exported(ex, name, SymbolKind::Class) is None {
        assert(reqs[0] == BindReq::Missing(name));
    }
}

/// Importing a listed name that the module exports in just one namespace,
/// under a local name that is free there, binds that symbol under the local
/// name in that namespace's table, leaves the other tables as they were,
/// and succeeds.
pub proof fn law_listed_item_lands_in_its_table(
    t: TablesV,
    fv: Seq<Seq<char>>,
    ft: Seq<Seq<char>>,
    ex: Seq<(Seq<char>, crate::exports::ExportEntry)>,
    name: Seq<char>,
    alias: Option<Seq<char>>,
    kind: SymbolKind,
    s: CanonicalSymbol,
)
    requires
        exported(ex, name, kind) == Some(s),
        forall|k: SymbolKind| k != kind ==> #[trigger] exported(ex, name, k) is None,
        !forbidden_for(fv, ft, kind).contains(match alias { Some(a) => a, None => name }),
        dict_get(table_for(t, kind), match alias { Some(a) => a, None => name }) is None,
    ensures
        run_binds(t, fv, ft, items_reqs(ex, seq![(name, alias)])) == (
            with_table(t, kind, dict_insert(table_for(t, kind), match alias { Some(a) => a, None => name }, sym_view(s))),
            None::<BindErr>,
        ),
{
    let local = match alias {
        Some(a) => a,
        None => name,
    };
    let items = seq![(name, alias)];
    assert(items.drop_last() =~= Seq::<(Seq<char>, Option<Seq<char>>)>::empty());
    let reqs = item_reqs(ex, name, alias);
    let x = BindReq::Bind(kind, local, sym_view(s));
    match kind {
        SymbolKind::Value => {
            assert(exported(ex, name, SymbolKind::Type) is None);
            assert(exported(ex, name, SymbolKind::Class) is None);
        },
        SymbolKind::Type => {
            assert(exported(ex, name, SymbolKind::Value) is None);
            assert(exported(ex, name, SymbolKind::Class) is None);
        },
        SymbolKind::Class => {
            assert(exported(ex, name, SymbolKind::Value) is None);
            assert(exported(ex, name, SymbolKind::Type) is None);
        },
    }
    assert(reqs =~= seq![x]);
    assert(items.last() == (name, alias));
    assert(items_reqs(ex, items.drop_last()) == Seq::<BindReq>::empty());
    assert(items_reqs(ex, items) == Seq::<BindReq>::empty() + reqs);
    assert(Seq::<BindReq>::empty() + reqs =~= seq![x]);
    assert(seq![x].drop_last() =~= Seq::<BindReq>::empty());
    assert(seq![x].last() == x);
    assert(run_binds(t, fv, ft, Seq::<BindReq>::empty()) == (t, None::<BindErr>));
    assert(bind_in(table_for(t, kind), forbidden_for(fv, ft, kind), local, sym_view(s)) == Ok::<Seq<(Seq<char>, SymV)>, BindErr>(
        dict_insert(table_for(t, kind), local, sym_view(s)),
    ));
    assert(bind_step(t, fv, ft, x) == Ok::<TablesV, BindErr>(with_table(t, kind, dict_insert(table_for(t, kind), local, sym_view(s)))));
    assert(run_binds(t, fv, ft, seq![x]) == (with_table(t, kind, dict_insert(table_for(t, kind), local, sym_view(s))), None::<BindErr>));
}

/// Importing every export binds each exported value, type and class under
/// its own name, with its symbol, and nothing else.
pub proof fn law_star_import_binds_every_export(ex: Seq<(Seq<char>, crate::exports::ExportEntry)>, kind: SymbolKind, i: int)
    requires
        0 <= i < listed(ex, kind).len(),
    ensures
        all_reqs(ex).contains(BindReq::Bind(kind, listed(ex, kind)[i].0, sym_view(listed(ex, kind)[i].1))),
        all_reqs(ex).len() == listed(ex, SymbolKind::Value).len() + listed(ex, SymbolKind::Type).len() + listed(ex, SymbolKind::Class).len(),
        forall|j: int| 0 <= j < all_reqs(ex).len() ==> (#[trigger] all_reqs(ex)[j]) is Bind,
{
    let lv = listed(ex, SymbolKind::Value);
    let lt = listed(ex, SymbolKind::Type);
    let lc = listed(ex, SymbolKind::Class);
    let r = all_reqs(ex);
    match kind {
        SymbolKind::Value => {
            assert(r[i] == BindReq::Bind(kind, lv[i].0, sym_view(lv[i].1)));
        },
        SymbolKind::Type => {
            assert(r[lv.len() + i] == BindReq::Bind(kind, lt[i].0, sym_view(lt[i].1)));
        },
        SymbolKind::Class => {
            assert(r[lv.len() + lt.len() + i] == BindReq::Bind(kind, lc[i].0, sym_view(lc[i].1)));
        },
    }
}

/// Binding a name that the importing module declares in that namespace
/// fails as a conflict, and binding a name that is already bound fails as a
/// duplicate; either way the tables stay as they were.
pub proof fn law_taken_names_are_not_bound_again(t: TablesV, fv: Seq<Seq<char>>, ft: Seq<Seq<char>>, kind: SymbolKind, local: Seq<char>, sym: SymV)
    ensures
        forbidden_for(fv, ft, kind).contains(local) ==> run_binds(t, fv, ft, seq![BindReq::Bind(kind, local, sym)]) == (
            t,
            Some(BindErr::Conflict(local)),
        ),
        !forbidden_for(fv, ft, kind).contains(local) && dict_get(table_for(t, kind), local) is Some ==> run_binds(
            t,
            fv,
            ft,
            seq![BindReq::Bind(kind, local, sym)],
        ) == (t, Some(BindErr::Duplicate(local))),
{
    let x = BindReq::Bind(kind, local, sym);
    assert(seq![x].drop_last() =~= Seq::<BindReq>::empty());
    assert(seq![x].last() == x);
    assert(run_binds(t, fv, ft, Seq::<BindReq>::empty()) == (t, None::<BindErr>));
}

} // verus!
