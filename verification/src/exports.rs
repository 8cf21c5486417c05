//! A module's export table: each user-facing name maps to the canonical
//! value, type and class symbols that an importing module receives.

use vstd::prelude::*;

use crate::dicts::{dict_get, dict_insert, dict_insert_field, fields_view, keys_sorted, text_lt};
use crate::module_id::ModuleId;
use crate::module_types::{module_key_for_module, module_key_spec, sym_view, CanonicalSymbol, ModuleKey, SymbolKind};
use crate::natives::same_text;

verus! {

/// The symbols that one exported name stands for, one per namespace.
#[derive(Debug)]
pub struct ExportEntry {
    pub value: Option<CanonicalSymbol>,
    pub typ: Option<CanonicalSymbol>,
    pub class: Option<CanonicalSymbol>,
}

impl ExportEntry {
    /// An entry with no symbol in any namespace.
    pub fn new() -> (e: Self)
        ensures
            e.value is None,
            e.typ is None,
            e.class is None,
    {
        ExportEntry { value: None, typ: None, class: None }
    }
}

impl Default for ExportEntry {
    fn default() -> (e: Self)
        ensures
            e.value is None,
            e.typ is None,
            e.class is None,
    {
        ExportEntry::new()
    }
}

/// The symbol of an entry in the namespace `kind`.
pub open spec fn slot(e: ExportEntry, kind: SymbolKind) -> Option<CanonicalSymbol> {
    match kind {
        SymbolKind::Value => e.value,
        SymbolKind::Type => e.typ,
        SymbolKind::Class => e.class,
    }
}

/// `e` with its symbol in the namespace `kind` set to `s`.
pub open spec fn with_slot(e: ExportEntry, kind: SymbolKind, s: CanonicalSymbol) -> ExportEntry {
    match kind {
        SymbolKind::Value => ExportEntry { value: Some(s), typ: e.typ, class: e.class },
        SymbolKind::Type => ExportEntry { value: e.value, typ: Some(s), class: e.class },
        SymbolKind::Class => ExportEntry { value: e.value, typ: e.typ, class: Some(s) },
    }
}

/// The entry with no symbol.
pub open spec fn empty_entry() -> ExportEntry {
    ExportEntry { value: None, typ: None, class: None }
}

/// The symbol that the name `name` exports in the namespace `kind`.
pub open spec fn exported(t: Seq<(Seq<char>, ExportEntry)>, name: Seq<char>, kind: SymbolKind) -> Option<CanonicalSymbol> {
    match dict_get(t, name) {
        Some(e) => slot(e, kind),
        None => None,
    }
}

/// The table after setting the symbol of `name` in the namespace `kind` to
/// `s`, creating an empty entry for `name` first where there is none.
pub open spec fn table_set(t: Seq<(Seq<char>, ExportEntry)>, name: Seq<char>, kind: SymbolKind, s: CanonicalSymbol) -> Seq<(Seq<char>, ExportEntry)> {
    let base = match dict_get(t, name) {
        Some(e) => e,
        None => empty_entry(),
    };
    dict_insert(t, name, with_slot(base, kind, s))
}

/// The names that export a symbol in the namespace `kind`, with that symbol,
/// in name order.
pub open spec fn listed(t: Seq<(Seq<char>, ExportEntry)>, kind: SymbolKind) -> Seq<(Seq<char>, CanonicalSymbol)>
    decreases t.len(),
{
    if t.len() == 0 {
        Seq::empty()
    } else {
        let rest = listed(t.drop_last(), kind);
        match slot(t.last().1, kind) {
            Some(s) => rest.push((t.last().0, s)),
            None => rest,
        }
    }
}

/// A symbol slot by its contents.
pub open spec fn opt_sym(o: Option<CanonicalSymbol>) -> Option<(ModuleKey, SymbolKind, Seq<char>, Seq<char>)> {
    match o {
        Some(c) => Some(sym_view(c)),
        None => None,
    }
}

/// An export entry by its contents.
pub type EntryV = (
    Option<(ModuleKey, SymbolKind, Seq<char>, Seq<char>)>,
    Option<(ModuleKey, SymbolKind, Seq<char>, Seq<char>)>,
    Option<(ModuleKey, SymbolKind, Seq<char>, Seq<char>)>,
);

pub open spec fn entry_view(e: ExportEntry) -> EntryV {
    (opt_sym(e.value), opt_sym(e.typ), opt_sym(e.class))
}

/// An export table by its contents.
pub open spec fn exports_deep(t: Seq<(Seq<char>, ExportEntry)>) -> Seq<(Seq<char>, EntryV)> {
    t.map_values(|p: (Seq<char>, ExportEntry)| (p.0, entry_view(p.1)))
}

fn copy_opt(o: &Option<CanonicalSymbol>) -> (r: Option<CanonicalSymbol>)
    ensures
        opt_sym(r) == opt_sym(*o),
{
    match o {
        Some(c) => Some(c.copy()),
        None => None,
    }
}

/// The public export table of a module.
#[derive(Debug)]
pub struct ModuleExports {
    entries: Vec<(String, ExportEntry)>,
}

impl View for ModuleExports {
    type V = Seq<(Seq<char>, ExportEntry)>;

    closed spec fn view(&self) -> Seq<(Seq<char>, ExportEntry)> {
        fields_view(self.entries@)
    }
}

impl Default for ModuleExports {
    fn default() -> (t: Self)
        ensures
            t@ == Seq::<(Seq<char>, ExportEntry)>::empty(),
            t.wf(),
    {
        let t = ModuleExports { entries: Vec::new() };
        proof {
            assert(fields_view(t.entries@) =~= Seq::<(Seq<char>, ExportEntry)>::empty());
        }
        t
    }
}

/// The index of the first field of `d` named `k`.
pub(crate) fn field_index<T>(d: &Vec<(String, T)>, k: &str) -> (r: Option<usize>)
    ensures
        match r {
            Some(i) => i < d@.len() && d@[i as int].0@ == k@ && dict_get(fields_view(d@), k@) == Some(d@[i as int].1),
            None => dict_get(fields_view(d@), k@) is None,
        },
{
    let ghost dv = fields_view(d@);
    let mut i: usize = 0;
    while i < d.len()
        invariant
            0 <= i <= d@.len(),
            dv == fields_view(d@),
            forall|j: int| 0 <= j < i ==> (#[trigger] dv[j]).0 != k@,
        decreases d@.len() - i,
    {
        if same_text(d[i].0.as_str(), k) {
            proof {
                lemma_get_first(dv, k@, i as int);
            }
            return Some(i);
        }
        proof {
            assert(dv[i as int].0 == d@[i as int].0@);
        }
        i += 1;
    }
    proof {
        lemma_get_absent(dv, k@);
    }
    None
}

/// The first field named `k`, at `i`, is the one that `dict_get` finds.
pub(crate) proof fn lemma_get_first<T>(d: Seq<(Seq<char>, T)>, k: Seq<char>, i: int)
    requires
        0 <= i < d.len(),
        d[i].0 == k,
        forall|j: int| 0 <= j < i ==> (#[trigger] d[j]).0 != k,
    ensures
        dict_get(d, k) == Some(d[i].1),
    decreases i,
{
    if i > 0 {
        assert(d[0].0 != k);
        assert forall|j: int| 0 <= j < i - 1 implies (#[trigger] d.drop_first()[j]).0 != k by {
            assert(d.drop_first()[j] == d[j + 1]);
        }
        lemma_get_first(d.drop_first(), k, i - 1);
    }
}

/// A name that no field has is absent.
pub(crate) proof fn lemma_get_absent<T>(d: Seq<(Seq<char>, T)>, k: Seq<char>)
    requires
        forall|j: int| 0 <= j < d.len() ==> (#[trigger] d[j]).0 != k,
    ensures
        dict_get(d, k) is None,
    decreases d.len(),
{
    if d.len() > 0 {
        assert(d[0].0 != k);
        assert forall|j: int| 0 <= j < d.len() - 1 implies (#[trigger] d.drop_first()[j]).0 != k by {
            assert(d.drop_first()[j] == d[j + 1]);
        }
        lemma_get_absent(d.drop_first(), k);
    }
}

/// Replacing the value of the field at `i`, whose name is `k`, sets `k` in
/// a dictionary with names in order.
proof fn lemma_update_is_insert<T>(d: Seq<(Seq<char>, T)>, i: int, k: Seq<char>, v: T)
    requires
        keys_sorted(d),
        0 <= i < d.len(),
        d[i].0 == k,
    ensures
        d.update(i, (k, v)) == dict_insert(d, k, v),
    decreases i,
{
    if i == 0 {
        assert(d.update(0, (k, v)) == dict_insert(d, k, v));
    } else {
        assert(text_lt(d[0].0, d[i].0));
        crate::dicts::lemma_text_lt_irreflexive(k);
        crate::dicts::lemma_text_lt_asymmetric(d[0].0, k);
        let t = d.drop_first();
        assert(keys_sorted(t)) by {
            assert forall|a: int, b: int| 0 <= a < b < t.len() implies text_lt(#[trigger] t[a].0, #[trigger] t[b].0) by {
                assert(t[a] == d[a + 1] && t[b] == d[b + 1]);
            }
        }
        assert(t[i - 1] == d[i]);
        lemma_update_is_insert(t, i - 1, k, v);
        assert(d.update(i, (k, v)) =~= seq![d[0]] + t.update(i - 1, (k, v)));
    }
}

impl ModuleExports {
    /// The table keeps each name once, in name order.
    pub closed spec fn wf(&self) -> bool {
        keys_sorted(self@)
    }

    /// Another export table with the same contents.
    pub fn copy(&self) -> (r: Self)
        requires
            self.wf(),
        ensures
            r.wf(),
            exports_deep(r@) == exports_deep(self@),
    {
        let mut entries: Vec<(String, ExportEntry)> = Vec::new();
        let mut i: usize = 0;
        while i < self.entries.len()
            invariant
                0 <= i <= self.entries@.len(),
                entries@.len() == i,
                forall|j: int| 0 <= j < i ==> (#[trigger] entries@[j]).0@ == self.entries@[j].0@
                    && entry_view(entries@[j].1) == entry_view(self.entries@[j].1),
            decreases self.entries@.len() - i,
        {
            let e = &self.entries[i].1;
            let copied = ExportEntry { value: copy_opt(&e.value), typ: copy_opt(&e.typ), class: copy_opt(&e.class) };
            entries.push((self.entries[i].0.clone(), copied));
            i += 1;
        }
        let r = ModuleExports { entries };
        proof {
            assert(exports_deep(r@) =~= exports_deep(self@));
            assert forall|a: int, b: int| 0 <= a < b < r@.len() implies text_lt(#[trigger] r@[a].0, #[trigger] r@[b].0) by {
                assert(r@[a].0 == self@[a].0);
                assert(r@[b].0 == self@[b].0);
            }
        }
        r
    }

    /// The entry of the name `name`.
    pub fn entry(&self, name: &String) -> (r: Option<&ExportEntry>)
        ensures
            match r {
                Some(e) => dict_get(self@, name@) == Some(*e),
                None => dict_get(self@, name@) is None,
            },
    {
        match field_index(&self.entries, name.as_str()) {
            Some(i) => Some(&self.entries[i].1),
            None => None,
        }
    }

    /// The symbol that `name` exports in the namespace `kind`.
    fn lookup(&self, name: &String, kind: SymbolKind) -> (r: Option<&CanonicalSymbol>)
        ensures
            match r {
                Some(s) => exported(self@, name@, kind) == Some(*s),
                None => exported(self@, name@, kind) is None,
            },
    {
        match self.entry(name) {
            Some(e) => match kind {
                SymbolKind::Value => e.value.as_ref(),
                SymbolKind::Type => e.typ.as_ref(),
                SymbolKind::Class => e.class.as_ref(),
            },
            None => None,
        }
    }

    /// The value symbol that `name` exports.
    pub fn value(&self, name: &String) -> (r: Option<&CanonicalSymbol>)
        ensures
            match r {
                Some(s) => exported(self@, name@, SymbolKind::Value) == Some(*s),
                None => exported(self@, name@, SymbolKind::Value) is None,
            },
    {
        self.lookup(name, SymbolKind::Value)
    }

    /// The type symbol that `name` exports.
    pub fn typ(&self, name: &String) -> (r: Option<&CanonicalSymbol>)
        ensures
            match r {
                Some(s) => exported(self@, name@, SymbolKind::Type) == Some(*s),
                None => exported(self@, name@, SymbolKind::Type) is None,
            },
    {
        self.lookup(name, SymbolKind::Type)
    }

    /// The class symbol that `name` exports.
    pub fn class(&self, name: &String) -> (r: Option<&CanonicalSymbol>)
        ensures
            match r {
                Some(s) => exported(self@, name@, SymbolKind::Class) == Some(*s),
                None => exported(self@, name@, SymbolKind::Class) is None,
            },
    {
        self.lookup(name, SymbolKind::Class)
    }

    /// Sets the symbol of `name` in the namespace `kind`, keeping its symbols
    /// in the other namespaces.
    fn set_slot(&mut self, name: String, kind: SymbolKind, symbol: CanonicalSymbol)
        requires
            old(self).wf(),
        ensures
            final(self).wf(),
            final(self)@ == table_set(old(self)@, name@, kind, symbol),
    {
        let ghost t = self@;
        let ghost k = name@;
        match field_index(&self.entries, name.as_str()) {
            Some(i) => {
                let (stored, entry) = self.entries.remove(i);
                let updated = match kind {
                    SymbolKind::Value => ExportEntry { value: Some(symbol), typ: entry.typ, class: entry.class },
                    SymbolKind::Type => ExportEntry { value: entry.value, typ: Some(symbol), class: entry.class },
                    SymbolKind::Class => ExportEntry { value: entry.value, typ: entry.typ, class: Some(symbol) },
                };
                self.entries.insert(i, (stored, updated));
                proof {
                    assert(self@ =~= t.update(i as int, (k, updated)));
                    lemma_update_is_insert(t, i as int, k, updated);
                    crate::dicts::lemma_insert_sorted(t, k, updated);
                }
            },
            None => {
                let fresh = match kind {
                    SymbolKind::Value => ExportEntry { value: Some(symbol), typ: None, class: None },
                    SymbolKind::Type => ExportEntry { value: None, typ: Some(symbol), class: None },
                    SymbolKind::Class => ExportEntry { value: None, typ: None, class: Some(symbol) },
                };
                dict_insert_field(&mut self.entries, name, fresh);
                proof {
                    crate::dicts::lemma_insert_sorted(t, k, fresh);
                }
            },
        }
    }

    /// Sets the value symbol of `name`.
    pub fn insert_value(&mut self, name: String, symbol: CanonicalSymbol)
        requires
            old(self).wf(),
        ensures
            final(self).wf(),
            final(self)@ == table_set(old(self)@, name@, SymbolKind::Value, symbol),
    {
        self.set_slot(name, SymbolKind::Value, symbol)
    }

    /// Sets the type symbol of `name`.
    pub fn insert_type(&mut self, name: String, symbol: CanonicalSymbol)
        requires
            old(self).wf(),
        ensures
            final(self).wf(),
            final(self)@ == table_set(old(self)@, name@, SymbolKind::Type, symbol),
    {
        self.set_slot(name, SymbolKind::Type, symbol)
    }

    /// Sets the class symbol of `name`.
    pub fn insert_class(&mut self, name: String, symbol: CanonicalSymbol)
        requires
            old(self).wf(),
        ensures
            final(self).wf(),
            final(self)@ == table_set(old(self)@, name@, SymbolKind::Class, symbol),
    {
        self.set_slot(name, SymbolKind::Class, symbol)
    }

    /// The names with a symbol in the namespace `kind`, each with it, in
    /// name order.
    fn listing(&self, kind: SymbolKind) -> (r: Vec<(&String, &CanonicalSymbol)>)
        ensures
            r@.map_values(|p: (&String, &CanonicalSymbol)| (p.0@, *p.1)) == listed(self@, kind),
    {
        let ghost t = self@;
        let mut out: Vec<(&String, &CanonicalSymbol)> = Vec::new();
        let mut i: usize = 0;
        while i < self.entries.len()
            invariant
                0 <= i <= self.entries@.len(),
                t == fields_view(self.entries@),
                out@.map_values(|p: (&String, &CanonicalSymbol)| (p.0@, *p.1)) == listed(t.take(i as int), kind),
            decreases self.entries@.len() - i,
        {
            let (name, entry) = &self.entries[i];
            let found = match kind {
                SymbolKind::Value => entry.value.as_ref(),
                SymbolKind::Type => entry.typ.as_ref(),
                SymbolKind::Class => entry.class.as_ref(),
            };
            proof {
                assert(t.take(i + 1).drop_last() =~= t.take(i as int));
                assert(t.take(i + 1).last() == t[i as int]);
            }
            match found {
                Some(s) => {
                    out.push((name, s));
                    proof {
                        assert(out@.map_values(|p: (&String, &CanonicalSymbol)| (p.0@, *p.1)) =~= listed(t.take(i as int), kind).push((t[i as int].0, *s)));
                    }
                },
                None => {},
            }
            i += 1;
        }
        proof {
            assert(t.take(self.entries@.len() as int) =~= t);
        }
        out
    }

    /// The exported values, by name, in name order.
    pub fn values(&self) -> (r: Vec<(&String, &CanonicalSymbol)>)
        ensures
            r@.map_values(|p: (&String, &CanonicalSymbol)| (p.0@, *p.1)) == listed(self@, SymbolKind::Value),
    {
        self.listing(SymbolKind::Value)
    }

    /// The exported types, by name, in name order.
    pub fn types(&self) -> (r: Vec<(&String, &CanonicalSymbol)>)
        ensures
            r@.map_values(|p: (&String, &CanonicalSymbol)| (p.0@, *p.1)) == listed(self@, SymbolKind::Type),
    {
        self.listing(SymbolKind::Type)
    }

    /// The exported classes, by name, in name order.
    pub fn classes(&self) -> (r: Vec<(&String, &CanonicalSymbol)>)
        ensures
            r@.map_values(|p: (&String, &CanonicalSymbol)| (p.0@, *p.1)) == listed(self@, SymbolKind::Class),
    {
        self.listing(SymbolKind::Class)
    }

    /// The names with a symbol in the namespace `kind`, in name order.
    fn names_of(&self, kind: SymbolKind) -> (r: Vec<String>)
        ensures
            r@.map_values(|s: String| s@) == listed(self@, kind).map_values(|p: (Seq<char>, CanonicalSymbol)| p.0),
    {
        let items = self.listing(kind);
        let mut out: Vec<String> = Vec::new();
        let mut i: usize = 0;
        while i < items.len()
            invariant
                0 <= i <= items@.len(),
                out@.len() == i,
                forall|j: int| 0 <= j < i ==> (#[trigger] out@[j])@ == items@[j].0@,
            decreases items@.len() - i,
        {
            out.push(items[i].0.clone());
            i += 1;
        }
        proof {
            let want = listed(self@, kind).map_values(|p: (Seq<char>, CanonicalSymbol)| p.0);
            let got = items@.map_values(|p: (&String, &CanonicalSymbol)| (p.0@, *p.1));
            assert forall|j: int| 0 <= j < i implies out@.map_values(|s: String| s@)[j] == want[j] by {
                assert(got[j] == (items@[j].0@, *items@[j].1));
            }
            assert(out@.map_values(|s: String| s@) =~= want);
        }
        out
    }

    /// The names that export a value, in name order.
    pub fn value_names(&self) -> (r: Vec<String>)
        ensures
            r@.map_values(|s: String| s@) == listed(self@, SymbolKind::Value).map_values(|p: (Seq<char>, CanonicalSymbol)| p.0),
    {
        self.names_of(SymbolKind::Value)
    }

    /// The names that export a type, in name order.
    pub fn type_names(&self) -> (r: Vec<String>)
        ensures
            r@.map_values(|s: String| s@) == listed(self@, SymbolKind::Type).map_values(|p: (Seq<char>, CanonicalSymbol)| p.0),
    {
        self.names_of(SymbolKind::Type)
    }

    /// The names that export a class, in name order.
    pub fn class_names(&self) -> (r: Vec<String>)
        ensures
            r@.map_values(|s: String| s@) == listed(self@, SymbolKind::Class).map_values(|p: (Seq<char>, CanonicalSymbol)| p.0),
    {
        self.names_of(SymbolKind::Class)
    }
}

/// Setting a symbol of a name is seen by the next lookup of that name in
/// that namespace, and changes no other name or namespace; the table keeps
/// its names in order.
pub proof fn law_set_then_lookup(t: Seq<(Seq<char>, ExportEntry)>, name: Seq<char>, kind: SymbolKind, s: CanonicalSymbol, other: Seq<char>, other_kind: SymbolKind)
    requires
        keys_sorted(t),
    ensures
        keys_sorted(table_set(t, name, kind, s)),
        exported(table_set(t, name, kind, s), other, other_kind) == if other == name && other_kind == kind {
            Some(s)
        } else {
            exported(t, other, other_kind)
        },
{
    let base = match dict_get(t, name) {
        Some(e) => e,
        None => empty_entry(),
    };
    crate::dicts::lemma_insert_sorted(t, name, with_slot(base, kind, s));
    crate::dicts::lemma_get_insert(t, name, with_slot(base, kind, s), other);
}

/// What a declaration of a module contributes to its exports: its kind,
/// its name, whether it is public, and for a data type its constructors.
#[derive(Debug)]
pub enum DeclSummary {
    Fn { name: String, is_pub: bool },
    DeclareFn { name: String, is_pub: bool },
    Type { name: String, is_pub: bool, variants: Vec<String> },
    Class { name: String, is_pub: bool },
    /// An instance or an import, which exports nothing.
    Other,
}

/// The internal names that a module's own names were renamed to, for
/// values, types and classes.
#[derive(Debug)]
pub struct LocalRenames {
    pub values: Vec<(String, String)>,
    pub types: Vec<(String, String)>,
    pub classes: Vec<(String, String)>,
}

/// A declaration by its contents.
pub enum DeclV {
    Fn(Seq<char>, bool),
    DeclareFn(Seq<char>, bool),
    Type(Seq<char>, bool, Seq<Seq<char>>),
    Class(Seq<char>, bool),
    Other,
}

pub open spec fn decl_view(d: DeclSummary) -> DeclV {
    match d {
        DeclSummary::Fn { name, is_pub } => DeclV::Fn(name@, is_pub),
        DeclSummary::DeclareFn { name, is_pub } => DeclV::DeclareFn(name@, is_pub),
        DeclSummary::Type { name, is_pub, variants } => DeclV::Type(name@, is_pub, variants@.map_values(|s: String| s@)),
        DeclSummary::Class { name, is_pub } => DeclV::Class(name@, is_pub),
        DeclSummary::Other => DeclV::Other,
    }
}

pub open spec fn renames_view(v: Seq<(String, String)>) -> Seq<(Seq<char>, Seq<char>)> {
    v.map_values(|p: (String, String)| (p.0@, p.1@))
}

/// One export to record: a name, its namespace, and its internal name.
pub type ExportStep = (Seq<char>, SymbolKind, Seq<char>);

/// The export of `name` in the namespace `kind`, if it was renamed.
pub open spec fn renamed_step(ren: Seq<(Seq<char>, Seq<char>)>, name: Seq<char>, kind: SymbolKind) -> Seq<ExportStep> {
    match dict_get(ren, name) {
        Some(internal) => seq![(name, kind, internal)],
        None => Seq::empty(),
    }
}

/// The exports of the constructors `vs`, in order.
pub open spec fn variant_steps(ren: Seq<(Seq<char>, Seq<char>)>, vs: Seq<Seq<char>>) -> Seq<ExportStep>
    decreases vs.len(),
{
    if vs.len() == 0 {
        Seq::empty()
    } else {
        variant_steps(ren, vs.drop_last()) + renamed_step(ren, vs.last(), SymbolKind::Value)
    }
}

/// The exports of one declaration: a public function or declared function
/// as a value, a public data type as a type and its constructors as values,
/// a public class as a class, each only where it was renamed.
pub open spec fn decl_steps(
    values: Seq<(Seq<char>, Seq<char>)>,
    types: Seq<(Seq<char>, Seq<char>)>,
    classes: Seq<(Seq<char>, Seq<char>)>,
    d: DeclV,
) -> Seq<ExportStep> {
    match d {
        DeclV::Fn(n, true) => renamed_step(values, n, SymbolKind::Value),
        DeclV::DeclareFn(n, true) => renamed_step(values, n, SymbolKind::Value),
        DeclV::Type(n, true, vs) => renamed_step(types, n, SymbolKind::Type) + variant_steps(values, vs),
        DeclV::Class(n, true) => renamed_step(classes, n, SymbolKind::Class),
        _ => Seq::empty(),
    }
}

/// The exports of the declarations `ds`, in order.
pub open spec fn program_steps(
    values: Seq<(Seq<char>, Seq<char>)>,
    types: Seq<(Seq<char>, Seq<char>)>,
    classes: Seq<(Seq<char>, Seq<char>)>,
    ds: Seq<DeclV>,
) -> Seq<ExportStep>
    decreases ds.len(),
{
    if ds.len() == 0 {
        Seq::empty()
    } else {
        program_steps(values, types, classes, ds.drop_last()) + decl_steps(values, types, classes, ds.last())
    }
}

/// The symbol slot of an entry by contents.
pub open spec fn deep_with(e: EntryV, kind: SymbolKind, s: (ModuleKey, SymbolKind, Seq<char>, Seq<char>)) -> EntryV {
    match kind {
        SymbolKind::Value => (Some(s), e.1, e.2),
        SymbolKind::Type => (e.0, Some(s), e.2),
        SymbolKind::Class => (e.0, e.1, Some(s)),
    }
}

/// Recording the export `st` of the module with key `key` in a table by
/// contents.
pub open spec fn deep_set(t: Seq<(Seq<char>, EntryV)>, key: ModuleKey, st: ExportStep) -> Seq<(Seq<char>, EntryV)> {
    let base = match dict_get(t, st.0) {
        Some(e) => e,
        None => (None, None, None),
    };
    dict_insert(t, st.0, deep_with(base, st.1, (key, st.1, st.0, st.2)))
}

/// The table after recording the exports `steps` in order.
pub open spec fn apply_steps(t: Seq<(Seq<char>, EntryV)>, key: ModuleKey, steps: Seq<ExportStep>) -> Seq<(Seq<char>, EntryV)>
    decreases steps.len(),
{
    if steps.len() == 0 {
        t
    } else {
        deep_set(apply_steps(t, key, steps.drop_last()), key, steps.last())
    }
}

/// Recording an export in a table and viewing it by contents is recording
/// it in the view.
proof fn lemma_set_deep(t: Seq<(Seq<char>, ExportEntry)>, s: CanonicalSymbol, st: ExportStep)
    requires
        sym_view(s) == (s.module, st.1, st.0, st.2),
    ensures
        exports_deep(table_set(t, st.0, st.1, s)) == deep_set(exports_deep(t), s.module, st),
{
    let g = |e: ExportEntry| entry_view(e);
    crate::dicts::lemma_get_mapped(t, st.0, g);
    assert(exports_deep(t) =~= t.map_values(|p: (Seq<char>, ExportEntry)| (p.0, g(p.1))));
    let base = match dict_get(t, st.0) {
        Some(e) => e,
        None => empty_entry(),
    };
    crate::dicts::lemma_insert_view(t, st.0, with_slot(base, st.1, s), g);
    assert(exports_deep(table_set(t, st.0, st.1, s)) =~= table_set(t, st.0, st.1, s).map_values(
        |p: (Seq<char>, ExportEntry)| (p.0, g(p.1)),
    ));
}

/// Records the export `name` in the namespace `kind` under the internal
/// name that `ren` gives it, if it gives one.
fn record_renamed(
    out: &mut ModuleExports,
    ren: &Vec<(String, String)>,
    name: &String,
    kind: SymbolKind,
    key: ModuleKey,
    Ghost(steps): Ghost<Seq<ExportStep>>,
)
    requires
        old(out).wf(),
        exports_deep(old(out)@) == apply_steps(Seq::empty(), key, steps),
    ensures
        final(out).wf(),
        exports_deep(final(out)@) == apply_steps(Seq::empty(), key, steps + renamed_step(renames_view(ren@), name@, kind)),
{
    let ghost g = |s: String| s@;
    proof {
        crate::dicts::lemma_get_mapped(fields_view(ren@), name@, g);
        assert(renames_view(ren@) =~= fields_view(ren@).map_values(|p: (Seq<char>, String)| (p.0, g(p.1))));
    }
    match field_index(ren, name.as_str()) {
        Some(i) => {
            let internal = ren[i].1.clone();
            let sym = CanonicalSymbol::from_symbol(key, kind, name.clone(), internal);
            let ghost st: ExportStep = (name@, kind, ren@[i as int].1@);
            let ghost t0 = out@;
            proof {
                lemma_set_deep(t0, sym, st);
                let all = steps + renamed_step(renames_view(ren@), name@, kind);
                assert(all.drop_last() =~= steps);
                assert(all.last() == st);
            }
            match kind {
                SymbolKind::Value => out.insert_value(name.clone(), sym),
                SymbolKind::Type => out.insert_type(name.clone(), sym),
                SymbolKind::Class => out.insert_class(name.clone(), sym),
            }
        },
        None => {
            proof {
                assert(steps + renamed_step(renames_view(ren@), name@, kind) =~= steps);
            }
        },
    }
}

/// The export table of a module: each public function and declared function
/// as a value, each public data type as a type and its constructors as
/// values, each public class as a class, under the internal names that
/// `renames` gives them (a name that it does not rename is left out), in the
/// order of the declarations, a later export of a name replacing an
/// earlier one in the same namespace.
pub fn exports_from_program(decls: &Vec<DeclSummary>, renames: &LocalRenames, module_id: &ModuleId) -> (r: ModuleExports)
    ensures
        r.wf(),
        exists|key: ModuleKey| #[trigger] key@ == module_key_spec(module_id@) && exports_deep(r@) == apply_steps(
            Seq::empty(),
            key,
            program_steps(
                renames_view(renames.values@),
                renames_view(renames.types@),
                renames_view(renames.classes@),
                decls@.map_values(|d: DeclSummary| decl_view(d)),
            ),
        ),
{
    let key = module_key_for_module(module_id);
    let ghost vr = renames_view(renames.values@);
    let ghost tr = renames_view(renames.types@);
    let ghost cr = renames_view(renames.classes@);
    let ghost dv = decls@.map_values(|d: DeclSummary| decl_view(d));
    let mut out = ModuleExports::default();
    let ghost mut steps: Seq<ExportStep> = Seq::empty();
    let mut i: usize = 0;
    proof {
        assert(exports_deep(out@) =~= Seq::<(Seq<char>, EntryV)>::empty());
        assert(dv.take(0) =~= Seq::<DeclV>::empty());
    }
    while i < decls.len()
        invariant
            0 <= i <= decls@.len(),
            out.wf(),
            dv == decls@.map_values(|d: DeclSummary| decl_view(d)),
            vr == renames_view(renames.values@),
            tr == renames_view(renames.types@),
            cr == renames_view(renames.classes@),
            steps == program_steps(vr, tr, cr, dv.take(i as int)),
            exports_deep(out@) == apply_steps(Seq::empty(), key, steps),
        decreases decls@.len() - i,
    {
        proof {
            assert(dv.take(i + 1).drop_last() =~= dv.take(i as int));
            assert(dv.take(i + 1).last() == decl_view(decls@[i as int]));
        }
        match &decls[i] {
            DeclSummary::Fn { name, is_pub } | DeclSummary::DeclareFn { name, is_pub } => {
                if *is_pub {
                    record_renamed(&mut out, &renames.values, name, SymbolKind::Value, key, Ghost(steps));
                    proof {
                        steps = steps + renamed_step(vr, name@, SymbolKind::Value);
                    }
                }
            },
            DeclSummary::Type { name, is_pub, variants } => {
                if *is_pub {
                    record_renamed(&mut out, &renames.types, name, SymbolKind::Type, key, Ghost(steps));
                    let ghost vs = variants@.map_values(|s: String| s@);
                    proof {
                        steps = steps + renamed_step(tr, name@, SymbolKind::Type);
                        assert(vs.take(0) =~= Seq::<Seq<char>>::empty());
                    }
                    let ghost mid = steps;
                    let mut j: usize = 0;
                    while j < variants.len()
                        invariant
                            0 <= j <= variants@.len(),
                            out.wf(),
                            vr == renames_view(renames.values@),
                            vs == variants@.map_values(|s: String| s@),
                            steps == mid + variant_steps(vr, vs.take(j as int)),
                            exports_deep(out@) == apply_steps(Seq::empty(), key, steps),
                        decreases variants@.len() - j,
                    {
                        record_renamed(&mut out, &renames.values, &variants[j], SymbolKind::Value, key, Ghost(steps));
                        proof {
                            assert(vs.take(j + 1).drop_last() =~= vs.take(j as int));
                            assert(vs.take(j + 1).last() == variants@[j as int]@);
                            assert(mid + variant_steps(vr, vs.take(j + 1)) =~= steps + renamed_step(vr, variants@[j as int]@, SymbolKind::Value));
                            steps = steps + renamed_step(vr, variants@[j as int]@, SymbolKind::Value);
                        }
                        j += 1;
                    }
                    proof {
                        assert(vs.take(j as int) =~= vs);
                    }
                }
            },
            DeclSummary::Class { name, is_pub } => {
                if *is_pub {
                    record_renamed(&mut out, &renames.classes, name, SymbolKind::Class, key, Ghost(steps));
                    proof {
                        steps = steps + renamed_step(cr, name@, SymbolKind::Class);
                    }
                }
            },
            DeclSummary::Other => {},
        }
        proof {
            let d = decl_view(decls@[i as int]);
            assert(steps =~= program_steps(vr, tr, cr, dv.take(i as int)) + decl_steps(vr, tr, cr, d));
        }
        i += 1;
    }
    proof {
        assert(dv.take(i as int) =~= dv);
        assert(key@ == module_key_spec(module_id@));
    }
    out
}

/// The entry of `name` in a table by contents, empty where it has none.
pub open spec fn entry_of(t: Seq<(Seq<char>, EntryV)>, name: Seq<char>) -> EntryV {
    match dict_get(t, name) {
        Some(e) => e,
        None => (None, None, None),
    }
}

/// Recording exports in order, then more, is recording them all in order.
proof fn lemma_apply_concat(t: Seq<(Seq<char>, EntryV)>, key: ModuleKey, a: Seq<ExportStep>, b: Seq<ExportStep>)
    ensures
        apply_steps(t, key, a + b) == apply_steps(apply_steps(t, key, a), key, b),
    decreases b.len(),
{
    if b.len() == 0 {
        assert(a + b =~= a);
    } else {
        lemma_apply_concat(t, key, a, b.drop_last());
        assert((a + b).drop_last() =~= a + b.drop_last());
        assert((a + b).last() == b.last());
    }
}

/// The exports of a program are those of its declarations, recorded one
/// declaration after another.
pub proof fn law_program_exports_declaration_by_declaration(
    t: Seq<(Seq<char>, EntryV)>,
    key: ModuleKey,
    values: Seq<(Seq<char>, Seq<char>)>,
    types: Seq<(Seq<char>, Seq<char>)>,
    classes: Seq<(Seq<char>, Seq<char>)>,
    ds: Seq<DeclV>,
    d: DeclV,
)
    ensures
        apply_steps(t, key, program_steps(values, types, classes, ds.push(d))) == apply_steps(
            apply_steps(t, key, program_steps(values, types, classes, ds)),
            key,
            decl_steps(values, types, classes, d),
        ),
{
    assert(ds.push(d).drop_last() =~= ds);
    lemma_apply_concat(t, key, program_steps(values, types, classes, ds), decl_steps(values, types, classes, d));
}

/// A declaration that is not public exports nothing.
pub proof fn law_private_declarations_export_nothing(
    t: Seq<(Seq<char>, EntryV)>,
    key: ModuleKey,
    values: Seq<(Seq<char>, Seq<char>)>,
    types: Seq<(Seq<char>, Seq<char>)>,
    classes: Seq<(Seq<char>, Seq<char>)>,
    d: DeclV,
)
    requires
        match d {
            DeclV::Fn(_, p) => !p,
            DeclV::DeclareFn(_, p) => !p,
            DeclV::Type(_, p, _) => !p,
            DeclV::Class(_, p) => !p,
            DeclV::Other => true,
        },
    ensures
        apply_steps(t, key, decl_steps(values, types, classes, d)) == t,
{
    assert(decl_steps(values, types, classes, d) =~= Seq::<ExportStep>::empty());
}

/// A declared function exports exactly what a function of the same name
/// and visibility exports.
pub proof fn law_declared_function_exports_like_a_function(
    values: Seq<(Seq<char>, Seq<char>)>,
    types: Seq<(Seq<char>, Seq<char>)>,
    classes: Seq<(Seq<char>, Seq<char>)>,
    name: Seq<char>,
    is_pub: bool,
)
    ensures
        decl_steps(values, types, classes, DeclV::DeclareFn(name, is_pub)) == decl_steps(values, types, classes, DeclV::Fn(name, is_pub)),
{
}

/// A public function (or declared function) that is renamed is exported as
/// a value under its own name, with the module's key and its renamed
/// internal symbol; its type and class exports stay as they were, and so
/// does every other name. One that is not renamed changes nothing.
pub proof fn law_public_function_is_exported_as_a_value(
    t: Seq<(Seq<char>, EntryV)>,
    key: ModuleKey,
    values: Seq<(Seq<char>, Seq<char>)>,
    types: Seq<(Seq<char>, Seq<char>)>,
    classes: Seq<(Seq<char>, Seq<char>)>,
    name: Seq<char>,
    declared: bool,
    other: Seq<char>,
)
    ensures
        ({
            let d = if declared { DeclV::DeclareFn(name, true) } else { DeclV::Fn(name, true) };
            let r = apply_steps(t, key, decl_steps(values, types, classes, d));
            &&& match dict_get(values, name) {
                Some(internal) => {
                    &&& dict_get(r, name) is Some
                    &&& entry_of(r, name).0 == Some((key, SymbolKind::Value, name, internal))
                    &&& entry_of(r, name).1 == entry_of(t, name).1
                    &&& entry_of(r, name).2 == entry_of(t, name).2
                },
                None => r == t,
            }
            &&& other != name ==> dict_get(r, other) == dict_get(t, other)
        }),
{
    let d = if declared { DeclV::DeclareFn(name, true) } else { DeclV::Fn(name, true) };
    let steps = decl_steps(values, types, classes, d);
    assert(steps == renamed_step(values, name, SymbolKind::Value));
    match dict_get(values, name) {
        Some(internal) => {
            let st: ExportStep = (name, SymbolKind::Value, internal);
            assert(steps == seq![st]);
            assert(seq![st].drop_last() =~= Seq::<ExportStep>::empty());
            assert(seq![st].last() == st);
            assert(apply_steps(t, key, Seq::<ExportStep>::empty()) == t);
            assert(apply_steps(t, key, seq![st]) == deep_set(t, key, st));
            let base = entry_of(t, name);
            crate::dicts::lemma_get_insert(t, name, deep_with(base, SymbolKind::Value, (key, SymbolKind::Value, name, internal)), name);
            crate::dicts::lemma_get_insert(t, name, deep_with(base, SymbolKind::Value, (key, SymbolKind::Value, name, internal)), other);
        },
        None => {
            assert(steps =~= Seq::<ExportStep>::empty());
        },
    }
}

/// A public class that is renamed is exported as a class under its own
/// name, with the module's key and its renamed internal symbol; its value
/// and type exports stay as they were.
pub proof fn law_public_class_is_exported_as_a_class(
    t: Seq<(Seq<char>, EntryV)>,
    key: ModuleKey,
    values: Seq<(Seq<char>, Seq<char>)>,
    types: Seq<(Seq<char>, Seq<char>)>,
    classes: Seq<(Seq<char>, Seq<char>)>,
    name: Seq<char>,
    internal: Seq<char>,
)
    requires
        dict_get(classes, name) == Some(internal),
    ensures
        ({
            let r = apply_steps(t, key, decl_steps(values, types, classes, DeclV::Class(name, true)));
            &&& entry_of(r, name).2 == Some((key, SymbolKind::Class, name, internal))
            &&& entry_of(r, name).0 == entry_of(t, name).0
            &&& entry_of(r, name).1 == entry_of(t, name).1
        }),
{
    let st: ExportStep = (name, SymbolKind::Class, internal);
    assert(decl_steps(values, types, classes, DeclV::Class(name, true)) == seq![st]);
    assert(seq![st].drop_last() =~= Seq::<ExportStep>::empty());
    assert(seq![st].last() == st);
    assert(apply_steps(t, key, Seq::<ExportStep>::empty()) == t);
    assert(apply_steps(t, key, seq![st]) == deep_set(t, key, st));
    let base = entry_of(t, name);
    crate::dicts::lemma_get_insert(t, name, deep_with(base, SymbolKind::Class, (key, SymbolKind::Class, name, internal)), name);
}

/// Recording value exports leaves every type and class export as it was.
proof fn lemma_value_steps_keep_types(t: Seq<(Seq<char>, EntryV)>, key: ModuleKey, steps: Seq<ExportStep>, name: Seq<char>)
    requires
        forall|i: int| 0 <= i < steps.len() ==> (#[trigger] steps[i]).1 == SymbolKind::Value,
    ensures
        entry_of(apply_steps(t, key, steps), name).1 == entry_of(t, name).1,
        entry_of(apply_steps(t, key, steps), name).2 == entry_of(t, name).2,
    decreases steps.len(),
{
    if steps.len() > 0 {
        let prev = apply_steps(t, key, steps.drop_last());
        assert forall|i: int| 0 <= i < steps.drop_last().len() implies (#[trigger] steps.drop_last()[i]).1 == SymbolKind::Value by {
            assert(steps.drop_last()[i] == steps[i]);
        }
        lemma_value_steps_keep_types(t, key, steps.drop_last(), name);
        let st = steps.last();
        assert(st == steps[steps.len() - 1]);
        let base = entry_of(prev, st.0);
        crate::dicts::lemma_get_insert(prev, st.0, deep_with(base, st.1, (key, st.1, st.0, st.2)), name);
    }
}

/// The exports of constructors are value exports.
proof fn lemma_variant_steps_are_values(values: Seq<(Seq<char>, Seq<char>)>, vs: Seq<Seq<char>>)
    ensures
        forall|i: int| 0 <= i < variant_steps(values, vs).len() ==> (#[trigger] variant_steps(values, vs)[i]).1 == SymbolKind::Value,
    decreases vs.len(),
{
    if vs.len() > 0 {
        lemma_variant_steps_are_values(values, vs.drop_last());
        let a = variant_steps(values, vs.drop_last());
        let b = renamed_step(values, vs.last(), SymbolKind::Value);
        assert forall|i: int| 0 <= i < variant_steps(values, vs).len() implies (#[trigger] variant_steps(values, vs)[i]).1 == SymbolKind::Value by {
            if i < a.len() {
                assert(variant_steps(values, vs)[i] == a[i]);
            } else {
                assert(variant_steps(values, vs)[i] == b[i - a.len()]);
            }
        }
    }
}

/// A public data type that is renamed is exported as a type under its own
/// name, with the module's key and its renamed internal symbol, whatever
/// its constructors; its class export stays as it was.
pub proof fn law_public_type_is_exported_as_a_type(
    t: Seq<(Seq<char>, EntryV)>,
    key: ModuleKey,
    values: Seq<(Seq<char>, Seq<char>)>,
    types: Seq<(Seq<char>, Seq<char>)>,
    classes: Seq<(Seq<char>, Seq<char>)>,
    name: Seq<char>,
    internal: Seq<char>,
    vs: Seq<Seq<char>>,
)
    requires
        dict_get(types, name) == Some(internal),
    ensures
        ({
            let r = apply_steps(t, key, decl_steps(values, types, classes, DeclV::Type(name, true, vs)));
            &&& entry_of(r, name).1 == Some((key, SymbolKind::Type, name, internal))
            &&& entry_of(r, name).2 == entry_of(t, name).2
        }),
{
    let st: ExportStep = (name, SymbolKind::Type, internal);
    let vsteps = variant_steps(values, vs);
    assert(decl_steps(values, types, classes, DeclV::Type(name, true, vs)) == seq![st] + vsteps);
    lemma_apply_concat(t, key, seq![st], vsteps);
    assert(seq![st].drop_last() =~= Seq::<ExportStep>::empty());
    assert(seq![st].last() == st);
    assert(apply_steps(t, key, Seq::<ExportStep>::empty()) == t);
    let t1 = apply_steps(t, key, seq![st]);
    assert(t1 == deep_set(t, key, st));
    let base = entry_of(t, name);
    crate::dicts::lemma_get_insert(t, name, deep_with(base, SymbolKind::Type, (key, SymbolKind::Type, name, internal)), name);
    lemma_variant_steps_are_values(values, vs);
    lemma_value_steps_keep_types(t1, key, vsteps, name);
}

/// Each constructor of a public data type that is renamed, and that no
/// later constructor of the type shares its name with, is exported as a
/// value under its own name with its renamed internal symbol.
pub proof fn law_public_type_exports_its_constructors(
    t: Seq<(Seq<char>, EntryV)>,
    key: ModuleKey,
    values: Seq<(Seq<char>, Seq<char>)>,
    types: Seq<(Seq<char>, Seq<char>)>,
    classes: Seq<(Seq<char>, Seq<char>)>,
    name: Seq<char>,
    vs: Seq<Seq<char>>,
    i: int,
    internal: Seq<char>,
)
    requires
        0 <= i < vs.len(),
        dict_get(values, vs[i]) == Some(internal),
        forall|j: int| i < j < vs.len() ==> #[trigger] vs[j] != vs[i],
    ensures
        entry_of(apply_steps(t, key, decl_steps(values, types, classes, DeclV::Type(name, true, vs))), vs[i]).0 == Some(
            (key, SymbolKind::Value, vs[i], internal),
        ),
    decreases vs.len(),
{
    let tsteps = renamed_step(types, name, SymbolKind::Type);
    let t1 = apply_steps(t, key, tsteps);
    assert(decl_steps(values, types, classes, DeclV::Type(name, true, vs)) == tsteps + variant_steps(values, vs));
    lemma_apply_concat(t, key, tsteps, variant_steps(values, vs));
    lemma_variants_value(t1, key, values, vs, i, internal);
}

proof fn lemma_variants_value(t: Seq<(Seq<char>, EntryV)>, key: ModuleKey, values: Seq<(Seq<char>, Seq<char>)>, vs: Seq<Seq<char>>, i: int, internal: Seq<char>)
    requires
        0 <= i < vs.len(),
        dict_get(values, vs[i]) == Some(internal),
        forall|j: int| i < j < vs.len() ==> #[trigger] vs[j] != vs[i],
    ensures
        entry_of(apply_steps(t, key, variant_steps(values, vs)), vs[i]).0 == Some((key, SymbolKind::Value, vs[i], internal)),
    decreases vs.len(),
{
    let a = variant_steps(values, vs.drop_last());
    let b = renamed_step(values, vs.last(), SymbolKind::Value);
    lemma_apply_concat(t, key, a, b);
    let ta = apply_steps(t, key, a);
    if i == vs.len() - 1 {
        let st: ExportStep = (vs[i], SymbolKind::Value, internal);
        assert(b == seq![st]);
        assert(seq![st].drop_last() =~= Seq::<ExportStep>::empty());
        assert(seq![st].last() == st);
        assert(apply_steps(ta, key, Seq::<ExportStep>::empty()) == ta);
        assert(apply_steps(ta, key, seq![st]) == deep_set(ta, key, st));
        let base = entry_of(ta, vs[i]);
        crate::dicts::lemma_get_insert(ta, vs[i], deep_with(base, SymbolKind::Value, (key, SymbolKind::Value, vs[i], internal)), vs[i]);
    } else {
        assert(vs.drop_last()[i] == vs[i]);
        assert forall|j: int| i < j < vs.drop_last().len() implies #[trigger] vs.drop_last()[j] != vs.drop_last()[i] by {
            assert(vs.drop_last()[j] == vs[j]);
        }
        lemma_variants_value(t, key, values, vs.drop_last(), i, internal);
        assert(vs.last() != vs[i]);
        match dict_get(values, vs.last()) {
            Some(r2) => {
                let st: ExportStep = (vs.last(), SymbolKind::Value, r2);
                assert(b == seq![st]);
                assert(seq![st].drop_last() =~= Seq::<ExportStep>::empty());
                assert(seq![st].last() == st);
                assert(apply_steps(ta, key, Seq::<ExportStep>::empty()) == ta);
                assert(apply_steps(ta, key, seq![st]) == deep_set(ta, key, st));
                let base = entry_of(ta, vs.last());
                crate::dicts::lemma_get_insert(ta, vs.last(), deep_with(base, SymbolKind::Value, (key, SymbolKind::Value, vs.last(), r2)), vs[i]);
            },
            None => {
                assert(b =~= Seq::<ExportStep>::empty());
                assert(apply_steps(ta, key, b) == ta);
            },
        }
    }
}

} // verus!
