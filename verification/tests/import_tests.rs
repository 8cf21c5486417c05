use rex_engine::error::{EngineError, ModuleError};
use rex_engine::exports::{exports_from_program, DeclSummary, LocalRenames, ModuleExports};
use rex_engine::imports::{add_import_bindings, ImportBindingPolicy, ImportBindings, ImportClauseSpec, ImportSpec};
use rex_engine::module_id::ModuleId;
use rex_engine::module_types::{module_key_for_module, CanonicalSymbol, SymbolKind};

fn poppler_exports() -> ModuleExports {
    let key = module_key_for_module(&ModuleId::parse("tools.poppler").unwrap());
    let mut e = ModuleExports::default();
    e.insert_value("CairoSingleFile".to_string(), CanonicalSymbol::new(key, SymbolKind::Value, "CairoSingleFile".to_string()));
    e.insert_value("CairoPageFiles".to_string(), CanonicalSymbol::new(key, SymbolKind::Value, "CairoPageFiles".to_string()));
    e.insert_type("Page".to_string(), CanonicalSymbol::new(key, SymbolKind::Type, "Page".to_string()));
    e.insert_class("Render".to_string(), CanonicalSymbol::new(key, SymbolKind::Class, "Render".to_string()));
    e
}

fn no_locals() -> ImportBindingPolicy {
    ImportBindingPolicy { forbidden_values: vec![], forbidden_types: vec![] }
}

fn names<T>(v: &[(String, T)]) -> Vec<String> {
    v.iter().map(|(n, _)| n.clone()).collect()
}

#[test]
fn alias_import_records_the_module_exports() {
    let mut out = ImportBindings::new();
    let import = ImportSpec { alias: "P".to_string(), clause: ImportClauseSpec::AliasOnly };
    add_import_bindings(&mut out, &import, &poppler_exports(), &no_locals()).unwrap();
    assert_eq!(names(&out.alias_exports), vec!["P".to_string()]);
    assert!(out.alias_exports[0].1.value(&"CairoPageFiles".to_string()).is_some());
    assert!(out.imported_values.is_empty());
}

#[test]
fn listed_imports_bind_each_item_under_its_local_name() {
    let mut out = ImportBindings::new();
    let import = ImportSpec {
        alias: "poppler".to_string(),
        clause: ImportClauseSpec::Items(vec![
            ("CairoSingleFile".to_string(), None),
            ("CairoPageFiles".to_string(), Some("Pages".to_string())),
        ]),
    };
    add_import_bindings(&mut out, &import, &poppler_exports(), &no_locals()).unwrap();
    assert_eq!(names(&out.imported_values), vec!["CairoSingleFile".to_string(), "Pages".to_string()]);
    assert_eq!(out.imported_values[1].1.local, "CairoPageFiles");
}

#[test]
fn star_import_binds_every_value_type_and_class() {
    let mut out = ImportBindings::new();
    let import = ImportSpec { alias: "storage".to_string(), clause: ImportClauseSpec::All };
    add_import_bindings(&mut out, &import, &poppler_exports(), &no_locals()).unwrap();
    assert_eq!(names(&out.imported_values), vec!["CairoPageFiles".to_string(), "CairoSingleFile".to_string()]);
    assert_eq!(names(&out.imported_types), vec!["Page".to_string()]);
    assert_eq!(names(&out.imported_classes), vec!["Render".to_string()]);
}

#[test]
fn a_missing_export_is_an_error() {
    let mut out = ImportBindings::new();
    let import = ImportSpec {
        alias: "P".to_string(),
        clause: ImportClauseSpec::Items(vec![("Page".to_string(), None), ("Nope".to_string(), None)]),
    };
    match add_import_bindings(&mut out, &import, &poppler_exports(), &no_locals()) {
        Err(EngineError::Module(ModuleError::MissingExport { module, export })) => {
            assert_eq!(module, "P");
            assert_eq!(export, "Nope");
        },
        other => panic!("expected a missing export, got {:?}", other),
    }
    assert_eq!(names(&out.imported_types), vec!["Page".to_string()]);
}

#[test]
fn local_names_and_earlier_imports_cannot_be_bound_again() {
    let mut out = ImportBindings::new();
    let policy = ImportBindingPolicy { forbidden_values: vec!["CairoPageFiles".to_string()], forbidden_types: vec![] };
    let star = ImportSpec { alias: "P".to_string(), clause: ImportClauseSpec::All };
    match add_import_bindings(&mut out, &star, &poppler_exports(), &policy) {
        Err(EngineError::Module(ModuleError::ImportNameConflictsWithLocal { module, name })) => {
            assert_eq!(module, "P");
            assert_eq!(name, "CairoPageFiles");
        },
        other => panic!("expected a conflict, got {:?}", other),
    }
    assert!(out.imported_values.is_empty());

    let mut out = ImportBindings::new();
    let one = ImportSpec { alias: "P".to_string(), clause: ImportClauseSpec::Items(vec![("Page".to_string(), None)]) };
    add_import_bindings(&mut out, &one, &poppler_exports(), &no_locals()).unwrap();
    match add_import_bindings(&mut out, &one, &poppler_exports(), &no_locals()) {
        Err(EngineError::Module(ModuleError::DuplicateImportedName { name })) => assert_eq!(name, "Page"),
        other => panic!("expected a duplicate, got {:?}", other),
    }
}

#[test]
fn program_exports_list_public_renamed_declarations() {
    let id = ModuleId::parse("tools.poppler").unwrap();
    let decls = vec![
        DeclSummary::Fn { name: "render".to_string(), is_pub: true },
        DeclSummary::Fn { name: "helper".to_string(), is_pub: false },
        DeclSummary::Type { name: "Page".to_string(), is_pub: true, variants: vec!["Single".to_string(), "Many".to_string()] },
        DeclSummary::Class { name: "Draw".to_string(), is_pub: true },
        DeclSummary::DeclareFn { name: "unrenamed".to_string(), is_pub: true },
        DeclSummary::Other,
    ];
    let renames = LocalRenames {
        values: vec![
            ("render".to_string(), "@m.render".to_string()),
            ("helper".to_string(), "@m.helper".to_string()),
            ("Single".to_string(), "@m.Single".to_string()),
            ("Many".to_string(), "@m.Many".to_string()),
        ],
        types: vec![("Page".to_string(), "@m.Page".to_string())],
        classes: vec![("Draw".to_string(), "@m.Draw".to_string())],
    };
    let exports = exports_from_program(&decls, &renames, &id);
    assert_eq!(exports.value(&"render".to_string()).unwrap().symbol, "@m.render");
    assert!(exports.value(&"helper".to_string()).is_none());
    assert!(exports.value(&"unrenamed".to_string()).is_none());
    assert_eq!(exports.value(&"Many".to_string()).unwrap().symbol, "@m.Many");
    assert_eq!(exports.typ(&"Page".to_string()).unwrap().local, "Page");
    assert_eq!(exports.class(&"Draw".to_string()).unwrap().symbol, "@m.Draw");
    assert_eq!(exports.value(&"render".to_string()).unwrap().module, module_key_for_module(&id));
    assert_eq!(exports.value_names(), vec!["Many".to_string(), "Single".to_string(), "render".to_string()]);
}
