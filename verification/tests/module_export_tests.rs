use rex_engine::exports::{ExportEntry, ModuleExports};
use rex_engine::module_id::ModuleId;
use rex_engine::module_types::{module_key_for_module, CanonicalSymbol, ModuleKey, SymbolKind};

fn key() -> ModuleKey {
    module_key_for_module(&ModuleId::parse("pkg.util").unwrap())
}

fn sym(kind: SymbolKind, local: &str) -> CanonicalSymbol {
    CanonicalSymbol::new(key(), kind, local.to_string())
}

#[test]
fn new_entry_is_empty() {
    let e = ExportEntry::new();
    assert!(e.value.is_none() && e.typ.is_none() && e.class.is_none());
    let d = ExportEntry::default();
    assert!(d.value.is_none() && d.typ.is_none() && d.class.is_none());
}

#[test]
fn a_name_can_export_in_each_namespace() {
    let mut t = ModuleExports::default();
    t.insert_value("Maybe".to_string(), sym(SymbolKind::Value, "Maybe"));
    t.insert_type("Maybe".to_string(), sym(SymbolKind::Type, "Maybe"));
    assert!(t.value(&"Maybe".to_string()).is_some());
    assert!(t.typ(&"Maybe".to_string()).is_some());
    assert!(t.class(&"Maybe".to_string()).is_none());
    let e = t.entry(&"Maybe".to_string()).unwrap();
    assert_eq!(e.value.as_ref().unwrap().kind, SymbolKind::Value);
    assert_eq!(e.typ.as_ref().unwrap().kind, SymbolKind::Type);
    assert!(t.entry(&"Other".to_string()).is_none());
}

#[test]
fn setting_again_replaces_only_that_namespace() {
    let mut t = ModuleExports::default();
    t.insert_value("f".to_string(), sym(SymbolKind::Value, "f"));
    t.insert_class("f".to_string(), sym(SymbolKind::Class, "f"));
    t.insert_value(
        "f".to_string(),
        CanonicalSymbol::from_symbol(key(), SymbolKind::Value, "f".to_string(), "other".to_string()),
    );
    assert_eq!(t.value(&"f".to_string()).unwrap().symbol(), "other");
    assert_eq!(t.class(&"f".to_string()).unwrap().kind, SymbolKind::Class);
}

#[test]
fn listings_come_in_name_order() {
    let mut t = ModuleExports::default();
    t.insert_value("zip".to_string(), sym(SymbolKind::Value, "zip"));
    t.insert_type("List".to_string(), sym(SymbolKind::Type, "List"));
    t.insert_value("map".to_string(), sym(SymbolKind::Value, "map"));
    t.insert_class("Eq".to_string(), sym(SymbolKind::Class, "Eq"));
    t.insert_value("List".to_string(), sym(SymbolKind::Value, "List"));
    assert_eq!(t.value_names(), vec!["List".to_string(), "map".to_string(), "zip".to_string()]);
    assert_eq!(t.type_names(), vec!["List".to_string()]);
    assert_eq!(t.class_names(), vec!["Eq".to_string()]);
    let values = t.values();
    assert_eq!(values.len(), 3);
    assert_eq!(values[1].0, "map");
    assert_eq!(values[1].1.local, "map");
    assert_eq!(t.types().len(), 1);
    assert_eq!(t.classes()[0].0, "Eq");
}

#[test]
fn symbols_are_qualified_by_the_module_key() {
    let s = sym(SymbolKind::Value, "f");
    let prefix = format!("@m{:016x}", key().as_u64());
    assert_eq!(s.symbol(), &format!("{}.f", prefix));
}
