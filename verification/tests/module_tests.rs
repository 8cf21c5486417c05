use rex_engine::error::{EngineError, ModuleError};
use rex_engine::module_id::{validate_segment, ModuleId, ModuleIdErrorKind};
use rex_engine::module_types::{
    module_key_for_module, prefix_for_module, prefix_for_module_key, qualify, virtual_export_name,
    CanonicalSymbol, DenyImporter, ImportRequest, ImportRequestKey, SymbolKind,
};

fn id(s: &str) -> ModuleId {
    ModuleId::parse(s).expect("valid module id")
}

#[test]
fn parse_splits_on_dots_and_renders_back() {
    let m = id("std.prelude");
    let segs: Vec<String> = m.segments().to_vec();
    assert_eq!(segs, vec!["std".to_string(), "prelude".to_string()]);
    assert_eq!(m.to_string(), "std.prelude");
    let deep = id("ffmpeg.formats.av1");
    assert_eq!(deep.segments().len(), 3);
    assert_eq!(id("_x1.y_2").to_string(), "_x1.y_2");
}

#[test]
fn parse_rejects_each_bad_shape_with_its_reason() {
    let e = ModuleId::parse("").unwrap_err();
    assert_eq!(e.kind(), ModuleIdErrorKind::Empty);
    assert_eq!(e.reason(), "module id cannot be empty");
    assert_eq!(e.input(), "");

    let e = ModuleId::parse(" std").unwrap_err();
    assert_eq!(e.kind(), ModuleIdErrorKind::Whitespace);
    assert_eq!(e.input(), " std");
    assert_eq!(
        e.reason(),
        "module id cannot contain leading or trailing whitespace"
    );

    let e = ModuleId::parse("std..io").unwrap_err();
    assert_eq!(e.kind(), ModuleIdErrorKind::EmptySegment);
    assert_eq!(e.input(), "std..io");

    let e = ModuleId::parse("std.9io").unwrap_err();
    assert_eq!(e.kind(), ModuleIdErrorKind::BadStart);
    assert_eq!(
        e.reason(),
        "module id segment must start with a letter or underscore"
    );

    let e = ModuleId::parse("std.i-o").unwrap_err();
    assert_eq!(e.kind(), ModuleIdErrorKind::BadChar);
    assert_eq!(
        e.reason(),
        "module id segment must contain only letters, digits, or underscores"
    );
}

#[test]
fn from_segments_checks_each_segment() {
    assert!(ModuleId::from_segments(vec![]).is_err());
    let ok = ModuleId::from_segments(vec!["a".to_string(), "b".to_string()]).expect("valid");
    assert_eq!(ok.to_string(), "a.b");
    let e = ModuleId::from_segments(vec!["a".to_string(), "b c".to_string()]).unwrap_err();
    assert_eq!(e.kind(), ModuleIdErrorKind::BadChar);
    assert_eq!(e.input(), "b c");
    assert!(validate_segment(&"ok_1".to_string()).is_ok());
    assert_eq!(
        validate_segment(&"".to_string()).unwrap_err().kind(),
        ModuleIdErrorKind::EmptySegment
    );
}

#[test]
fn parent_and_join_move_along_the_segments() {
    let m = id("a.b.c");
    assert_eq!(m.parent().expect("has parent").to_string(), "a.b");
    assert!(id("a").parent().is_none());
    assert_eq!(id("a.b").join(&id("c.d")).to_string(), "a.b.c.d");
    let p = m.parent().expect("has parent");
    assert_eq!(p.join(&id("c")).to_string(), m.to_string());
}

#[test]
fn module_keys_are_fnv1a_over_the_identity_bytes() {
    assert_eq!(
        module_key_for_module(&id("std.prelude")).as_u64(),
        18076084311843227473
    );
    assert_eq!(module_key_for_module(&id("a")).as_u64(), 17353758801225346854);
    assert_eq!(
        module_key_for_module(&id("ffmpeg.formats.av1")).as_u64(),
        13843562773124131716
    );
}

#[test]
fn prefixes_are_sixteen_lowercase_hex_digits() {
    let key = module_key_for_module(&id("std.prelude"));
    assert_eq!(prefix_for_module_key(key), "@mfadb26e9116d4751");
    assert_eq!(prefix_for_module(&id("a")), "@mf0d4efaf80d86f26");
    assert_eq!(prefix_for_module(&id("ffmpeg.formats.av1")), "@mc01e36feede2ab84");
    assert_eq!(prefix_for_module(&id("a")).len(), 18);
}

#[test]
fn canonical_symbols_qualify_the_local_name() {
    let key = module_key_for_module(&id("a"));
    let c = CanonicalSymbol::new(key, SymbolKind::Type, "Maybe".to_string());
    assert_eq!(c.symbol(), "@mf0d4efaf80d86f26.Maybe");
    assert_eq!(c.local, "Maybe");
    assert_eq!(c.kind, SymbolKind::Type);
    let d = CanonicalSymbol::from_symbol(key, SymbolKind::Class, "Eq".to_string(), "x.Eq".to_string());
    assert_eq!(d.symbol(), "x.Eq");
    assert_eq!(qualify("p", "n"), "p.n");
}

#[test]
fn virtual_export_names_use_the_key_prefix_for_valid_ids() {
    assert_eq!(virtual_export_name("a", "f"), "@mf0d4efaf80d86f26.f");
    assert_eq!(virtual_export_name("not valid", "f"), "not valid.f");
    assert_eq!(virtual_export_name("", "f"), ".f");
}

#[test]
fn import_requests_carry_the_importer() {
    let r = ImportRequest::new(id("a.b"));
    assert!(r.importer.is_none());
    assert_eq!(r.module_id.to_string(), "a.b");
    let w = ImportRequest::with_importer(id("a.b"), id("main"));
    assert_eq!(w.importer.expect("importer").to_string(), "main");
}

#[test]
fn the_deny_importer_refuses_naming_the_module() {
    match DenyImporter.import(ImportRequest::new(id("std.io"))) {
        Err(EngineError::Module(ModuleError::ImportsDisabled { module_name })) => {
            assert_eq!(module_name, "std.io")
        }
        other => panic!("unexpected {:?}", other.is_ok()),
    }
}

#[test]
fn request_key_keeps_the_module_and_the_importer() {
    let k = ImportRequestKey::from_request(&ImportRequest::with_importer(id("a.b"), id("c")));
    assert_eq!(k.module_id.to_string(), "a.b");
    assert_eq!(k.importer.map(|m| m.to_string()), Some("c".to_string()));
    let k = ImportRequestKey::from_request(&ImportRequest::new(id("x")));
    assert_eq!(k.module_id.to_string(), "x");
    assert!(k.importer.is_none());
}
