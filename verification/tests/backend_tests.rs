use silq::ast::{Annotation, Declaration, Expression, Id, Interner, LiteralValue, NumericType, TypeKind};
use silq::basis::BasisState;
use silq::errors::{ErrorType, Location, SimpleErrorHandler};
use silq::hqir::HqirWriter;
use silq::modules::{module_file_name, parse_with_prelude, with_prelude_import, ModuleCache};
use silq::options::{Language, Options};

fn loc() -> Location {
    Location { line: 3, col: 7, offset: 20 }
}

// ---- Basis states ----

#[test]
fn get_after_set_and_growth() {
    let mut s = BasisState::new(2);
    assert_eq!(s.get(0), 0);
    s.set(1, 3);
    assert_eq!(s.get(1), 1);
    assert_eq!(s.get(0), 0);
    s.set(5, 1);
    assert_eq!(s.get(5), 1);
    assert_eq!(s.get(4), 0);
    assert_eq!(s.get(100), 0);
    assert_eq!(s.display(), "|100010⟩");
}

#[test]
fn ranges_round_trip() {
    let mut s = BasisState::new(0);
    s.set_range(2, 4, 0b1011);
    assert_eq!(s.get_range(2, 4), 0b1011);
    assert_eq!(s.get_range(0, 2), 0);
    s.set_range(0, 8, 0x1ff);
    assert_eq!(s.get_range(0, 8), 0xff);
}

#[test]
fn bitstrings_and_toggling() {
    let s = BasisState::from_bitstring("0110");
    assert_eq!(s.get(0), 0);
    assert_eq!(s.get(1), 1);
    assert_eq!(s.get(2), 1);
    assert_eq!(s.get(3), 0);
    assert_eq!(s.display(), "|0110⟩");
    let t = s.toggle(0);
    assert_eq!(t.get(0), 1);
    assert_eq!(t.toggle(0), s);
    // a qubit past the end reads 0, so toggling it makes it 1
    let u = s.toggle(9);
    assert_eq!(u.get(9), 1);
    assert_eq!(u.get(8), 0);
    assert_eq!(u.get(1), 1);
    assert_eq!(u.display(), "|1000000110⟩");
    assert_eq!(u.toggle(9).get(9), 0);
    assert_eq!(s.get_range(0, 4), 6);
}

// ---- HQIR ----

#[test]
fn hqir_module_frame() {
    let mut w = HqirWriter::new();
    w.compile(&[]);
    let text = w.into_string();
    assert_eq!(
        text,
        "// HQIR output from Silq compiler (Rust)\n\nmodule silq_output {\n  // (HQIR backend is a stub - implement full compilation)\n  \n}\n"
    );
}

#[test]
fn hqir_function_comment() {
    let mut w = HqirWriter::new();
    let f = Declaration::new_function(
        loc(),
        Id(4),
        vec![],
        None,
        Expression::new_literal(loc(), LiteralValue::Unit),
        Annotation::NoAnnotation,
    );
    w.compile_function(&f);
    assert_eq!(w.into_string(), "// function: Id(4)\n// params: 0\n// TODO: emit HQIR operations\n");
}

// ---- Modules ----

#[test]
fn module_names_map_to_files() {
    assert_eq!(module_file_name("a.b.c"), "a/b/c.slq");
    assert_eq!(module_file_name("prelude"), "prelude.slq");
}

#[test]
fn module_cache_stores_and_finds() {
    let mut cache = ModuleCache::new();
    assert!(cache.cached("m").is_none());
    cache.store("m", vec![Expression::Wildcard { loc: loc() }]);
    cache.store("n", vec![]);
    assert_eq!(cache.cached("m").map(|p| p.len()), Some(1));
    cache.store("m", vec![]);
    assert_eq!(cache.cached("m").map(|p| p.len()), Some(0));
    cache.add_path("lib");
    assert_eq!(cache.import_paths(), &vec!["lib".to_string()]);
}

#[test]
fn prelude_comes_first() {
    let mut interner = Interner::new();
    let program = parse_with_prelude("def id(x) => x", "id(1)", &mut interner);
    assert_eq!(program.len(), 2);
    assert!(matches!(program[0], Expression::TypeDecl(_)));
    assert!(matches!(program[1], Expression::Call { .. }));
    let with_import = with_prelude_import(vec![Expression::Wildcard { loc: loc() }]);
    assert_eq!(with_import.len(), 2);
    match &with_import[0] {
        Expression::TypeDecl(d) => assert!(matches!(&**d, Declaration::Import { path, .. } if path == "prelude")),
        _ => panic!("expected the import"),
    }
}

// ---- Diagnostics and options ----

#[test]
fn error_store_counts_errors_only() {
    let mut h = SimpleErrorHandler::new();
    h.record(&loc(), "bad", ErrorType::Error);
    h.record(&loc(), "careful", ErrorType::Warning);
    h.record(&loc(), "boom", ErrorType::RunError);
    assert_eq!(h.error_count(), 2);
    assert!(h.has_errors());
    assert_eq!(ErrorType::RunError.as_str(), "runtime error");
    assert_eq!(loc().display_text(), "3:7");
}

#[test]
fn default_options() {
    let o = Options::default();
    assert_eq!(o.language, Language::Silq);
    assert_eq!(o.inference_limit, 30);
    assert_eq!(o.repeat, 1);
    assert!(o.seed.is_none());
    assert!(!o.trace);
}

#[test]
fn numeric_type_names_and_kinds() {
    assert!(NumericType::Bool.is_subtype_of(NumericType::Complex));
    assert!(!NumericType::Real.is_subtype_of(NumericType::Rat));
    assert_eq!(NumericType::Int.unicode_name(), "ℤ");
    assert_eq!(NumericType::Int.ascii_name(), "Z");
    assert!(TypeKind::Unit.is_classical());
    assert!(TypeKind::Numeric(NumericType::Bool).is_quantum());
}

#[test]
fn only_semicolons_parse_to_an_empty_program() {
    let mut interner = Interner::new();
    assert!(silq::modules::parse_text(";; // note\n /+ c +/ ;", &mut interner).is_empty());
    assert!(silq::modules::parse_text("", &mut interner).is_empty());
    assert_eq!(silq::modules::parse_text("; x; ;", &mut interner).len(), 1);
    assert!(parse_with_prelude(";", "  ", &mut interner).is_empty());
    assert_eq!(parse_with_prelude(";", "def f() { }", &mut interner).len(), 1);
}

#[test]
fn classical_version_of_a_numeric_type() {
    let k = TypeKind::Numeric(NumericType::Bool).make_classical().unwrap();
    assert!(k.is_classical());
    match k {
        TypeKind::Classical(inner) => match *inner {
            Expression::Type { kind: TypeKind::Numeric(NumericType::Bool), .. } => {}
            _ => panic!("inner type is not the numeric type"),
        },
        _ => panic!("not a classical type"),
    }
    assert!(TypeKind::Unit.make_classical().is_none());
}
