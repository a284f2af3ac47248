use silq::ast::{Annotation, Declaration, Expression, Id};
use silq::basis::BasisState;
use silq::errors::Location;
use silq::json::{to_string_pretty, JsonValue};
use silq::qsim::{builtin_call, builtin_named, is_builtin_name, Builtin, FunctionTable, QubitTable};

fn function(name: usize) -> Declaration {
    Declaration::new_function(
        Location::default(),
        Id(name),
        vec![],
        None,
        Expression::unit_type(),
        Annotation::NoAnnotation,
    )
}

// ---- CNOT on basis states ----

#[test]
fn cnot_flips_target_only_when_control_is_one() {
    // qubit 0 is 1, qubit 1 is 0
    let s = BasisState::from_bitstring("01");
    assert_eq!(s.cnot_image(0, 1).display(), "|11⟩");
    assert_eq!(s.cnot_image(1, 0).display(), "|01⟩");
    // a target past the end reads 0, so it is extended and flipped
    assert_eq!(s.cnot_image(0, 7).display(), "|10000001⟩");
}

#[test]
fn cnot_twice_restores_the_state() {
    let s = BasisState::from_bitstring("1011");
    let once = s.cnot_image(0, 2);
    assert_eq!(once.display(), "|1111⟩");
    assert_eq!(once.cnot_image(0, 2), s);
}

// ---- Qubit allocation ----

#[test]
fn qubits_are_allocated_in_order() {
    let mut t = QubitTable::new();
    assert_eq!(t.get_qubit(Id(4)), None);
    assert_eq!(t.alloc_qubit(Id(4)), 0);
    assert_eq!(t.alloc_qubit(Id(9)), 1);
    assert_eq!(t.num_qubits, 2);
    assert_eq!(t.next_qubit(), 2);
    assert_eq!(t.get_qubit(Id(4)), Some(0));
    assert_eq!(t.get_qubit(Id(9)), Some(1));
    // re-allocating a variable rebinds it to a new qubit
    assert_eq!(t.alloc_qubit(Id(4)), 2);
    assert_eq!(t.get_qubit(Id(4)), Some(2));
    assert_eq!(t.variables.get(&4), Some(&(2, 1)));
}

// ---- Function table ----

#[test]
fn functions_register_by_name_and_main_is_found() {
    let mut table = FunctionTable::new();
    table.register_function(&function(3));
    table.register_function(&Declaration::new_dat(Location::default(), Id(5), vec![], vec![], false));
    assert!(table.get(Id(3)).is_some());
    assert!(table.get(Id(5)).is_none());
    assert!(table.entry(Id(7)).is_none());
    table.register_function(&function(7));
    match table.entry(Id(7)) {
        Some(Declaration::FunctionDef { name, .. }) => assert_eq!(*name, Id(7)),
        _ => panic!("main not found"),
    }
}

#[test]
fn a_function_marked_main_is_the_entry() {
    let mut table = FunctionTable::new();
    let mut f = function(2);
    if let Declaration::FunctionDef { is_main, .. } = &mut f {
        *is_main = true;
    }
    table.register_function(&f);
    table.register_function(&function(6));
    match table.entry(Id(99)) {
        Some(Declaration::FunctionDef { name, .. }) => assert_eq!(*name, Id(2)),
        _ => panic!("entry not found"),
    }
}

// ---- Built-ins ----

#[test]
fn builtins_by_name_and_arity() {
    assert_eq!(builtin_named("measure"), Some(Builtin::Measure));
    assert_eq!(builtin_named("cnot"), None);
    assert!(is_builtin_name("CNOT"));
    assert!(is_builtin_name("rotZ"));
    assert!(!is_builtin_name("main"));
    assert_eq!(builtin_call("H", 1), Some(Builtin::H));
    assert_eq!(builtin_call("H", 2), None);
    assert_eq!(builtin_call("CNOT", 2), Some(Builtin::Cnot));
    assert_eq!(builtin_call("CNOT", 1), None);
    assert_eq!(builtin_call("print", 0), Some(Builtin::Print));
    assert_eq!(builtin_call("print", 5), Some(Builtin::Print));
    assert_eq!(builtin_call("rotY", 2), Some(Builtin::RotY));
    assert_eq!(builtin_call("frobnicate", 1), None);
}

// ---- JSON text ----

#[test]
fn json_diagnostic_text() {
    let loc = JsonValue::Object(vec![
        ("column".to_string(), JsonValue::Number("7".to_string())),
        ("line".to_string(), JsonValue::Number("3".to_string())),
    ]);
    let diag = JsonValue::Object(vec![
        ("location".to_string(), loc),
        ("message".to_string(), JsonValue::Str("a \"q\" \\ b".to_string())),
        ("severity".to_string(), JsonValue::Str("error".to_string())),
    ]);
    let expected = "{\n  \"location\": {\n    \"column\": 7,\n    \"line\": 3\n  },\n  \"message\": \"a \\\"q\\\" \\\\ b\",\n  \"severity\": \"error\"\n}";
    assert_eq!(to_string_pretty(&diag), expected);
}

#[test]
fn json_scalars_and_arrays() {
    assert_eq!(to_string_pretty(&JsonValue::Null), "null");
    assert_eq!(to_string_pretty(&JsonValue::Bool(false)), "false");
    assert_eq!(to_string_pretty(&JsonValue::Array(vec![])), "[]");
    assert_eq!(to_string_pretty(&JsonValue::Object(vec![])), "{}");
    let a = JsonValue::Array(vec![
        JsonValue::Null,
        JsonValue::Array(vec![JsonValue::Bool(true)]),
    ]);
    assert_eq!(to_string_pretty(&a), "[\n  null,\n  [\n    true\n  ]\n]");
}

#[test]
fn bit_string_display_round_trip() {
    for text in ["0", "1", "10", "0110", "1000000110"] {
        let s = BasisState::from_bitstring(text);
        assert_eq!(s.display(), format!("|{}⟩", text));
    }
    let s = BasisState::from_bitstring("10");
    assert_eq!(s.get(0), 0);
    assert_eq!(s.get(1), 1);
}
