use silq::ast::{
    classical_type, numeric_type, Annotation, CaptureAnnotation, Declaration, Expression, Id,
    Interner, LiteralValue, NumericType,
};
use silq::bignum::BigNum;
use silq::checker::Checker;
use silq::consteval::{const_eval, eval_binary_literal, eval_literal};
use silq::conversion::{can_implicit_convert, is_classical_type, is_quantum_type, same_expr};
use silq::errors::Location;
use silq::lexer::Lexer;
use silq::parser::Parser;
use silq::reverse::{is_reversible, reverse_function};
use silq::scope::Scope;
use silq::semantic::SemanticAnalyzer;
use silq::token::TokenType;

fn loc() -> Location {
    Location { line: 1, col: 1, offset: 0 }
}

fn big(n: u32) -> BigNum {
    BigNum { negative: false, magnitude: if n == 0 { vec![] } else { vec![n] } }
}

fn neg(n: u32) -> BigNum {
    BigNum { negative: true, magnitude: vec![n] }
}

fn ident(n: usize) -> Expression {
    Expression::new_identifier(loc(), Id(n))
}

fn lit(n: u32) -> Expression {
    Expression::new_literal(loc(), LiteralValue::Int(big(n)))
}

fn var(n: usize) -> Declaration {
    Declaration::new_var(loc(), Id(n), None, None, false, CaptureAnnotation::NoCapture)
}

// ---- Interner ----

#[test]
fn interning_twice_gives_the_same_id() {
    let mut interner = Interner::new();
    let a = interner.intern("alpha");
    let b = interner.intern("beta");
    let a2 = interner.intern("alpha");
    assert_eq!(a, a2);
    assert_ne!(a, b);
    assert_eq!(interner.lookup(a), "alpha");
    assert_eq!(interner.lookup(Id(0)), "");
    assert_eq!(interner.lookup(Id(99)), "");
}

// ---- Scope ----

#[test]
fn lookup_after_insert_and_shadowing() {
    let mut global = Scope::global();
    global.insert(Id(3), var(3));
    assert!(global.contains(Id(3)));
    assert!(global.contains_local(Id(3)));
    assert!(!global.contains(Id(4)));
    let mut child = global.child();
    assert!(child.contains(Id(3)));
    assert!(!child.contains_local(Id(3)));
    let shadow = Declaration::new_var(loc(), Id(3), None, None, true, CaptureAnnotation::Const);
    child.insert(Id(3), shadow);
    match child.lookup(Id(3)) {
        Some(Declaration::VarDecl { is_parameter, .. }) => assert!(*is_parameter),
        _ => panic!("expected the child's binding"),
    }
    match global.lookup(Id(3)) {
        Some(Declaration::VarDecl { is_parameter, .. }) => assert!(!*is_parameter),
        _ => panic!("expected the global binding"),
    }
    assert_eq!(child.all_bindings().len(), 2);
    assert_eq!(child.local_bindings().count(), 1);
}

#[test]
fn unique_names_and_dependencies() {
    let mut interner = Interner::new();
    let base = interner.intern("tmp");
    let mut scope = Scope::global();
    let a = scope.unique_name(base, &mut interner);
    let b = scope.unique_name(base, &mut interner);
    assert_eq!(interner.lookup(a), "tmp_1");
    assert_eq!(interner.lookup(b), "tmp_2");
    scope.add_dependency(Id(7));
    scope.add_dependency(Id(7));
    scope.add_dependency(Id(8));
    assert_eq!(scope.dependencies, vec![Id(7), Id(8)]);
}

// ---- Checker ----

#[test]
fn use_after_forget_is_an_error() {
    let body = Expression::new_compound(
        loc(),
        vec![
            Expression::Forget { loc: loc(), variable: Box::new(ident(5)) },
            ident(5),
        ],
    );
    let func = Declaration::new_function(loc(), Id(1), vec![var(5)], None, body, Annotation::NoAnnotation);
    let mut checker = Checker::new();
    let ok = checker.check_function(&func, &Scope::global());
    assert!(!ok);
    assert_eq!(checker.error_count(), 1);
    assert_eq!(checker.messages()[0], "[checker error] use of consumed variable");
}

#[test]
fn assigning_a_const_parameter_is_an_error() {
    let param = Declaration::new_var(loc(), Id(2), None, None, true, CaptureAnnotation::Const);
    let body = Expression::Assign { loc: loc(), target: Box::new(ident(2)), value: Box::new(lit(1)) };
    let func = Declaration::new_function(loc(), Id(1), vec![param], None, body, Annotation::NoAnnotation);
    let mut checker = Checker::default();
    assert!(!checker.check_function(&func, &Scope::global()));
    assert_eq!(checker.messages()[0], "[checker error] cannot assign to const variable");
}

#[test]
fn clean_function_passes_the_checker() {
    let body = Expression::new_binary(loc(), TokenType::Plus, ident(2), lit(1));
    let func = Declaration::new_function(loc(), Id(1), vec![var(2)], None, body, Annotation::NoAnnotation);
    let mut checker = Checker::new();
    assert!(checker.check_function(&func, &Scope::global()));
    assert_eq!(checker.error_count(), 0);
    assert!(checker.check_function(&var(3), &Scope::global()));
}

#[test]
fn moved_parameter_used_twice_is_an_error() {
    let param = Declaration::new_var(loc(), Id(4), None, None, true, CaptureAnnotation::Moved);
    let body = Expression::new_compound(loc(), vec![ident(4), ident(4)]);
    let func = Declaration::new_function(loc(), Id(1), vec![param], None, body, Annotation::NoAnnotation);
    let mut checker = Checker::new();
    assert!(!checker.check_function(&func, &Scope::global()));
    assert_eq!(checker.messages()[0], "[checker error] use of consumed variable");
    // used once is fine
    let param = Declaration::new_var(loc(), Id(4), None, None, true, CaptureAnnotation::Moved);
    let once = Declaration::new_function(loc(), Id(1), vec![param], None, ident(4), Annotation::NoAnnotation);
    assert!(checker.check_function(&once, &Scope::global()));
}

#[test]
fn each_function_is_judged_on_its_own() {
    let param = Declaration::new_var(loc(), Id(2), None, None, true, CaptureAnnotation::Const);
    let body = Expression::Assign { loc: loc(), target: Box::new(ident(2)), value: Box::new(lit(1)) };
    let bad = Declaration::new_function(loc(), Id(1), vec![param], None, body, Annotation::NoAnnotation);
    let good = Declaration::new_function(loc(), Id(3), vec![], None, Expression::new_compound(loc(), vec![]), Annotation::NoAnnotation);
    let mut checker = Checker::new();
    assert!(!checker.check_function(&bad, &Scope::global()));
    assert!(checker.check_function(&good, &Scope::global()));
    assert_eq!(checker.error_count(), 1);
}

// ---- Semantic analysis ----

#[test]
fn identifiers_resolve_after_their_definition() {
    let source = "def f(x) { return x; } f(1); g(2)";
    let mut interner = Interner::new();
    let mut program = {
        let mut lexer = Lexer::new(source);
        let mut parser = Parser::new(&mut lexer, &mut interner);
        parser.parse_program()
    };
    let mut analyzer = SemanticAnalyzer::new(interner, Scope::global());
    analyzer.semantic_program(&mut program);
    assert_eq!(program.len(), 3);
    match &program[1] {
        Expression::Call { callee, function, .. } => {
            assert!(callee.is_some());
            assert!(matches!(**function, Expression::Identifier { meaning: Some(_), .. }));
        }
        other => panic!("unexpected {:?}", other),
    }
    match &program[2] {
        Expression::Call { callee, .. } => assert!(callee.is_none()),
        other => panic!("unexpected {:?}", other),
    }
    assert_eq!(analyzer.error_count(), 0);
    let f = analyzer.interner.intern("f");
    assert!(analyzer.scope.contains(f));
}

#[test]
fn let_binds_its_name() {
    let expr = Expression::new_let(loc(), Id(4), None, lit(1), ident(4));
    let mut program = vec![expr, ident(4)];
    let mut analyzer = SemanticAnalyzer::new(Interner::new(), Scope::global());
    analyzer.semantic_program(&mut program);
    assert!(analyzer.scope.contains(Id(4)));
    assert!(matches!(program[1], Expression::Identifier { meaning: Some(_), .. }));
}

#[test]
fn calls_inside_function_bodies_are_resolved() {
    let g = Declaration::new_function(
        loc(),
        Id(1),
        vec![],
        None,
        Expression::new_compound(loc(), vec![]),
        Annotation::NoAnnotation,
    );
    let call = Expression::new_call(loc(), ident(1), vec![ident(7)]);
    let main = Declaration::new_function(
        loc(),
        Id(2),
        vec![var(7)],
        None,
        Expression::new_compound(loc(), vec![call]),
        Annotation::NoAnnotation,
    );
    let mut program = vec![Expression::TypeDecl(Box::new(g)), Expression::TypeDecl(Box::new(main))];
    let mut analyzer = SemanticAnalyzer::new(Interner::new(), Scope::global());
    analyzer.semantic_program(&mut program);
    let body = match &program[1] {
        Expression::TypeDecl(d) => match &**d {
            Declaration::FunctionDef { body, .. } => body,
            other => panic!("unexpected {:?}", other),
        },
        other => panic!("unexpected {:?}", other),
    };
    let statements = match &**body {
        Expression::Compound { statements, .. } => statements,
        other => panic!("unexpected {:?}", other),
    };
    match &statements[0] {
        Expression::Call { callee, arguments, .. } => {
            match callee.as_deref() {
                Some(Declaration::FunctionDef { name, .. }) => assert_eq!(*name, Id(1)),
                other => panic!("unexpected callee {:?}", other),
            }
            // the parameter resolves to its own declaration
            match &arguments[0] {
                Expression::Identifier { meaning: Some(d), .. } => {
                    assert!(matches!(**d, Declaration::VarDecl { name: Id(7), .. }))
                }
                other => panic!("unexpected {:?}", other),
            }
        }
        other => panic!("unexpected {:?}", other),
    }
    // the parameter's frame is gone afterwards
    assert!(!analyzer.scope.contains(Id(7)));
}

#[test]
fn inner_binding_shadows_outer() {
    let inner = Expression::new_let(loc(), Id(4), Some(numeric_type(NumericType::Bool)), lit(2), ident(4));
    let outer = Expression::new_let(loc(), Id(4), None, lit(1), inner);
    let mut program = vec![outer];
    let mut analyzer = SemanticAnalyzer::new(Interner::new(), Scope::global());
    analyzer.semantic_program(&mut program);
    let inner_body = match &program[0] {
        Expression::Let { body, .. } => match &**body {
            Expression::Let { body, .. } => body,
            other => panic!("unexpected {:?}", other),
        },
        other => panic!("unexpected {:?}", other),
    };
    match &**inner_body {
        Expression::Identifier { meaning: Some(d), .. } => match &**d {
            Declaration::VarDecl { name, dtype, .. } => {
                assert_eq!(*name, Id(4));
                assert!(dtype.is_some());
            }
            other => panic!("unexpected {:?}", other),
        },
        other => panic!("unexpected {:?}", other),
    }
}

#[test]
fn declared_functions_and_data_types_are_in_scope_afterwards() {
    let d = Declaration::new_dat(loc(), Id(8), vec![], vec![var(9)], false);
    let f = Declaration::new_function(
        loc(),
        Id(10),
        vec![],
        None,
        Expression::new_compound(loc(), vec![]),
        Annotation::NoAnnotation,
    );
    let mut program = vec![
        Expression::TypeDecl(Box::new(d)),
        lit(3),
        Expression::TypeDecl(Box::new(f)),
    ];
    let mut analyzer = SemanticAnalyzer::new(Interner::new(), Scope::global());
    analyzer.semantic_program(&mut program);
    assert!(analyzer.scope.contains(Id(8)));
    assert!(analyzer.scope.contains(Id(10)));
    assert!(!analyzer.scope.contains(Id(9)));
}

// ---- Constant evaluation ----

#[test]
fn integer_constant_folding() {
    let e = Expression::new_binary(loc(), TokenType::Mul, lit(6), lit(7));
    assert_eq!(const_eval(&e), Some(LiteralValue::Int(big(42))));
    let d = Expression::new_binary(loc(), TokenType::Div, lit(7), lit(2));
    assert_eq!(const_eval(&d), Some(LiteralValue::Int(big(3))));
    let z = Expression::new_binary(loc(), TokenType::Div, lit(7), lit(0));
    assert_eq!(const_eval(&z), None);
    let m = Expression::UnaryMinus { loc: loc(), expr: Box::new(lit(5)) };
    assert_eq!(const_eval(&m), Some(LiteralValue::Int(neg(5))));
    let s = Expression::new_binary(loc(), TokenType::Minus, lit(2), lit(5));
    assert_eq!(const_eval(&s), Some(LiteralValue::Int(neg(3))));
}

#[test]
fn comparisons_and_logic_fold_to_booleans() {
    let lt = Expression::new_binary(loc(), TokenType::Lt, lit(1), lit(2));
    assert_eq!(const_eval(&lt), Some(LiteralValue::Bool(true)));
    let not = Expression::LogicalNot { loc: loc(), expr: Box::new(lt) };
    assert_eq!(const_eval(&not), Some(LiteralValue::Bool(false)));
    assert_eq!(
        eval_binary_literal(&LiteralValue::Bool(true), &LiteralValue::Bool(true), TokenType::Eq),
        Some(LiteralValue::Bool(true))
    );
    assert_eq!(eval_binary_literal(&LiteralValue::Bool(true), &LiteralValue::Bool(true), TokenType::Plus), None);
    assert_eq!(const_eval(&ident(1)), None);
    assert!(eval_literal(&lit(3)).is_some());
    assert!(eval_literal(&ident(3)).is_none());
}

#[test]
fn literal_display() {
    assert_eq!(LiteralValue::Int(neg(12)).display_text(), "-12");
    assert_eq!(LiteralValue::Rational(big(1), big(3)).display_text(), "(1/3)");
    assert_eq!(LiteralValue::String("hi".to_string()).display_text(), "\"hi\"");
    assert_eq!(LiteralValue::Char('q').display_text(), "'q'");
    assert_eq!(LiteralValue::Unit.display_text(), "()");
    assert_eq!(LiteralValue::Bool(false).display_text(), "false");
}

// ---- Conversions ----

#[test]
fn numeric_subtyping_drives_implicit_conversion() {
    let b = numeric_type(NumericType::Bool);
    let z = numeric_type(NumericType::Int);
    let r = numeric_type(NumericType::Real);
    assert!(can_implicit_convert(&b, &z));
    assert!(can_implicit_convert(&z, &r));
    assert!(!can_implicit_convert(&r, &z));
    assert!(can_implicit_convert(&classical_type(numeric_type(NumericType::Nat)), &z));
    let t = Expression::new_compound(loc(), vec![lit(1)]);
    assert!(can_implicit_convert(&t, &t.clone()));
    assert!(!can_implicit_convert(&t, &b));
    assert!(same_expr(&t, &t.clone()));
}

#[test]
fn classical_and_quantum_types() {
    assert!(!is_classical_type(&numeric_type(NumericType::Bool)));
    assert!(is_quantum_type(&numeric_type(NumericType::Bool)));
    assert!(is_classical_type(&numeric_type(NumericType::Nat)));
    assert!(is_classical_type(&classical_type(numeric_type(NumericType::Complex))));
    assert!(!is_classical_type(&lit(1)));
}

// ---- Reversal ----

#[test]
fn reverse_runs_statements_backwards() {
    let body = Expression::new_compound(
        loc(),
        vec![
            Expression::new_binary(loc(), TokenType::Plus, ident(1), lit(1)),
            Expression::Return { loc: loc(), expr: Some(Box::new(ident(2))) },
        ],
    );
    let mut interner = Interner::new();
    let f = interner.intern("flip");
    let func = Declaration::new_function(loc(), f, vec![var(1)], None, body, Annotation::Mfree);
    let rev = reverse_function(&func, &mut interner).unwrap();
    match rev {
        Declaration::FunctionDef { name, params, body, annotation, return_type, .. } => {
            assert_ne!(name, f);
            assert_eq!(interner.lookup(name), "flip_rev");
            assert_eq!(params.len(), 1);
            assert_eq!(annotation, Annotation::Mfree);
            assert!(return_type.is_none());
            match *body {
                Expression::Compound { statements, .. } => {
                    assert!(matches!(statements[0], Expression::Return { .. }));
                    assert!(matches!(statements[1], Expression::Binary { op: TokenType::Tilde, .. }));
                }
                other => panic!("unexpected {:?}", other),
            }
        }
        _ => panic!("expected a function"),
    }
    assert!(reverse_function(&var(1), &mut interner).is_none());
    assert!(is_reversible(&func));
}

#[test]
fn lifted_functions_are_not_reversible() {
    let func = Declaration::new_function(loc(), Id(9), vec![], None, lit(0), Annotation::Lifted);
    assert!(!is_reversible(&func));
    let plain = Declaration::new_function(loc(), Id(9), vec![], None, lit(0), Annotation::NoAnnotation);
    assert!(is_reversible(&plain));
}
