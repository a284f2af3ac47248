use silq::ast::{Declaration, Expression, Interner, LiteralValue};
use silq::lexer::Lexer;
use silq::parser::{parse_int_literal, parse_rational, Parser};
use silq::token::TokenType;

#[test]
fn test_parse_simple_expr() {
    let source = "42 + x * 3";
    let mut interner = Interner::new();
    let mut lexer = Lexer::new(source);
    let mut parser = Parser::new(&mut lexer, &mut interner);
    let expr = parser.parse_expression();
    assert!(matches!(expr, Expression::Binary { .. }));
}

#[test]
fn test_parse_function_def() {
    let source = "def f(x: B): B { return x; }";
    let mut interner = Interner::new();
    let mut lexer = Lexer::new(source);
    let mut parser = Parser::new(&mut lexer, &mut interner);
    let decls = parser.parse_program();
    assert_eq!(decls.len(), 1);
    assert!(matches!(decls[0], Expression::TypeDecl(_)));
}

#[test]
fn test_parse_if_expr() {
    let source = "if true then 1 else 2";
    let mut interner = Interner::new();
    let mut lexer = Lexer::new(source);
    let mut parser = Parser::new(&mut lexer, &mut interner);
    let expr = parser.parse_expression();
    assert!(matches!(expr, Expression::IfThenElse { .. }));
}

#[test]
fn test_parse_let() {
    let source = "let x := 5";
    let mut interner = Interner::new();
    let mut lexer = Lexer::new(source);
    let mut parser = Parser::new(&mut lexer, &mut interner);
    let expr = parser.parse_expression();
    assert!(matches!(expr, Expression::Let { .. }));
}

#[test]
fn test_parse_call() {
    let source = "f(1, 2, 3)";
    let mut interner = Interner::new();
    let mut lexer = Lexer::new(source);
    let mut parser = Parser::new(&mut lexer, &mut interner);
    let expr = parser.parse_expression();
    assert!(matches!(expr, Expression::Call { .. }));
    if let Expression::Call { arguments, .. } = &expr {
        assert_eq!(arguments.len(), 3);
    }
}

#[test]
fn test_parse_tuple_debug() {
    let source = "(true, false)";
    let mut interner = Interner::new();
    let mut lexer = Lexer::new(source);
    let mut parser = Parser::new(&mut lexer, &mut interner);
    let expr = parser.parse_expression();
    println!("discriminant: {:?}", std::mem::discriminant(&expr));
    println!("{:#?}", expr);
    assert!(matches!(expr, Expression::Binary { op: TokenType::Comma, .. }));
}

#[test]
fn precedence_binds_multiplication_tighter() {
    let mut interner = Interner::new();
    let mut lexer = Lexer::new("42 + x * 3");
    let mut parser = Parser::new(&mut lexer, &mut interner);
    let expr = parser.parse_expression();
    match expr {
        Expression::Binary { op: TokenType::Plus, left, right, .. } => {
            assert!(matches!(*left, Expression::Literal { .. }));
            assert!(matches!(*right, Expression::Binary { op: TokenType::Mul, .. }));
        }
        other => panic!("unexpected {:?}", other),
    }
}

#[test]
fn identifiers_are_interned_once() {
    let mut interner = Interner::new();
    let mut lexer = Lexer::new("x + x");
    let mut parser = Parser::new(&mut lexer, &mut interner);
    let expr = parser.parse_expression();
    match expr {
        Expression::Binary { left, right, .. } => match (*left, *right) {
            (Expression::Identifier { name: a, .. }, Expression::Identifier { name: b, .. }) => {
                assert_eq!(a, b)
            }
            _ => panic!("expected identifiers"),
        },
        _ => panic!("expected a binary expression"),
    }
    assert_eq!(interner.lookup(silq::ast::Id(1)), "x");
}

#[test]
fn unexpected_token_is_reported() {
    let mut interner = Interner::new();
    let mut lexer = Lexer::new(")");
    let mut parser = Parser::new(&mut lexer, &mut interner);
    let expr = parser.parse_expression();
    assert!(expr.is_error());
    let diags = parser.diagnostics();
    assert_eq!(diags.len(), 1);
    assert_eq!(diags[0].message, "unexpected token: ')'");
    assert_eq!(diags[0].line, 1);
}

#[test]
fn missing_closing_paren_is_reported() {
    let mut interner = Interner::new();
    let mut lexer = Lexer::new("(x");
    let mut parser = Parser::new(&mut lexer, &mut interner);
    let _ = parser.parse_expression();
    let diags = parser.diagnostics();
    assert_eq!(diags.len(), 1);
    assert_eq!(diags[0].message, "expected ')', found end of file");
}

#[test]
fn program_consumes_all_input() {
    let mut interner = Interner::new();
    let mut lexer = Lexer::new("def f() { return 1; } ; } def g(x) => x");
    let mut parser = Parser::new(&mut lexer, &mut interner);
    let decls = parser.parse_program();
    assert_eq!(decls.len(), 2);
    for d in &decls {
        assert!(matches!(d, Expression::TypeDecl(b) if matches!(**b, Declaration::FunctionDef { .. })));
    }
}

#[test]
fn dat_declaration() {
    let mut interner = Interner::new();
    let mut lexer = Lexer::new("dat Pair[T, U: *] quantum { a: T; b: U }");
    let mut parser = Parser::new(&mut lexer, &mut interner);
    let decls = parser.parse_program();
    assert_eq!(decls.len(), 1);
    match &decls[0] {
        Expression::TypeDecl(d) => match &**d {
            Declaration::DatDecl { type_params, fields, is_quantum, .. } => {
                assert_eq!(type_params.len(), 2);
                assert_eq!(fields.len(), 2);
                assert!(*is_quantum);
            }
            _ => panic!("expected a data type"),
        },
        _ => panic!("expected a declaration"),
    }
}

#[test]
fn lambda_and_field_access() {
    let mut interner = Interner::new();
    let mut lexer = Lexer::new("lambda(const x, y). x.first");
    let mut parser = Parser::new(&mut lexer, &mut interner);
    let expr = parser.parse_expression();
    match expr {
        Expression::Lambda { params, body, .. } => {
            assert_eq!(params.len(), 2);
            assert!(matches!(*body, Expression::Field { .. }));
        }
        other => panic!("unexpected {:?}", other),
    }
}

#[test]
fn integer_literal_values() {
    assert_eq!(parse_int_literal("1_000").magnitude, vec![1000]);
    assert_eq!(parse_int_literal("0xff").magnitude, vec![255]);
    assert_eq!(parse_int_literal("0b101").magnitude, vec![5]);
    assert_eq!(parse_int_literal("0x").magnitude, Vec::<u32>::new());
    assert_eq!(parse_int_literal("4294967296").magnitude, vec![0, 1]);
    assert!(!parse_int_literal("7").negative);
}

#[test]
fn rational_literal_parts() {
    let (n, d) = parse_rational("3\\4").unwrap();
    assert_eq!(n.magnitude, vec![3]);
    assert_eq!(d.magnitude, vec![4]);
    assert!(parse_rational("34").is_none());
    assert!(parse_rational("1\\2\\3").is_none());
}

#[test]
fn literal_values_in_expressions() {
    let mut interner = Interner::new();
    let mut lexer = Lexer::new("1_5");
    let mut parser = Parser::new(&mut lexer, &mut interner);
    let expr = parser.parse_expression();
    match expr {
        Expression::Literal { value: LiteralValue::Int(n), .. } => assert_eq!(n.magnitude, vec![15]),
        other => panic!("unexpected {:?}", other),
    }
}

#[test]
fn operators_of_equal_strength_group_to_the_left() {
    let mut interner = Interner::new();
    let mut lexer = Lexer::new("1 - 2 - 3");
    let mut parser = Parser::new(&mut lexer, &mut interner);
    let expr = parser.parse_expression_precedence(0);
    match expr {
        Expression::Binary { op: TokenType::Minus, left, right, .. } => {
            assert!(matches!(*left, Expression::Binary { op: TokenType::Minus, .. }));
            assert!(matches!(*right, Expression::Literal { .. }));
        }
        other => panic!("unexpected {:?}", other),
    }
}

#[test]
fn parenthesised_pair_is_a_comma_expression() {
    let mut interner = Interner::new();
    let mut lexer = Lexer::new("(true, false)");
    let mut parser = Parser::new(&mut lexer, &mut interner);
    let expr = parser.parse_expression();
    match expr {
        Expression::Binary { op: TokenType::Comma, left, right, .. } => {
            assert!(matches!(*left, Expression::Literal { value: LiteralValue::Bool(true), .. }));
            assert!(matches!(*right, Expression::Literal { value: LiteralValue::Bool(false), .. }));
        }
        other => panic!("unexpected {:?}", other),
    }
}

#[test]
fn tighter_operator_binds_inside_the_right_operand() {
    let mut interner = Interner::new();
    let mut lexer = Lexer::new("1 + 2 * 3");
    let mut parser = Parser::new(&mut lexer, &mut interner);
    let expr = parser.parse_expression();
    match expr {
        Expression::Binary { op: TokenType::Plus, left, right, .. } => {
            assert!(matches!(*left, Expression::Literal { .. }));
            match *right {
                Expression::Binary { op: TokenType::Mul, left: a, right: b, .. } => {
                    assert!(matches!(*a, Expression::Literal { .. }));
                    assert!(matches!(*b, Expression::Literal { .. }));
                }
                other => panic!("unexpected {:?}", other),
            }
        }
        other => panic!("unexpected {:?}", other),
    }
}

#[test]
fn if_let_and_call_trees() {
    let mut interner = Interner::new();
    let mut lexer = Lexer::new("if true then 1 else 2");
    let mut parser = Parser::new(&mut lexer, &mut interner);
    match parser.parse_expression() {
        Expression::IfThenElse { condition, then_branch, else_branch, .. } => {
            assert!(matches!(*condition, Expression::Literal { value: LiteralValue::Bool(true), .. }));
            assert!(matches!(*then_branch, Expression::Literal { .. }));
            assert!(matches!(else_branch.as_deref(), Some(Expression::Literal { .. })));
        }
        other => panic!("unexpected {:?}", other),
    }
    let mut interner = Interner::new();
    let mut lexer = Lexer::new("let x := 5");
    let mut parser = Parser::new(&mut lexer, &mut interner);
    match parser.parse_expression() {
        Expression::Let { type_ann, value, .. } => {
            assert!(type_ann.is_none());
            assert!(matches!(*value, Expression::Literal { .. }));
        }
        other => panic!("unexpected {:?}", other),
    }
    let mut interner = Interner::new();
    let mut lexer = Lexer::new("f(1, 2, 3)");
    let mut parser = Parser::new(&mut lexer, &mut interner);
    match parser.parse_expression() {
        Expression::Call { function, arguments, callee, .. } => {
            assert!(matches!(*function, Expression::Identifier { .. }));
            assert_eq!(arguments.len(), 3);
            assert!(arguments.iter().all(|a| matches!(a, Expression::Literal { .. })));
            assert!(callee.is_none());
        }
        other => panic!("unexpected {:?}", other),
    }
}

#[test]
fn function_definition_parts() {
    let mut interner = Interner::new();
    let mut lexer = Lexer::new("def f(x: B): B { return x; }");
    let mut parser = Parser::new(&mut lexer, &mut interner);
    let decls = parser.parse_program();
    assert_eq!(decls.len(), 1);
    match &decls[0] {
        Expression::TypeDecl(d) => match &**d {
            Declaration::FunctionDef { params, return_type, .. } => {
                assert_eq!(params.len(), 1);
                assert!(return_type.is_some());
            }
            other => panic!("unexpected {:?}", other),
        },
        other => panic!("unexpected {:?}", other),
    }
}
