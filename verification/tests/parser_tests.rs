use gs_lang::parser::Parser;

#[test]
fn test_parse_empty_module() {
    let input = "module test;";
    let mut parser = Parser::new(input);
    let module = parser.parse_program().unwrap();
    assert_eq!(module.name, "test");
    assert!(module.imports.is_empty());
    assert!(module.statements.is_empty());
}

#[test]
fn test_parse_module_with_imports() {
    let input = "module main; import utils; import math;";
    let mut parser = Parser::new(input);
    let module = parser.parse_program().unwrap();
    assert_eq!(module.name, "main");
    assert_eq!(module.imports, vec!["utils", "math"]);
}

#[test]
fn test_parse_number() {
    let input = "module test; 42;";
    let mut parser = Parser::new(input);
    let module = parser.parse_program().unwrap();
    assert_eq!(module.statements.len(), 1);
}

#[test]
fn test_parse_string() {
    let input = r#"module test; "hello";"#;
    let mut parser = Parser::new(input);
    let module = parser.parse_program().unwrap();
    assert_eq!(module.statements.len(), 1);
}

#[test]
fn test_parse_variable_assignment() {
    let input = "module test; x = 10;";
    let mut parser = Parser::new(input);
    let module = parser.parse_program().unwrap();
    assert_eq!(module.statements.len(), 1);
}

#[test]
fn test_parse_if_else() {
    let input = "module test; if (x == 1) { y = 2; } else { y = 3; }";
    let mut parser = Parser::new(input);
    let module = parser.parse_program().unwrap();
    assert_eq!(module.statements.len(), 1);
}

#[test]
fn test_parse_while() {
    let input = "module test; while (x < 10) { x = x + 1; }";
    let mut parser = Parser::new(input);
    let module = parser.parse_program().unwrap();
    assert_eq!(module.statements.len(), 1);
}

#[test]
fn test_parse_for() {
    let input = "module test; for (i = 0; i < 10; i++) { x = x + i; }";
    let mut parser = Parser::new(input);
    let module = parser.parse_program().unwrap();
    assert_eq!(module.statements.len(), 1);
}

#[test]
fn test_parse_function_definition() {
    let input = "module test; add = (a, b) -> { return a + b; };";
    let mut parser = Parser::new(input);
    let module = parser.parse_program().unwrap();
    assert_eq!(module.statements.len(), 1);
}

#[test]
fn test_parse_function_call() {
    let input = "module test; add(1, 2);";
    let mut parser = Parser::new(input);
    let module = parser.parse_program().unwrap();
    assert_eq!(module.statements.len(), 1);
}

#[test]
fn test_parse_comments() {
    let input = "module test; // line comment\nx = 1; /* block */ y = 2;";
    let mut parser = Parser::new(input);
    let module = parser.parse_program().unwrap();
    assert_eq!(module.statements.len(), 2);
}

#[test]
fn test_parse_dot_access() {
    let input = "module test; this.x = 10;";
    let mut parser = Parser::new(input);
    let module = parser.parse_program().unwrap();
    assert_eq!(module.statements.len(), 1);
}

#[test]
fn test_parse_try_catch() {
    let input = "module test; try { x = 1; } catch (e) { y = 2; }";
    let mut parser = Parser::new(input);
    let module = parser.parse_program().unwrap();
    assert_eq!(module.statements.len(), 1);
}

#[test]
fn test_parse_new_object() {
    let input = "module test; obj = new { x = 1; y = 2; };";
    let mut parser = Parser::new(input);
    let module = parser.parse_program().unwrap();
    assert_eq!(module.statements.len(), 1);
}

#[test]
fn test_parse_new_array() {
    let input = "module test; arr = new [1, 2, 3];";
    let mut parser = Parser::new(input);
    let module = parser.parse_program().unwrap();
    assert_eq!(module.statements.len(), 1);
}

#[test]
fn test_parse_new_map() {
    let input = r#"module test; m = new ["a" => 1, "b" => 2];"#;
    let mut parser = Parser::new(input);
    let module = parser.parse_program().unwrap();
    assert_eq!(module.statements.len(), 1);
}

#[test]
fn test_parse_ternary() {
    let input = "module test; x = a ? 1 : 0;";
    let mut parser = Parser::new(input);
    let module = parser.parse_program().unwrap();
    assert_eq!(module.statements.len(), 1);
}

#[test]
fn test_parse_method_call() {
    let input = "module test; obj.method(1, 2);";
    let mut parser = Parser::new(input);
    let module = parser.parse_program().unwrap();
    assert_eq!(module.statements.len(), 1);
}

#[test]
fn test_parse_array_index() {
    let input = "module test; arr[0];";
    let mut parser = Parser::new(input);
    let module = parser.parse_program().unwrap();
    assert_eq!(module.statements.len(), 1);
}

#[test]
fn test_parse_statements_only() {
    let input = "x = 1; y = 2;";
    let mut parser = Parser::new(input);
    let stmts = parser.parse_statements_only().unwrap();
    assert_eq!(stmts.len(), 2);
}

use gs_lang::ast::{Expression, Statement};

fn parse(input: &str) -> Result<gs_lang::ast::Module, String> {
    let mut parser = Parser::new(input);
    parser.parse_program()
}

#[test]
fn missing_module_name_is_reported_at_its_position() {
    assert_eq!(parse("module ;").unwrap_err(), "1:8: expected identifier");
}

#[test]
fn reserved_word_as_module_name_is_refused() {
    assert_eq!(parse("module if;").unwrap_err(), "1:10: 'if' is a reserved keyword");
}

#[test]
fn program_must_start_with_module_declaration() {
    assert_eq!(parse("x = 1;").unwrap_err(), "1:1: expected keyword 'module'");
}

#[test]
fn error_positions_count_lines() {
    let err = parse("module m;\nx = \"abc").unwrap_err();
    assert_eq!(err, "2:9: unterminated string literal");
}

#[test]
fn module_position_is_after_leading_whitespace() {
    let module = parse("\n  module m;").unwrap();
    assert_eq!(module.pos.line, 2);
    assert_eq!(module.pos.column, 3);
}

#[test]
fn multiplication_binds_tighter_than_addition() {
    let module = parse("module m; x = 1 + 2 * 3;").unwrap();
    match &module.statements[0] {
        Statement::Expression(Expression::Assignment { value, operator, variable }, _) => {
            assert!(operator.is_none());
            assert!(matches!(variable.as_ref(), Expression::Variable { name, field: None } if name == "x"));
            match value.as_ref() {
                Expression::Additive(l, op, r) => {
                    assert_eq!(op, "+");
                    assert!(matches!(l.as_ref(), Expression::Constant { value: 1, .. }));
                    assert!(matches!(r.as_ref(), Expression::Multiplicative(_, o, _) if o == "*"));
                }
                other => panic!("unexpected {:?}", other),
            }
        }
        other => panic!("unexpected {:?}", other),
    }
}

#[test]
fn string_escapes_are_decoded() {
    let module = parse("module m; \"a\\nb\\q\";").unwrap();
    match &module.statements[0] {
        Statement::Expression(Expression::Constant { string: Some(s), type_label, .. }, _) => {
            assert_eq!(s, "a\nb\\q");
            assert_eq!(type_label, "String");
        }
        other => panic!("unexpected {:?}", other),
    }
}

#[test]
fn number_literals_up_to_the_i32_limit() {
    let module = parse("module m; 2147483647;").unwrap();
    assert!(matches!(&module.statements[0],
        Statement::Expression(Expression::Constant { value: 2147483647, .. }, _)));
    let err = parse("module m; 2147483648;").unwrap_err();
    assert!(err.starts_with("1:21: "));
}

#[test]
fn compound_assignment_keeps_its_operator() {
    let module = parse("module m; x += 2;").unwrap();
    assert!(matches!(&module.statements[0],
        Statement::Expression(Expression::Assignment { operator: Some(o), .. }, _) if o == "+="));
}

#[test]
fn map_literal_needs_arrows() {
    let err = parse("module m; m = new [\"a\" => 1, \"b\"];").unwrap_err();
    assert!(err.ends_with("expected '=>' in map literal"));
}

#[test]
fn function_definition_collects_parameters() {
    let module = parse("module m; f = (a, b, c) -> { return a; };").unwrap();
    match &module.statements[0] {
        Statement::Expression(Expression::Assignment { value, .. }, _) => match value.as_ref() {
            Expression::FunctionDef { parameters, statements } => {
                assert_eq!(parameters, &vec!["a".to_string(), "b".to_string(), "c".to_string()]);
                assert_eq!(statements.len(), 1);
            }
            other => panic!("unexpected {:?}", other),
        },
        other => panic!("unexpected {:?}", other),
    }
}

#[test]
fn statements_only_rejects_trailing_garbage() {
    let mut parser = Parser::new("x = 1; )");
    assert!(parser.parse_statements_only().is_err());
}
