use rlox::interpreter::Interpreter;
use rlox::lox::Lox;
use rlox::value::Value;

fn final_value_of(source: &str, name: &str) -> Value {
    let mut lox = Lox::new();
    let mut interpreter = Interpreter::new();
    let outcome = lox.run(&mut interpreter, source);
    assert!(outcome.lex_errors.is_empty());
    assert!(outcome.parse_errors.is_empty());
    assert!(outcome.runtime_error.is_none());
    interpreter.environment().get(name).unwrap()
}

#[test]
fn addition_of_numbers_and_strings() {
    let a = final_value_of("var a = 1 + 2;", "a");
    assert_eq!(a, Value::Number(3.0f64.to_bits()));
    let b = final_value_of("var b = \"a\" + \"b\";", "b");
    assert_eq!(b, Value::String("ab".into()));
}

#[test]
fn precedence_and_associativity() {
    let a = final_value_of("var a = 2 + 3 * 4;", "a");
    assert_eq!(a, Value::Number(14.0f64.to_bits()));
    let b = final_value_of("var b = 1 - 2 - 3;", "b");
    assert_eq!(b, Value::Number((-4.0f64).to_bits()));
}

#[test]
fn logical_operators_short_circuit() {
    let a = final_value_of("var a = false and 1 / 0;", "a");
    assert_eq!(a, Value::Boolean(false));
    let b = final_value_of("var b = true or 1 / 0;", "b");
    assert_eq!(b, Value::Boolean(true));
}

#[test]
fn shadowing_leaves_outer_binding() {
    let a = final_value_of("var a = 1; { var a = 2; }", "a");
    assert_eq!(a, Value::Number(1.0f64.to_bits()));
}

#[test]
fn assignment_writes_through_blocks() {
    let a = final_value_of("var a = 1; { a = 2; }", "a");
    assert_eq!(a, Value::Number(2.0f64.to_bits()));
}

#[test]
fn while_loop_runs_to_its_bound() {
    let a = final_value_of("var a = 1; while (a < 4) { a = a + 1; }", "a");
    assert_eq!(a, Value::Number(4.0f64.to_bits()));
}

#[test]
fn division_by_zero_is_not_a_fault() {
    let mut lox = Lox::new();
    let mut interpreter = Interpreter::new();
    let outcome = lox.run(&mut interpreter, "var a = 1 / 0;");
    assert!(outcome.runtime_error.is_none());
}

#[test]
fn undefined_variable_is_a_runtime_error() {
    let mut lox = Lox::new();
    let mut interpreter = Interpreter::new();
    let outcome = lox.run(&mut interpreter, "print missing;");
    assert!(outcome.runtime_error.is_some());
}

#[test]
fn print_buffers_stringified_values() {
    let mut lox = Lox::new();
    let mut interpreter = Interpreter::new();
    let outcome = lox.run(&mut interpreter, "print true; print nil; print \"x\";");
    assert_eq!(outcome.output[0], "true");
    assert_eq!(outcome.output[1], "nil");
    assert_eq!(outcome.output[2], "x");
}

#[test]
fn malformed_statement_does_not_suppress_later_diagnostics() {
    let mut lox = Lox::new();
    let mut interpreter = Interpreter::new();
    let outcome = lox.run(&mut interpreter, "var = 1; var = 2;");
    assert!(outcome.parse_errors.len() >= 2);
    assert!(lox.had_errors);
}

#[test]
fn type_mismatch_stops_the_run() {
    let mut lox = Lox::new();
    let mut interpreter = Interpreter::new();
    let outcome = lox.run(&mut interpreter, "var a = 1 + \"x\";");
    assert!(outcome.runtime_error.is_some());
    assert!(lox.had_runtime_errors);
}

#[test]
fn for_and_hand_written_while_agree() {
    let for_source = "var n = 0; for (var i = 1; i < 4; i = i + 1) { n = n + i; }";
    let while_source = "var n = 0; { var i = 1; while (i < 4) { { n = n + i; } i = i + 1; } }";
    let n_for = final_value_of(for_source, "n");
    let n_while = final_value_of(while_source, "n");
    assert_eq!(n_for, n_while);
    assert_eq!(n_for, Value::Number(6.0f64.to_bits()));
}

#[test]
fn for_without_clauses_still_parses() {
    let mut lox = Lox::new();
    let mut interpreter = Interpreter::new();
    let outcome = lox.run(&mut interpreter, "var a = 0; for (; a < 2;) { a = a + 1; }");
    assert!(outcome.lex_errors.is_empty());
    assert!(outcome.parse_errors.is_empty());
    assert!(outcome.runtime_error.is_none());
    assert_eq!(
        interpreter.environment().get("a").unwrap(),
        Value::Number(2.0f64.to_bits())
    );
}
