use giulia::env::Environment;
use giulia::interp::{line_col, run, run_with_fuel, Halt};
use giulia::lexer::lex;
use giulia::ops::{eval_binop, eval_unary, RuntimeError};
use giulia::ast::{BinOp, UnaryOp};
use giulia::parser::parse;
use giulia::value::{is_truthy, values_eq, FloatAnswer, FloatOp, FloatRequest, Order, Value};

fn float_ops(q: FloatRequest) -> FloatAnswer {
    match q {
        FloatRequest::Parse(text) => FloatAnswer::Bits(text.parse::<f64>().unwrap_or(0.0).to_bits()),
        FloatRequest::FromInt(i) => FloatAnswer::Bits((i as f64).to_bits()),
        FloatRequest::Arith(op, a, b) => {
            let (x, y) = (f64::from_bits(a), f64::from_bits(b));
            let r = match op {
                FloatOp::Add => x + y,
                FloatOp::Sub => x - y,
                FloatOp::Mul => x * y,
                FloatOp::Div => x / y,
            };
            FloatAnswer::Bits(r.to_bits())
        }
        FloatRequest::Negate(a) => FloatAnswer::Bits((-f64::from_bits(a)).to_bits()),
        FloatRequest::Compare(a, b) => {
            let (x, y) = (f64::from_bits(a), f64::from_bits(b));
            FloatAnswer::Order(if x < y {
                Order::Less
            } else if x > y {
                Order::Greater
            } else {
                Order::Equal
            })
        }
        FloatRequest::Display(a) => FloatAnswer::Text(f64::from_bits(a).to_string()),
        FloatRequest::Fixed(a, prec) => FloatAnswer::Text(format!("{:.prec$}", f64::from_bits(a), prec = prec)),
        FloatRequest::Debug(a) => FloatAnswer::Text(format!("{:?}", f64::from_bits(a))),
    }
}

/// The printed lines, and the text of the runtime error if one stopped the run.
fn outcome(source: &str) -> (Vec<String>, Option<String>) {
    let tokens = lex(source).expect("lex should succeed");
    let program = parse(tokens).expect("parse should succeed");
    let (lines, result) = run(&program, source, &float_ops);
    let err = match result {
        Ok(()) => None,
        Err(Halt::Error(e)) => Some(e.message(&float_ops)),
        Err(Halt::StepLimit) => Some("step limit".to_string()),
    };
    (lines, err)
}

fn output(source: &str) -> Vec<String> {
    let (lines, err) = outcome(source);
    assert_eq!(err, None, "unexpected runtime error");
    lines
}

fn failure(source: &str) -> String {
    outcome(source).1.expect("a runtime error")
}

fn lines(xs: &[&str]) -> Vec<String> {
    xs.iter().map(|s| s.to_string()).collect()
}

// ─── printed output ─────────────────────────────────────────────

#[test]
fn prints_function_result() {
    assert_eq!(output("agent main { fn dobro(n) { return n * 2 } on start { print(dobro(21)) } }"), lines(&["42"]));
}

#[test]
fn prints_each_while_iteration() {
    assert_eq!(
        output("agent main { on start { let i = 0 while i < 3 { print(i) i = i + 1 } } }"),
        lines(&["0", "1", "2"])
    );
}

#[test]
fn prints_each_list_item() {
    assert_eq!(
        output("agent main { on start { for item in [\"a\", \"b\"] { print(item) } } }"),
        lines(&["a", "b"])
    );
}

#[test]
fn natives_give_length_type_and_text() {
    assert_eq!(
        output("agent main { on start { print(len(\"hello\")) print(len([1, 2, 3])) print(type_of(42)) print(type_of(\"x\")) print(type_of(null)) print(to_str(7) + \"!\") } }"),
        lines(&["5", "3", "Int", "String", "Null", "7!"])
    );
    assert_eq!(output("agent main { on start { print(len(\"héllo\")) } }"), lines(&["6"]));
}

#[test]
fn print_joins_arguments_with_spaces() {
    assert_eq!(
        output("agent main { on start { print(1, \"a\", true, null) print() print([1, [2, 3]]) } }"),
        lines(&["1 a true null", "", "[1, [2, 3]]"])
    );
}

#[test]
fn integer_arithmetic_truncates_toward_zero() {
    assert_eq!(
        output("agent main { on start { print(1 + 2 * 3) print(7 / 2) print(-7 / 2) print(7 % 3) print(-7 % 3) } }"),
        lines(&["7", "3", "-3", "1", "-1"])
    );
}

#[test]
fn float_arithmetic_mixes_with_integers() {
    assert_eq!(
        output("agent main { on start { print(1.5 + 2) print(2 * 0.25) print(-1.5) print(1e2) } }"),
        lines(&["3.5", "0.5", "-1.5", "100"])
    );
}

#[test]
fn comparisons_and_equality() {
    assert_eq!(
        output("agent main { on start { print(1 < 2) print(2 > 1) print(\"a\" < \"b\") print(1 == 1) print(1 != 1) print(1 == 1.0) print([1, 2] == [1, 2]) } }"),
        lines(&["true", "true", "true", "true", "false", "false", "true"])
    );
}

#[test]
fn logical_operators_on_integers_pick_an_operand() {
    assert_eq!(
        output("agent main { on start { print(0 and 5) print(2 and 5) print(0 or 5) print(2 or 5) print(true and false) print(not not true) } }"),
        lines(&["0", "5", "5", "2", "false", "true"])
    );
}

#[test]
fn truthiness_of_conditions() {
    assert_eq!(
        output("agent main { on start { if 0 { print(\"a\") } else { print(\"b\") } if null { print(\"c\") } else { print(\"d\") } if \"\" { print(\"e\") } } }"),
        lines(&["b", "d", "e"])
    );
}

#[test]
fn recursion_returns_through_nested_blocks() {
    assert_eq!(
        output("agent main { fn fact(n) { if n < 2 { return 1 } return n * fact(n - 1) } on start { print(fact(5)) } }"),
        lines(&["120"])
    );
}

#[test]
fn function_sees_the_callers_variables() {
    assert_eq!(
        output("agent main { fn f() { return x } on start { let x = 3 print(f()) } }"),
        lines(&["3"])
    );
}

#[test]
fn only_the_first_start_handler_runs_in_each_agent() {
    assert_eq!(
        output("agent a { on start { print(1) } on start { print(2) } on stop { print(3) } } agent b { on start { print(4) } }"),
        lines(&["1", "4"])
    );
}

#[test]
fn a_call_gives_the_caller_its_own_variables_back() {
    assert_eq!(
        output("agent main { fn dobro(n) { return n * 2 } on start { let n = 5 print(dobro(21)) print(n) } }"),
        lines(&["42", "5"])
    );
    let (printed, err) = outcome("agent main { fn f(n) { if true { return 1 } } on start { print(f(5)) print(n) } }");
    assert_eq!(printed, lines(&["1"]));
    assert_eq!(err, Some("Variable not found: `n` at line 1, column 76".to_string()));
    assert_eq!(
        output("agent main { fn g(xs) { for x in xs { return x } } on start { let x = 0 print(g([7])) print(x) } }"),
        lines(&["7", "0"])
    );
}

#[test]
fn a_let_binds_and_a_read_gives_the_value_back() {
    assert_eq!(output("agent main { on start { let x = 2 + 3 print(x) let x = x * 2 print(x) } }"), lines(&["5", "10"]));
}

#[test]
fn assignment_updates_the_variable() {
    assert_eq!(output("agent main { on start { let x = 1 x = x + 1 print(x) } }"), lines(&["2"]));
}

// ─── runtime errors ─────────────────────────────────────────────

#[test]
fn unknown_variable_is_reported_with_its_position() {
    assert_eq!(
        failure("agent main { on start { let x = y_nao_existe } }"),
        "Variable not found: `y_nao_existe` at line 1, column 33"
    );
}

#[test]
fn division_by_zero_is_reported_at_the_operator() {
    assert_eq!(failure("agent main { on start { let x = 1 / 0 } }"), "Division by zero at line 1, column 35");
    assert_eq!(failure("agent main { on start { let x = 1 % 0 } }"), "Division by zero at line 1, column 35");
}

#[test]
fn mismatched_operands_are_a_type_error() {
    assert_eq!(
        failure("agent main { on start { let x = 42 + true } }"),
        "Type error: cannot apply Add to Int and Bool at line 1, column 36"
    );
    assert_eq!(
        failure("agent main { on start { let x = 1 < \"a\" } }"),
        "Type error: cannot compare Int with String at line 1, column 35"
    );
    assert_eq!(
        failure("agent main { on start { let x = -\"a\" } }"),
        "Type error: cannot negate String at line 1, column 33"
    );
}

#[test]
fn assignment_to_an_unknown_variable_fails() {
    assert_eq!(failure("agent main { on start { x = 1 } }"), "Variable not found: `x` at line 1, column 25");
}

#[test]
fn wrong_number_of_arguments_fails_at_the_call() {
    assert_eq!(
        failure("agent main { fn f(a) { return a } on start { print(f(1, 2)) } }"),
        "Type error: function `f` expects 1 arguments, got 2 at line 1, column 53"
    );
}

#[test]
fn index_out_of_bounds_fails() {
    assert_eq!(
        failure("agent main { on start { let xs = [1, 2, 3] print(xs[5]) } }"),
        "Type error: index 5 out of bounds (len 3) at line 1, column 52"
    );
}

#[test]
fn for_over_a_non_list_fails() {
    assert_eq!(
        failure("agent main { on start { for i in 5 { print(i) } } }"),
        "Type error: expected List, got Int at line 1, column 25"
    );
}

#[test]
fn native_argument_errors() {
    assert_eq!(
        failure("agent main { on start { print(len(1)) } }"),
        "Type error: len expects String or List, got Int at line 1, column 35"
    );
    assert_eq!(
        failure("agent main { on start { print(len()) } }"),
        "Native function error: len expects 1 argument at line 1, column 34"
    );
}

#[test]
fn field_access_and_calling_a_value_fail() {
    assert_eq!(
        failure("agent main { on start { let a = 1 print(a.b) } }"),
        "Type error: field access `b` not supported on Int at line 1, column 42"
    );
    assert_eq!(
        failure("agent main { on start { let a = 1 print(a(2)) } }"),
        "Type error: cannot call Int at line 1, column 42"
    );
}

#[test]
fn return_outside_a_function_stops_the_run() {
    assert_eq!(failure("agent main { on start { return 5 } }"), "Return value: Int(5)");
    assert_eq!(failure("agent main { on start { return } }"), "Return value: Null");
    assert_eq!(failure("agent main { on start { return \"a\\b\" } }"), "Return value: String(\"a\\\\b\")");
    assert_eq!(
        failure("agent main { on start { return [1, 2.0, true] } }"),
        "Return value: List([Int(1), Float(2.0), Bool(true)])"
    );
}

#[test]
fn output_before_an_error_is_kept() {
    let (printed, err) = outcome("agent main { on start { print(1) print(z) print(2) } }");
    assert_eq!(printed, lines(&["1"]));
    assert_eq!(err, Some("Variable not found: `z` at line 1, column 40".to_string()));
}

#[test]
fn a_small_step_budget_halts_a_loop() {
    let source = "agent main { on start { while true { } } }";
    let program = parse(lex(source).unwrap()).unwrap();
    let (printed, result) = run_with_fuel(&program, source, 50, &float_ops);
    assert!(printed.is_empty());
    assert!(matches!(result, Err(Halt::StepLimit)));
}

// ─── source positions ───────────────────────────────────────────

#[test]
fn line_col_counts_lines_and_characters() {
    assert_eq!(line_col("ab\ncd", 4), (2, 2));
    assert_eq!(line_col("ab\ncd", 0), (1, 1));
    assert_eq!(line_col("abc", 10), (1, 4));
    assert_eq!(line_col("", 0), (1, 1));
    assert_eq!(line_col("é\nx", 3), (2, 1));
}

// ─── values, operators and the environment ──────────────────────

#[test]
fn operators_on_values() {
    let seven = eval_binop(&Value::Int(3), &Value::Int(4), BinOp::Add, 1, 1, &float_ops);
    assert!(matches!(seven, Ok(Value::Int(7))));
    let eq = eval_binop(&Value::Int(3), &Value::String("3".to_string()), BinOp::Eq, 1, 1, &float_ops);
    assert!(matches!(eq, Ok(Value::Bool(false))));
    let ne = eval_binop(&Value::Int(3), &Value::String("3".to_string()), BinOp::NotEq, 1, 1, &float_ops);
    assert!(matches!(ne, Ok(Value::Bool(true))));
    let div = eval_binop(&Value::Int(3), &Value::Int(0), BinOp::Div, 2, 9, &float_ops);
    assert!(matches!(div, Err(RuntimeError::DivisionByZero { line: 2, column: 9 })));
    let neg = eval_unary(&Value::Int(5), UnaryOp::Neg, 1, 1, &float_ops);
    assert!(matches!(neg, Ok(Value::Int(-5))));
    let not = eval_unary(&Value::Null, UnaryOp::Not, 1, 1, &float_ops);
    assert!(matches!(not, Ok(Value::Bool(true))));
}

#[test]
fn equality_and_truthiness_of_values() {
    let a = Value::List(vec![Value::Int(1), Value::String("x".to_string())]);
    let b = Value::List(vec![Value::Int(1), Value::String("x".to_string())]);
    assert!(values_eq(&a, &b));
    assert!(!values_eq(&Value::Int(1), &Value::Bool(true)));
    assert!(is_truthy(&Value::Int(2)));
    assert!(!is_truthy(&Value::Int(0)));
    assert!(!is_truthy(&Value::Null));
    assert!(is_truthy(&Value::String(String::new())));
    assert_eq!(Value::Float(1.5f64.to_bits()).type_label(), "Float");
    assert_eq!(a.to_string_value(&float_ops), "[1, x]");
}

#[test]
fn environment_scopes() {
    let mut env = Environment::new_global();
    let x = "x".to_string();
    let y = "y".to_string();
    assert!(env.get(&x).is_none());
    env.define(x.clone(), Value::Int(1));
    env.push_scope();
    env.define(y.clone(), Value::Int(2));
    assert!(matches!(env.get(&x), Some(Value::Int(1))));
    assert!(env.assign(&x, Value::Int(5)));
    assert!(!env.assign(&"z".to_string(), Value::Int(0)));
    env.pop_scope();
    assert!(env.get(&y).is_none());
    assert!(matches!(env.get(&x), Some(Value::Int(5))));
}

// ─── documented examples ────────────────────────────────────────

#[test]
fn example_variables_and_types() {
    let src = "agent main {\n    on start {\n        let nome = \"Giulia\"\n        let idade = 1\n        let altura = 0.5\n        print(nome)\n        print(idade)\n        print(altura)\n    }\n}\n";
    assert_eq!(output(src), lines(&["Giulia", "1", "0.5"]));
}

#[test]
fn example_print_with_several_arguments() {
    let src = "agent main {\n    on start {\n        print(\"um\", 2, true, null, [1, 2])\n    }\n}\n";
    assert_eq!(output(src), lines(&["um 2 true null [1, 2]"]));
}

#[test]
fn example_type_of_and_to_str() {
    let src = "agent main {\n    on start {\n        print(type_of(42))\n        print(type_of(\"texto\"))\n        print(to_str(3.14))\n    }\n}\n";
    assert_eq!(output(src), lines(&["Int", "String", "3.14"]));
}

#[test]
fn example_else_if_chain() {
    let src = "agent main {\n    on start {\n        let nota = 7\n        if nota >= 9 {\n            print(\"A\")\n        } else if nota >= 7 {\n            print(\"B\")\n        } else {\n            print(\"C\")\n        }\n    }\n}\n";
    assert_eq!(output(src), lines(&["B"]));
}

#[test]
fn example_comparison_and_logic() {
    let src = "agent main {\n    on start {\n        let a = 10\n        let b = 20\n        print(a == b)\n        print(a < b)\n        print(a < b and b < 30)\n        print(not (a == b))\n    }\n}\n";
    assert_eq!(output(src), lines(&["false", "true", "true", "true"]));
}

#[test]
fn comparisons_read_the_same_from_either_side() {
    assert_eq!(
        output("agent m { on start { print(1.5 < 2.5) print(2.5 > 1.5) print(2.5 <= 2.5) print(2.5 >= 2.5) print(3 < 2) print(2 > 3) } }"),
        vec!["true", "true", "true", "true", "false", "false"]
    );
    let err = failure("agent m { on start { print(1 < \"a\") } }");
    assert!(err.starts_with("Type error: cannot compare Int with String"), "{}", err);
    let err = failure("agent m { on start { print(\"a\" > 1) } }");
    assert!(err.starts_with("Type error: cannot compare String with Int"), "{}", err);
}
