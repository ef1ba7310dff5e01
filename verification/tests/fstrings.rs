use giulia::ast::{Expr, FStringSegment, Stmt};
use giulia::interp::{run, Halt};
use giulia::lexer::lex;
use giulia::parser::parse;
use giulia::value::{FloatAnswer, FloatOp, FloatRequest, Order};

fn float_ops(q: FloatRequest) -> FloatAnswer {
    match q {
        FloatRequest::Parse(text) => FloatAnswer::Bits(text.parse::<f64>().unwrap_or(0.0).to_bits()),
        FloatRequest::FromInt(i) => FloatAnswer::Bits((i as f64).to_bits()),
        FloatRequest::Arith(op, a, b) => {
            let (x, y) = (f64::from_bits(a), f64::from_bits(b));
            let r = match op {
                FloatOp::Add => x + y,
                FloatOp::Sub => x - y,
                FloatOp::Mul => x * y,
                FloatOp::Div => x / y,
            };
            FloatAnswer::Bits(r.to_bits())
        }
        FloatRequest::Negate(a) => FloatAnswer::Bits((-f64::from_bits(a)).to_bits()),
        FloatRequest::Compare(a, b) => {
            let (x, y) = (f64::from_bits(a), f64::from_bits(b));
            FloatAnswer::Order(if x < y {
                Order::Less
            } else if x > y {
                Order::Greater
            } else {
                Order::Equal
            })
        }
        FloatRequest::Display(a) => FloatAnswer::Text(f64::from_bits(a).to_string()),
        FloatRequest::Fixed(a, prec) => FloatAnswer::Text(format!("{:.prec$}", f64::from_bits(a), prec = prec)),
        FloatRequest::Debug(a) => FloatAnswer::Text(format!("{:?}", f64::from_bits(a))),
    }
}

fn outcome(source: &str) -> (Vec<String>, Option<String>) {
    let tokens = lex(source).expect("lex should succeed");
    let program = parse(tokens).expect("parse should succeed");
    let (lines, result) = run(&program, source, &float_ops);
    let err = match result {
        Ok(()) => None,
        Err(Halt::Error(e)) => Some(e.message(&float_ops)),
        Err(Halt::StepLimit) => Some("step limit".to_string()),
    };
    (lines, err)
}

fn output(source: &str) -> Vec<String> {
    let (lines, err) = outcome(source);
    assert_eq!(err, None, "unexpected runtime error");
    lines
}

fn lines(xs: &[&str]) -> Vec<String> {
    xs.iter().map(|s| s.to_string()).collect()
}

#[test]
fn fstring_interpolates_variables() {
    let src = "agent main {\n    on start {\n        let nome = \"Giulia\"\n        let idade = 1\n        print(f\"nome: {nome}, idade: {idade}\")\n    }\n}\n";
    assert_eq!(output(src), lines(&["nome: Giulia, idade: 1"]));
}

#[test]
fn fstring_interpolates_expressions() {
    let src = "agent main {\n    on start {\n        let x = 10\n        let y = 20\n        print(f\"{x} + {y} = {x + y}\")\n    }\n}\n";
    assert_eq!(output(src), lines(&["10 + 20 = 30"]));
}

#[test]
fn fstring_format_specs() {
    let src = "agent main {\n    on start {\n        let pi = 3.1415926535\n        let n = 255\n        print(f\"float:  {pi:.2f}\")\n        print(f\"hex:    {n:x}\")\n        print(f\"HEX:    {n:X}\")\n        print(f\"bin:    {n:b}\")\n        print(f\"octal:  {n:o}\")\n        print(f\"int:    {n:d}\")\n    }\n}\n";
    assert_eq!(
        output(src),
        lines(&["float:  3.14", "hex:    ff", "HEX:    FF", "bin:    11111111", "octal:  377", "int:    255"])
    );
}

#[test]
fn fstring_doubled_braces_are_literal() {
    let src = "agent main {\n    on start {\n        let x = 42\n        print(f\"{{x}} = {x}\")\n        print(f\"{{{{chaves}}}}\")\n    }\n}\n";
    assert_eq!(output(src), lines(&["{x} = 42", "{{chaves}}"]));
}

#[test]
fn fstring_in_loops_with_function_calls() {
    let src = "agent main {\n    fn eh_par(n) {\n        return n % 2 == 0\n    }\n\n    on start {\n        let nums = [1, 2, 3, 4, 5, 6]\n        for n in nums {\n            if eh_par(n) {\n                print(f\"{n} eh par\")\n            } else {\n                print(f\"{n} eh impar\")\n            }\n        }\n    }\n}\n";
    assert_eq!(
        output(src),
        lines(&["1 eh impar", "2 eh par", "3 eh impar", "4 eh par", "5 eh impar", "6 eh par"])
    );
}

#[test]
fn fstring_with_recursive_calls() {
    let src = "agent main {\n    fn fatorial(n) {\n        if n <= 1 {\n            return 1\n        }\n        return n * fatorial(n - 1)\n    }\n\n    on start {\n        let i = 0\n        while i <= 10 {\n            print(f\"{i}! = {fatorial(i)}\")\n            i = i + 1\n        }\n    }\n}\n";
    let out = output(src);
    assert_eq!(out.len(), 11);
    assert_eq!(out[0], "0! = 1");
    assert_eq!(out[5], "5! = 120");
    assert_eq!(out[10], "10! = 3628800");
}

#[test]
fn fstring_with_policies_and_float_format() {
    let src = "agent main {\n    use camera\n    use speech\n\n    on_error {\n        strategy    = \"restart_handler\"\n        max_retries = 3\n        backoff_ms  = 500\n    }\n    event_policy {\n        on_overflow    = \"drop_oldest\"\n        critical_queue = 100\n    }\n    ai_policy {\n        timeout_ms        = 5000\n        fallback_response = \"nao entendi\"\n    }\n    channel temperature: Float\n\n    fn processar(valor) {\n        return valor * 2\n    }\n\n    on start priority high {\n        let leituras = [22.5, 23.1, 21.8]\n        for leitura in leituras {\n            print(f\"temperatura processada: {processar(leitura):.1f}\")\n        }\n        print(f\"tipos: {type_of(leituras)}, total: {len(leituras)}\")\n    }\n}\n";
    assert_eq!(
        output(src),
        lines(&[
            "temperatura processada: 45.0",
            "temperatura processada: 46.2",
            "temperatura processada: 43.6",
            "tipos: List, total: 3",
        ])
    );
}

#[test]
fn fstring_parses_into_segments() {
    let program = parse(lex("let s = f\"a{x:.2f}b\"\n").unwrap()).unwrap();
    match &program.stmts[0] {
        Stmt::LetStmt(l) => match &l.value {
            Expr::FString(segs, span) => {
                assert_eq!((span.start, span.end), (8, 20));
                assert_eq!(segs.len(), 3);
                assert_eq!(segs[0], FStringSegment::Lit("a".to_string()));
                match &segs[1] {
                    FStringSegment::Expr(Expr::Identifier(name, at), spec) => {
                        assert_eq!(name, "x");
                        assert_eq!((at.start, at.end), (12, 13));
                        assert_eq!(spec.as_deref(), Some(".2f"));
                    }
                    _ => panic!("expected an expression segment"),
                }
                assert_eq!(segs[2], FStringSegment::Lit("b".to_string()));
            }
            _ => panic!("expected FString"),
        },
        _ => panic!("expected LetStmt"),
    }
}

#[test]
fn fstring_errors() {
    let errors = parse(lex("let s = f\"{x\"\n").unwrap()).unwrap_err();
    assert_eq!(
        errors[0].message(),
        "Unexpected token: expected \"RBrace\", found \"FString(\\\"{x\\\")\" at line 1, column 9"
    );
    let errors = parse(lex("let s = f\"{x y}\"\n").unwrap()).unwrap_err();
    assert_eq!(
        errors[0].message(),
        "Unexpected token: expected \"RBrace\", found \"Identifier(\\\"y\\\")\" at line 1, column 9"
    );
    let errors = parse(lex("let s = f\"{@}\"\n").unwrap()).unwrap_err();
    assert_eq!(
        errors[0].message(),
        "Unexpected token: expected \"expressão\", found \"FString(\\\"{@}\\\")\" at line 1, column 9"
    );
}

#[test]
fn runtime_errors_inside_an_fstring_point_into_it() {
    let (printed, err) = outcome("agent main { on start { print(f\"v = {zz}\") } }");
    assert!(printed.is_empty());
    assert_eq!(err, Some("Variable not found: `zz` at line 1, column 38".to_string()));
}

#[test]
fn fstring_without_braces_is_plain_text() {
    let program = parse(lex("let s = f\"plain text\"\nlet e = f\"\"\n").unwrap()).unwrap();
    match &program.stmts[0] {
        Stmt::LetStmt(l) => match &l.value {
            Expr::FString(segs, _) => assert_eq!(segs, &vec![FStringSegment::Lit("plain text".to_string())]),
            _ => panic!("expected FString"),
        },
        _ => panic!("expected LetStmt"),
    }
    match &program.stmts[1] {
        Stmt::LetStmt(l) => assert!(matches!(&l.value, Expr::FString(segs, _) if segs.is_empty())),
        _ => panic!("expected LetStmt"),
    }
    assert_eq!(output("agent main { on start { print(f\"no braces\") } }"), lines(&["no braces"]));
}

#[test]
fn fstring_format_specs_follow_python_for_integers() {
    let src = "agent main { on start { let a = 42 let n = -255 print(f\"{a:.2f} {n:x} {n:X} {n:b} {n:o} {n:d}\") } }";
    assert_eq!(output(src), lines(&["42.00 -ff -FF -11111111 -377 -255"]));
}
