use treewalk::ast::{parse, Expression};
use treewalk::diagnostic::{report, Diagnostic};
use treewalk::driver::{run, run_file, Ran};
use treewalk::environment::{Arithmetic, Environment, Number, Relation, Truth, Value};
use treewalk::interpreter::{apply_binary, apply_unary, evaluate, execute, literal, Effect};
use treewalk::scanner::scan;
use treewalk::token::{Token, TokenType};

fn magnitude(n: &Number) -> f64 {
    match n {
        Number::Literal(text) => text.parse::<f64>().unwrap(),
        Number::Negated(inner) => -magnitude(inner),
        Number::Combined(left, op, right) => {
            let (a, b) = (magnitude(left), magnitude(right));
            match op {
                Arithmetic::Add => a + b,
                Arithmetic::Subtract => a - b,
                Arithmetic::Multiply => a * b,
                Arithmetic::Divide => a / b,
            }
        }
    }
}

fn holds(t: &Truth) -> bool {
    match t {
        Truth::Constant(b) => *b,
        Truth::Not(inner) => !holds(inner),
        Truth::Compared(left, relation, right) => {
            let (a, b) = (magnitude(left), magnitude(right));
            match relation {
                Relation::Greater => a > b,
                Relation::GreaterEqual => a >= b,
                Relation::Less => a < b,
                Relation::LessEqual => a <= b,
                Relation::NotEqual => a != b,
                Relation::Equal => a == b,
            }
        }
    }
}

fn shown(v: &Value) -> String {
    match v {
        Value::Number(n) => format!("{}", magnitude(n)),
        Value::String(s) => s.clone(),
        Value::Boolean(t) => format!("{}", holds(t)),
        Value::Null => "null".to_string(),
    }
}

fn lines(out: &Ran) -> Vec<String> {
    out.effects
        .iter()
        .map(|e| match e {
            Effect::Print(v) => shown(v),
            Effect::Report(d) => format!("error: {} [{}:{}]", d.message, d.line, d.index),
        })
        .collect()
}

fn session(source: &str) -> Vec<String> {
    let mut env = Environment::new();
    lines(&run(source, &mut env))
}

fn value_of(source: &str) -> (Value, Vec<Diagnostic>) {
    let out = parse(scan(source).tokens);
    let env = Environment::new();
    let mut sink = Vec::new();
    match &out.statements[0] {
        treewalk::ast::Statement::Expression(e) => {
            let v = evaluate(e, &env, &mut sink);
            (v, sink)
        }
        other => panic!("{:?}", other),
    }
}

fn number(text: &str) -> Value {
    Value::Number(Number::Literal(text.to_string()))
}

fn op(kind: TokenType, text: &str) -> Token {
    Token::new(kind, text.to_string(), text.chars().collect(), 4, 2)
}

#[test]
fn report_appends_one_diagnostic() {
    let mut sink = Vec::new();
    report(&mut sink, 1, 2, "first".to_string());
    report(&mut sink, 3, 4, "second".to_string());
    assert_eq!(sink.len(), 2);
    assert_eq!((sink[0].line, sink[0].index, sink[0].message.as_str()), (1, 2, "first"));
    assert_eq!((sink[1].line, sink[1].index, sink[1].message.as_str()), (3, 4, "second"));
    let copy = sink[1].clone();
    assert_eq!((copy.line, copy.index, copy.message.as_str()), (3, 4, "second"));
}

#[test]
fn environment_defines_and_reads() {
    let mut env = Environment::new();
    let x = Token::new(TokenType::IDENTIFIER, "x".to_string(), vec!['x'], 2, 5);
    let mut sink = Vec::new();
    assert!(matches!(env.get(&x, &mut sink), Value::Null));
    assert_eq!(sink.len(), 1);
    assert_eq!(sink[0].message, "undefined variable 'x'");
    assert_eq!((sink[0].line, sink[0].index), (2, 5));

    env.define("x".to_string(), Value::String("one".to_string()));
    env.define("y".to_string(), Value::Null);
    let mut sink = Vec::new();
    assert_eq!(shown(&env.get(&x, &mut sink)), "one");
    assert!(sink.is_empty());

    env.define("x".to_string(), number("2"));
    assert_eq!(shown(&env.get(&x, &mut sink)), "2");
    let y = Token::new(TokenType::IDENTIFIER, "y".to_string(), vec!['y'], 0, 0);
    assert!(matches!(env.get(&y, &mut sink), Value::Null));
    assert!(sink.is_empty());
}

#[test]
fn literal_values_by_kind() {
    let mut sink = Vec::new();
    let t = |kind, text: &str| Token::new(kind, text.to_string(), text.chars().collect(), 1, 1);
    assert_eq!(shown(&literal(&t(TokenType::STRING, "hi"), &mut sink)), "hi");
    assert_eq!(shown(&literal(&t(TokenType::NUMBER, "42"), &mut sink)), "42");
    assert_eq!(shown(&literal(&t(TokenType::TRUE, "true"), &mut sink)), "true");
    assert_eq!(shown(&literal(&t(TokenType::FALSE, "false"), &mut sink)), "false");
    assert_eq!(shown(&literal(&t(TokenType::NIL, "nil"), &mut sink)), "null");
    assert!(sink.is_empty());
    assert!(matches!(literal(&t(TokenType::PLUS, "+"), &mut sink), Value::Null));
    assert_eq!(sink.len(), 1);
    assert_eq!(sink[0].message, "invalid literal");
}

#[test]
fn arithmetic_on_two_numbers_matches_doubles() {
    let cases: [(TokenType, &str, f64); 4] = [
        (TokenType::PLUS, "+", 7.0 + 2.0),
        (TokenType::MINUS, "-", 7.0 - 2.0),
        (TokenType::STAR, "*", 7.0 * 2.0),
        (TokenType::SLASH, "/", 7.0 / 2.0),
    ];
    for (kind, text, expected) in cases {
        let mut sink = Vec::new();
        let v = apply_binary(number("7"), &op(kind, text), number("2"), &mut sink);
        assert!(sink.is_empty());
        match v {
            Value::Number(n) => assert_eq!(magnitude(&n), expected),
            other => panic!("{:?}", other),
        }
    }
}

#[test]
fn division_by_zero_is_no_error() {
    let (v, sink) = value_of("1 / 0;");
    assert!(sink.is_empty());
    match v {
        Value::Number(n) => assert_eq!(magnitude(&n), f64::INFINITY),
        other => panic!("{:?}", other),
    }
    let (v, sink) = value_of("0 / 0;");
    assert!(sink.is_empty());
    match v {
        Value::Number(n) => assert!(magnitude(&n).is_nan()),
        other => panic!("{:?}", other),
    }
}

#[test]
fn comparisons_on_two_numbers() {
    let cases = [
        ("1 > 2;", false),
        ("2 >= 2;", true),
        ("1 < 2;", true),
        ("3 <= 2;", false),
        ("1 != 1;", false),
        ("1 == 1;", true),
        ("0 / 0 == 0 / 0;", false),
    ];
    for (source, expected) in cases {
        let (v, sink) = value_of(source);
        assert!(sink.is_empty());
        match v {
            Value::Boolean(t) => assert_eq!(holds(&t), expected, "{}", source),
            other => panic!("{:?}", other),
        }
    }
}

#[test]
fn number_keeps_the_order_of_its_operands() {
    let mut sink = Vec::new();
    let v = apply_binary(number("7"), &op(TokenType::MINUS, "-"), number("2"), &mut sink);
    match v {
        Value::Number(Number::Combined(left, Arithmetic::Subtract, right)) => {
            assert!(matches!(*left, Number::Literal(ref s) if s == "7"));
            assert!(matches!(*right, Number::Literal(ref s) if s == "2"));
        }
        other => panic!("{:?}", other),
    }
}

#[test]
fn strings_join_under_plus() {
    let mut sink = Vec::new();
    let v = apply_binary(
        Value::String("ab".to_string()),
        &op(TokenType::PLUS, "+"),
        Value::String("cd".to_string()),
        &mut sink,
    );
    assert!(matches!(v, Value::String(ref s) if s == "abcd"));
    assert!(sink.is_empty());
    let (v, sink) = value_of("\"x\" + \"\" + \"yz\";");
    assert!(matches!(v, Value::String(ref s) if s == "xyz"));
    assert!(sink.is_empty());
}

#[test]
fn strings_take_no_other_operator() {
    for (kind, text) in [
        (TokenType::MINUS, "-"),
        (TokenType::STAR, "*"),
        (TokenType::SLASH, "/"),
        (TokenType::EQUAL_EQUAL, "=="),
        (TokenType::LESS, "<"),
    ] {
        let mut sink = Vec::new();
        let v = apply_binary(
            Value::String("ab".to_string()),
            &op(kind, text),
            Value::String("cd".to_string()),
            &mut sink,
        );
        assert!(matches!(v, Value::String(ref s) if s.is_empty()));
        assert_eq!(sink.len(), 1);
        assert_eq!(sink[0].message, "invalid operator");
        assert_eq!((sink[0].line, sink[0].index), (4, 2));
    }
}

#[test]
fn numbers_take_no_other_operator() {
    let mut sink = Vec::new();
    let v = apply_binary(number("1"), &op(TokenType::BANG, "!"), number("2"), &mut sink);
    assert!(matches!(v, Value::Null));
    assert_eq!(sink.len(), 1);
    assert_eq!(sink[0].message, "invalid operator");
}

#[test]
fn mixed_operands_are_invalid() {
    let mut sink = Vec::new();
    let v = apply_binary(
        number("1"),
        &op(TokenType::PLUS, "+"),
        Value::String("a".to_string()),
        &mut sink,
    );
    assert!(matches!(v, Value::Null));
    assert_eq!(sink.len(), 1);
    assert_eq!(sink[0].message, "invalid operands");
    let v = apply_binary(
        Value::Boolean(Truth::Constant(true)),
        &op(TokenType::EQUAL_EQUAL, "=="),
        Value::Boolean(Truth::Constant(true)),
        &mut sink,
    );
    assert!(matches!(v, Value::Null));
    assert_eq!(sink.len(), 2);
    let v = apply_binary(Value::Null, &op(TokenType::PLUS, "+"), Value::Null, &mut sink);
    assert!(matches!(v, Value::Null));
    assert_eq!(sink.len(), 3);
}

#[test]
fn unary_operators() {
    let mut sink = Vec::new();
    let v = apply_unary(&op(TokenType::MINUS, "-"), number("3"), &mut sink);
    assert_eq!(shown(&v), "-3");
    let v = apply_unary(&op(TokenType::BANG, "!"), Value::Boolean(Truth::Constant(true)), &mut sink);
    assert!(matches!(v, Value::Boolean(Truth::Constant(false))));
    assert!(sink.is_empty());
    let (v, sink) = value_of("!(1 < 2);");
    assert!(sink.is_empty());
    assert_eq!(shown(&v), "false");
    let (v, _) = value_of("!!(1 < 2);");
    assert_eq!(shown(&v), "true");
}

#[test]
fn unary_operators_that_do_not_fit() {
    let mut sink = Vec::new();
    let v = apply_unary(&op(TokenType::BANG, "!"), number("3"), &mut sink);
    assert!(matches!(v, Value::Null));
    assert_eq!(sink[0].message, "invalid operator");
    let v = apply_unary(&op(TokenType::MINUS, "-"), Value::Boolean(Truth::Constant(true)), &mut sink);
    assert!(matches!(v, Value::Null));
    assert_eq!(sink[1].message, "invalid operator");
    let v = apply_unary(&op(TokenType::MINUS, "-"), Value::String("a".to_string()), &mut sink);
    assert!(matches!(v, Value::Null));
    assert_eq!(sink[2].message, "invalid operands");
    let v = apply_unary(&op(TokenType::BANG, "!"), Value::Null, &mut sink);
    assert!(matches!(v, Value::Null));
    assert_eq!(sink[3].message, "invalid operands");
}

#[test]
fn grouping_yields_the_inner_value() {
    let (v, sink) = value_of("(2 + 3) * (4 - 1);");
    assert!(sink.is_empty());
    assert_eq!(shown(&v), "15");
}

#[test]
fn diagnostics_come_left_operand_first() {
    let (v, sink) = value_of("(a + 1) - (b + \"s\");");
    assert!(matches!(v, Value::Null));
    let said: Vec<&str> = sink.iter().map(|d| d.message.as_str()).collect();
    assert_eq!(
        said,
        vec![
            "undefined variable 'a'",
            "invalid operands",
            "undefined variable 'b'",
            "invalid operands",
            "invalid operands",
        ]
    );
}

#[test]
fn evaluate_hand_built_tree() {
    let tree = Expression::Unary(
        op(TokenType::MINUS, "-"),
        Box::new(Expression::Grouping(Box::new(Expression::Literal(Token::new(
            TokenType::NUMBER,
            "8".to_string(),
            vec!['8'],
            0,
            0,
        ))))),
    );
    let mut sink = Vec::new();
    let v = evaluate(&tree, &Environment::new(), &mut sink);
    assert_eq!(shown(&v), "-8");
    assert!(sink.is_empty());
}

#[test]
fn declare_then_print() {
    let mut env = Environment::new();
    let out = run("var x = 1 + 2; print x;", &mut env);
    assert!(!out.exit);
    assert_eq!(lines(&out), vec!["3"]);
    let x = Token::new(TokenType::IDENTIFIER, "x".to_string(), vec!['x'], 0, 0);
    let mut sink = Vec::new();
    match env.get(&x, &mut sink) {
        Value::Number(n) => assert_eq!(magnitude(&n), 3.0),
        other => panic!("{:?}", other),
    }
    assert!(sink.is_empty());
}

#[test]
fn invalid_operands_do_not_stop_the_program() {
    assert_eq!(
        session("1 + \"a\"; print 2;"),
        vec!["error: invalid operands [0:1]", "2"]
    );
    assert_eq!(session("1 + \"a\";"), vec!["error: invalid operands [0:1]"]);
}

#[test]
fn undefined_variable_is_null_and_the_program_goes_on() {
    assert_eq!(
        session("print y; print 1;"),
        vec!["error: undefined variable 'y' [0:1]", "null", "1"]
    );
}

#[test]
fn print_renders_each_kind() {
    assert_eq!(
        session("print 10 / 4; print \"s\"; print true; print 1 < 2; print nul; print 100 * 100;"),
        vec!["2.5", "s", "true", "true", "null", "10000"]
    );
}

#[test]
fn redeclaring_overwrites() {
    assert_eq!(session("var a = 1; var a = a + 1; var a = a * 10; print a;"), vec!["20"]);
    assert_eq!(session("var a = 1; var a; print a;"), vec!["null"]);
}

#[test]
fn execute_returns_effects_in_order() {
    let out = parse(scan("print 1; q; print \"z\" - \"z\"; print 2;").tokens);
    let mut env = Environment::new();
    let effects = execute(&out.statements, &mut env);
    let got = lines(&Ran { effects, exit: false });
    assert_eq!(
        got,
        vec![
            "1",
            "error: undefined variable 'q' [0:2]",
            "error: invalid operator [0:5]",
            "",
            "2",
        ]
    );
}

#[test]
fn scan_and_parse_diagnostics_come_before_the_effects() {
    assert_eq!(
        session("print 1 # ; print (2;"),
        vec![
            "error: Unexpected token [0:2]",
            "error: expecting ')' [0:5]",
            "error: expecting ';' [0:5]",
            "1",
            "2",
        ]
    );
}

#[test]
fn unterminated_string_still_runs() {
    assert_eq!(
        session("print \"abc"),
        vec!["error: Unterminated string [0:1]", "error: expecting ';' [0:1]", "abc"]
    );
}

#[test]
fn session_keeps_its_variables() {
    let mut env = Environment::new();
    assert!(lines(&run("var x = 5;\n", &mut env)).is_empty());
    assert_eq!(lines(&run("print x;\n", &mut env)), vec!["5"]);
}

#[test]
fn exit_runs_nothing() {
    let mut env = Environment::new();
    let out = run("var x = 1; print x; exit print 2;", &mut env);
    assert!(out.exit);
    assert!(out.effects.is_empty());
    let x = Token::new(TokenType::IDENTIFIER, "x".to_string(), vec!['x'], 0, 0);
    let mut sink = Vec::new();
    assert!(matches!(env.get(&x, &mut sink), Value::Null));
    assert_eq!(sink.len(), 1);

    let out = run("@ exit", &mut env);
    assert!(out.exit);
    assert_eq!(lines(&out), vec!["error: Unexpected token [0:0]"]);
}

#[test]
fn file_lines_do_not_share_variables() {
    let out = run_file("var x = 5;\nprint x;");
    assert!(!out.exit);
    assert_eq!(lines(&out), vec!["error: undefined variable 'x' [0:1]", "null"]);
}

#[test]
fn file_lines_split_on_line_feeds() {
    assert!(run_file("").effects.is_empty());
    assert!(run_file("\n\n").effects.is_empty());
    assert_eq!(lines(&run_file("print 1;\nprint 2;\n")), vec!["1", "2"]);
    assert_eq!(lines(&run_file("print 1;\n\nprint 2;")), vec!["1", "2"]);
    assert_eq!(
        lines(&run_file("print\n1;")),
        vec![
            "error: expected expression [0:0]",
            "error: expecting ';' [0:0]",
            "null",
        ]
    );
}

#[test]
fn file_stops_at_exit() {
    let out = run_file("print 1;\nprint 2; exit\nprint 3;");
    assert!(out.exit);
    assert_eq!(lines(&out), vec!["1"]);
}
