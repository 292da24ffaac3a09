use codecrafters_interpreter::ast::{Expr, Literal, LiteralValue};
use codecrafters_interpreter::token::{Token, TokenType};
use codecrafters_interpreter::environment::Environment;
use codecrafters_interpreter::interpreter::{Interpreter, RuntimeError};
use codecrafters_interpreter::lexer::lex;
use codecrafters_interpreter::number::NumOp;
use codecrafters_interpreter::parser::Parser;

fn doubles(op: NumOp) -> u64 {
    match op {
        NumOp::Add(a, b) => (f64::from_bits(a) + f64::from_bits(b)).to_bits(),
        NumOp::Sub(a, b) => (f64::from_bits(a) - f64::from_bits(b)).to_bits(),
        NumOp::Mul(a, b) => (f64::from_bits(a) * f64::from_bits(b)).to_bits(),
        NumOp::Div(a, b) => (f64::from_bits(a) / f64::from_bits(b)).to_bits(),
        NumOp::Parse(text) => text.parse::<f64>().unwrap().to_bits(),
    }
}

fn number_text(bits: u64) -> String {
    let n = f64::from_bits(bits);
    if n == 0.0 {
        "0".to_string()
    } else if n.fract() == 0.0 {
        format!("{n:.0}")
    } else {
        n.to_string()
    }
}

fn num(n: f64) -> LiteralValue {
    LiteralValue::Number(n.to_bits())
}

fn evaluate(source: &str) -> Result<LiteralValue, RuntimeError> {
    let mut parser = Parser::new(lex(source).tokens);
    let expr = parser.parse().unwrap();
    Interpreter::new().evaluate(expr, &doubles)
}

fn value_text(source: &str) -> String {
    evaluate(source).unwrap().as_string(&number_text)
}

fn run(source: &str) -> (Vec<String>, Option<String>) {
    let mut parser = Parser::new(lex(source).tokens);
    let statements = parser.parse_statements().unwrap();
    let mut interpreter = Interpreter::new();
    let mut out = Vec::new();
    let mut failure = None;
    for s in statements {
        if let Err(e) = interpreter.run(s, &doubles, &mut out) {
            failure = Some(e.to_string());
            break;
        }
    }
    (out.iter().map(|v| v.as_string(&number_text)).collect(), failure)
}

fn is_number(v: &LiteralValue, n: f64) -> bool {
    matches!(v, LiteralValue::Number(b) if f64::from_bits(*b) == n)
}

#[test]
fn arithmetic_follows_precedence() {
    assert!(is_number(&evaluate("1 + 2 * 3").unwrap(), 7.0));
    assert!(is_number(&evaluate("(1 + 2) * 3").unwrap(), 9.0));
    assert!(is_number(&evaluate("10 - 4 - 3").unwrap(), 3.0));
    assert!(is_number(&evaluate("-(2.5 * 2)").unwrap(), -5.0));
}

#[test]
fn string_concatenation() {
    assert!(matches!(evaluate("\"a\" + \"b\"").unwrap(), LiteralValue::String(s) if s == "ab"));
}

#[test]
fn mixed_plus_is_an_error() {
    let e = evaluate("1 + \"b\"").unwrap_err();
    assert_eq!(e.message, "Operands must be two numbers or two strings.");
    assert_eq!(e.line, 1);
}

#[test]
fn arithmetic_needs_numbers() {
    assert_eq!(evaluate("\"a\" * 2").unwrap_err().message, "Operands must be numbers.");
    assert_eq!(evaluate("true < 1").unwrap_err().message, "Operands must be numbers.");
    assert_eq!(evaluate("-\"a\"").unwrap_err().message, "Operand must be a number.");
    assert_eq!(
        evaluate("\n\n-nil").unwrap_err().to_string(),
        "[line 3] Error: Operand must be a number."
    );
}

#[test]
fn division_by_zero_follows_doubles() {
    assert!(is_number(&evaluate("1 / 0").unwrap(), f64::INFINITY));
    assert!(is_number(&evaluate("-1 / 0").unwrap(), f64::NEG_INFINITY));
    assert!(matches!(evaluate("0 / 0").unwrap(), LiteralValue::Number(b) if f64::from_bits(b).is_nan()));
}

#[test]
fn comparisons() {
    assert_eq!(value_text("1 < 2"), "true");
    assert_eq!(value_text("2 <= 2"), "true");
    assert_eq!(value_text("1 > 2"), "false");
    assert_eq!(value_text("3 >= 2.5"), "true");
    assert_eq!(value_text("-1 < -0.5"), "true");
    assert_eq!(value_text("0/0 < 1"), "false");
    assert_eq!(value_text("0/0 >= 0/0"), "false");
}

#[test]
fn equality_has_no_coercion() {
    assert_eq!(value_text("1 == 1"), "true");
    assert_eq!(value_text("1 == \"1\""), "false");
    assert_eq!(value_text("nil == nil"), "true");
    assert_eq!(value_text("nil == false"), "false");
    assert_eq!(value_text("\"a\" != \"a\""), "false");
    assert_eq!(value_text("true == true"), "true");
    assert_eq!(value_text("0 == -0"), "true");
    assert_eq!(value_text("0/0 == 0/0"), "false");
    assert_eq!(value_text("0.1 + 0.2 == 0.3"), "false");
}

#[test]
fn truthiness() {
    assert_eq!(value_text("!nil"), "true");
    assert_eq!(value_text("!false"), "true");
    assert_eq!(value_text("!0"), "false");
    assert_eq!(value_text("!\"\""), "false");
}

#[test]
fn and_short_circuits() {
    assert_eq!(value_text("false and (1/0)"), "false");
    assert_eq!(value_text("false and -\"x\""), "false");
    assert_eq!(value_text("1 and 2"), "2");
    assert_eq!(value_text("nil and 2"), "nil");
}

#[test]
fn or_short_circuits() {
    assert_eq!(value_text("\"a\" or -\"x\""), "a");
    assert_eq!(value_text("nil or 3"), "3");
    assert_eq!(value_text("false or false"), "false");
}

#[test]
fn values_print_in_their_plain_form() {
    assert_eq!(value_text("3"), "3");
    assert_eq!(value_text("100000000000000000000"), "100000000000000000000");
    assert_eq!(value_text("-0"), "0");
    assert_eq!(value_text("2.5 * 2"), "5");
    assert_eq!(value_text("0.1 + 0.2"), "0.30000000000000004");
    assert_eq!(value_text("\"raw text\""), "raw text");
    assert_eq!(value_text("nil"), "nil");
}

#[test]
fn undefined_variable() {
    let e = evaluate("x").unwrap_err();
    assert_eq!(e.message, "Undefined variable 'x'");
}

#[test]
fn assignment_to_undeclared_name() {
    let (out, failure) = run("y = 5;");
    assert!(out.is_empty());
    assert_eq!(failure.as_deref(), Some("[line 1] Error: Undefined variable 'y'"));
}

#[test]
fn inner_declaration_does_not_escape_block() {
    let (out, failure) = run("var x = 1; { var x = 2; print x; } print x;");
    assert_eq!(out, vec!["2", "1"]);
    assert!(failure.is_none());
}

#[test]
fn assignment_reaches_outer_scope() {
    let (out, failure) = run("var x = 1; { x = x + 1; { x = x * 10; } } print x;");
    assert_eq!(out, vec!["20"]);
    assert!(failure.is_none());
}

#[test]
fn redeclaration_overwrites() {
    let (out, _) = run("var a = 1; var a = \"two\"; print a; var b; print b;");
    assert_eq!(out, vec!["two", "nil"]);
}

#[test]
fn assignment_yields_its_value() {
    let (out, _) = run("var a; var b; a = b = 3; print a; print b; print a = 4;");
    assert_eq!(out, vec!["3", "3", "4"]);
}

#[test]
fn if_else_branches() {
    let (out, _) = run("if (1 < 2) print \"yes\"; else print \"no\"; if (nil) print 1; if (false) print 2; else print 3;");
    assert_eq!(out, vec!["yes", "3"]);
}

#[test]
fn dangling_else_runs_with_inner_if() {
    let (out, _) = run("var a = true; var b = false; if (a) if (b) print 1; else print 2;");
    assert_eq!(out, vec!["2"]);
    let (out2, _) = run("var a = false; var b = false; if (a) if (b) print 1; else print 2;");
    assert!(out2.is_empty());
}

#[test]
fn block_error_stops_the_block_and_drops_its_scope() {
    let source = "var x = 1; { var x = 2; print x; print -\"s\"; print 99; }";
    let mut parser = Parser::new(lex(source).tokens);
    let statements = parser.parse_statements().unwrap();
    let mut interpreter = Interpreter::new();
    let mut out = Vec::new();
    let mut errors = Vec::new();
    for s in statements {
        if let Err(e) = interpreter.run(s, &doubles, &mut out) {
            errors.push(e.to_string());
        }
    }
    let printed: Vec<String> = out.iter().map(|v| v.as_string(&number_text)).collect();
    assert_eq!(printed, vec!["2"]);
    assert_eq!(errors, vec!["[line 1] Error: Operand must be a number."]);
    let check = Parser::new(lex("x").tokens).parse().unwrap();
    assert!(is_number(&interpreter.evaluate(check, &doubles).unwrap(), 1.0));
}

#[test]
fn environment_scopes() {
    let mut env = Environment::new();
    env.define("a".to_string(), num(1.0));
    assert!(matches!(env.get("a"), Some(v) if is_number(&v, 1.0)));
    assert!(env.get("b").is_none());
    let mut inner = Environment::with_enclosing(env);
    inner.define("a".to_string(), num(2.0));
    assert!(matches!(inner.get("a"), Some(v) if is_number(&v, 2.0)));
    assert!(inner.assign("a", num(3.0)).is_ok());
    assert!(inner.assign("missing", num(3.0)).is_err());
    let outer = inner.into_enclosing().unwrap();
    assert!(matches!(outer.get("a"), Some(v) if is_number(&v, 1.0)));
    assert!(outer.into_enclosing().is_none());
}

#[test]
fn assign_updates_the_nearest_binding() {
    let mut env = Environment::new();
    env.define("v".to_string(), num(1.0));
    let mut inner = Environment::with_enclosing(env);
    assert!(inner.assign("v", LiteralValue::String("s".to_string())).is_ok());
    let outer = inner.into_enclosing().unwrap();
    assert!(matches!(outer.get("v"), Some(LiteralValue::String(s)) if s == "s"));
    let err = Environment::new().assign("q", LiteralValue::Nil).unwrap_err();
    assert_eq!(err.message, "Undefined variable 'q'");
    assert_eq!(err.line, 0);
}

#[test]
fn run_program_stops_at_first_error() {
    let mut parser = Parser::new(lex("var x = 1; { var x = 2; } print x; x = -nil; print 5;").tokens);
    let statements = parser.parse_statements().unwrap();
    let mut interpreter = Interpreter::new();
    let mut out = Vec::new();
    let e = interpreter.run_program(statements, &doubles, &mut out).unwrap_err();
    assert_eq!(e.to_string(), "[line 1] Error: Operand must be a number.");
    let printed: Vec<String> = out.iter().map(|v| v.as_string(&number_text)).collect();
    assert_eq!(printed, vec!["1"]);
}

#[test]
fn run_program_on_empty_program() {
    let mut interpreter = Interpreter::new();
    let mut out = Vec::new();
    assert!(interpreter.run_program(Vec::new(), &doubles, &mut out).is_ok());
    assert!(out.is_empty());
}

#[test]
fn operator_tokens_outside_the_grammar_are_errors() {
    let plus = Token { token_type: TokenType::PLUS, lexeme: "+".to_string(), literal: None, line: 2 };
    let unary = Expr::Unary { operator: plus, right: Box::new(Expr::Literal(Literal::Nil)) };
    let e = Interpreter::new().evaluate(unary, &doubles).unwrap_err();
    assert_eq!(e.to_string(), "[line 2] Error: Unknown operator.");
    let dot = Token { token_type: TokenType::DOT, lexeme: ".".to_string(), literal: None, line: 3 };
    let binary = Expr::Binary {
        left: Box::new(Expr::Literal(Literal::Nil)),
        operator: dot,
        right: Box::new(Expr::Literal(Literal::Nil)),
    };
    assert_eq!(Interpreter::new().evaluate(binary, &doubles).unwrap_err().message, "Unknown operator.");
}

#[test]
fn literal_number_text_goes_to_the_arithmetic() {
    assert!(is_number(&evaluate("0012.50").unwrap(), 12.5));
}

#[test]
fn environment_round_trip_keeps_the_enclosing_scopes() {
    let mut env = Environment::new();
    env.define("a".to_string(), num(1.0));
    let mut inner = Environment::with_enclosing(env);
    inner.define("a".to_string(), num(2.0));
    inner.define("b".to_string(), num(3.0));
    let back = inner.into_enclosing().unwrap();
    assert!(matches!(back.get("a"), Some(v) if is_number(&v, 1.0)));
    assert!(back.get("b").is_none());
    assert!(Environment::new().into_enclosing().is_none());
}
