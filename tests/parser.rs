use codecrafters_interpreter::ast::{Expr, Statement};
use codecrafters_interpreter::lexer::lex;
use codecrafters_interpreter::parser::{ParseError, Parser};
use codecrafters_interpreter::token::{Token, TokenType};

fn tree(source: &str) -> Result<String, ParseError> {
    let mut parser = Parser::new(lex(source).tokens);
    parser.parse().map(|e| e.to_string())
}

fn program(source: &str) -> Result<Vec<Statement>, ParseError> {
    let mut parser = Parser::new(lex(source).tokens);
    parser.parse_statements()
}

fn tree_error(source: &str) -> String {
    match tree(source) {
        Ok(t) => panic!("parsed as {t}"),
        Err(e) => e.to_string(),
    }
}

#[test]
fn product_binds_tighter_than_sum() {
    assert_eq!(tree("1 + 2 * 3").unwrap(), "(+ 1.0 (* 2.0 3.0))");
}

#[test]
fn binary_operators_group_to_the_left() {
    assert_eq!(tree("1 - 2 - 3").unwrap(), "(- (- 1.0 2.0) 3.0)");
    assert_eq!(tree("8 / 4 * 2").unwrap(), "(* (/ 8.0 4.0) 2.0)");
}

#[test]
fn precedence_ladder() {
    assert_eq!(
        tree("a = b or c and d == e < f + g * -h").unwrap(),
        "(= a (or b (and c (== d (< e (+ f (* g (- h))))))))"
    );
}

#[test]
fn assignment_groups_to_the_right() {
    assert_eq!(tree("a = b = 1").unwrap(), "(= a (= b 1.0))");
}

#[test]
fn literals_and_groupings_render() {
    assert_eq!(tree("(\"hi\")").unwrap(), "(group hi)");
    assert_eq!(tree("!true == !!false").unwrap(), "(== (! true) (! (! false)))");
    assert_eq!(tree("nil != 2.50").unwrap(), "(!= nil 2.5)");
    assert_eq!(tree("((x))").unwrap(), "(group (group x))");
}

#[test]
fn missing_close_paren_is_an_error() {
    assert_eq!(tree_error("(1 + 2"), "[line 1] Error at end: Expect ')' after expression");
    assert_eq!(tree_error("(1 2)"), "[line 1] Error at '2': Expect ')' after expression");
}

#[test]
fn missing_operand_is_an_error() {
    assert_eq!(tree_error("1 +"), "[line 1] Error at end: Expected expression");
    assert_eq!(tree_error(")"), "[line 1] Error at ')': Expected expression");
}

#[test]
fn invalid_assignment_target() {
    let e = tree("1 = 2").unwrap_err();
    assert_eq!(e.message, "Invalid assignment target.");
    assert_eq!(e.location, "at end");
    let e2 = tree("(a) = 2;").unwrap_err();
    assert_eq!(e2.to_string(), "[line 1] Error at ';': Invalid assignment target.");
}

#[test]
fn error_carries_the_line_of_the_token() {
    let e = tree("1 +\n\n)").unwrap_err();
    assert_eq!(e.line, 3);
    assert_eq!(e.location, "at ')'");
}

#[test]
fn dangling_else_binds_to_nearest_if() {
    let stmts = program("if (a) if (b) print 1; else print 2;").unwrap();
    assert_eq!(stmts.len(), 1);
    match &stmts[0] {
        Statement::If { condition, then_branch, else_branch } => {
            assert_eq!(condition.to_string(), "a");
            assert!(else_branch.is_none());
            match then_branch.as_ref() {
                Statement::If { condition, then_branch, else_branch } => {
                    assert_eq!(condition.to_string(), "b");
                    assert!(matches!(then_branch.as_ref(), Statement::Print(e) if e.to_string() == "1.0"));
                    match else_branch {
                        Some(b) => assert!(matches!(b.as_ref(), Statement::Print(e) if e.to_string() == "2.0")),
                        None => panic!("inner if lost its else"),
                    }
                }
                _ => panic!("then branch is not an if"),
            }
        }
        _ => panic!("not an if statement"),
    }
}

#[test]
fn statements_of_each_form() {
    let stmts = program("var a; var b = 1; print a; { a = 2; } b;").unwrap();
    assert_eq!(stmts.len(), 5);
    assert!(matches!(&stmts[0], Statement::Var { name, initializer: None } if name.lexeme == "a"));
    assert!(matches!(&stmts[1], Statement::Var { initializer: Some(Expr::Literal(_)), .. }));
    assert!(matches!(&stmts[2], Statement::Print(Expr::Variable(_))));
    match &stmts[3] {
        Statement::Block(inner) => {
            assert_eq!(inner.len(), 1);
            assert!(matches!(&inner[0], Statement::Expression(e) if e.to_string() == "(= a 2.0)"));
        }
        _ => panic!("not a block"),
    }
    assert!(matches!(&stmts[4], Statement::Expression(Expr::Variable(_))));
}

#[test]
fn statement_errors() {
    let msg = |s: &str| program(s).err().map(|e| e.to_string());
    assert_eq!(msg("print 1"), Some("[line 1] Error at end: Expect ';' after value.".to_string()));
    assert_eq!(msg("var 1;"), Some("[line 1] Error at '1': Expect variable name.".to_string()));
    assert_eq!(
        msg("var a = 1 2;"),
        Some("[line 1] Error at '2': Expect ';' after variable declaration.".to_string())
    );
    assert_eq!(msg("{ print 1;"), Some("[line 1] Error at end: Expect '}' after block.".to_string()));
    assert_eq!(msg("if 1) print 2;"), Some("[line 1] Error at '1': Expect '(' after 'if'.".to_string()));
    assert_eq!(
        msg("if (1 print 2;"),
        Some("[line 1] Error at 'print': Expect ')' after if condition.".to_string())
    );
    assert_eq!(msg("a"), Some("[line 1] Error at end: Expect ';' after expression.".to_string()));
}

#[test]
fn empty_program_has_no_statements() {
    assert_eq!(program("").unwrap().len(), 0);
    assert_eq!(program("// only a comment").unwrap().len(), 0);
}

#[test]
fn parse_stops_after_one_expression() {
    let mut parser = Parser::new(lex("1 2").tokens);
    assert_eq!(parser.parse().unwrap().to_string(), "1.0");
}

#[test]
fn each_grouping_consumes_one_pair_of_parentheses() {
    let source = "((1) + (2 * (3)))";
    let tokens = lex(source).tokens;
    let opens = tokens.iter().filter(|t| t.lexeme == "(").count();
    let closes = tokens.iter().filter(|t| t.lexeme == ")").count();
    let mut parser = Parser::new(tokens);
    let text = parser.parse().unwrap().to_string();
    assert_eq!(text, "(group (+ (group 1.0) (group (* 2.0 (group 3.0)))))");
    assert_eq!(text.matches("(group").count(), 4);
    assert_eq!(opens, 4);
    assert_eq!(closes, 4);
}

#[test]
fn unbalanced_parentheses_give_a_parse_error() {
    assert!(tree("((1)").is_err());
    assert_eq!(tree("(1))").unwrap(), "(group 1.0)");
}

#[test]
fn literal_tokens_without_a_value_are_errors() {
    let tok = |token_type, lexeme: &str, literal: Option<&str>| Token {
        token_type,
        lexeme: lexeme.to_string(),
        literal: literal.map(|s| s.to_string()),
        line: 4,
    };
    let eof = tok(TokenType::EOF, "", None);
    let mut p = Parser::new(vec![tok(TokenType::NUMBER, "1", None), eof.clone()]);
    assert_eq!(p.parse().unwrap_err().to_string(), "[line 4] Error at '1': Expected number literal");
    let mut q = Parser::new(vec![tok(TokenType::STRING, "\"s\"", None), eof.clone()]);
    assert_eq!(q.parse().unwrap_err().message, "Expected string literal");
    let mut r = Parser::new(vec![tok(TokenType::STRING, "\"s\"", Some("s")), eof]);
    assert_eq!(r.parse().unwrap().to_string(), "s");
}
