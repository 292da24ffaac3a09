use codecrafters_interpreter::lexer::{lex, Lexer};
use codecrafters_interpreter::token::TokenType;

fn listing(source: &str) -> Vec<String> {
    lex(source).tokens.iter().map(|t| t.to_string()).collect()
}

fn kinds(source: &str) -> Vec<TokenType> {
    lex(source).tokens.iter().map(|t| t.token_type).collect()
}

#[test]
fn empty_source_gives_only_eof() {
    let r = lex("");
    assert_eq!(r.tokens.len(), 1);
    assert_eq!(r.tokens[0].token_type, TokenType::EOF);
    assert_eq!(r.tokens[0].line, 1);
    assert_eq!(r.tokens[0].to_string(), "EOF  null");
    assert!(r.errors.is_empty());
}

#[test]
fn punctuation_and_operators() {
    assert_eq!(
        listing("(){},.;-+*/"),
        vec![
            "LEFT_PAREN ( null",
            "RIGHT_PAREN ) null",
            "LEFT_BRACE { null",
            "RIGHT_BRACE } null",
            "COMMA , null",
            "DOT . null",
            "SEMICOLON ; null",
            "MINUS - null",
            "PLUS + null",
            "STAR * null",
            "SLASH / null",
            "EOF  null",
        ]
    );
}

#[test]
fn two_character_operators_are_greedy() {
    assert_eq!(
        kinds("! != = == > >= < <= ==="),
        vec![
            TokenType::BANG,
            TokenType::BANG_EQUAL,
            TokenType::EQUAL,
            TokenType::EQUAL_EQUAL,
            TokenType::GREATER,
            TokenType::GREATER_EQUAL,
            TokenType::LESS,
            TokenType::LESS_EQUAL,
            TokenType::EQUAL_EQUAL,
            TokenType::EQUAL,
            TokenType::EOF,
        ]
    );
}

#[test]
fn comments_produce_no_token() {
    let r = lex("// a comment\n/ // another\n");
    let ks: Vec<TokenType> = r.tokens.iter().map(|t| t.token_type).collect();
    assert_eq!(ks, vec![TokenType::SLASH, TokenType::EOF]);
    assert_eq!(r.tokens[0].line, 2);
    assert_eq!(r.tokens[1].line, 3);
}

#[test]
fn string_literal_and_its_line() {
    let r = lex("\"hello\nworld\" x");
    assert_eq!(r.tokens[0].token_type, TokenType::STRING);
    assert_eq!(r.tokens[0].lexeme, "\"hello\nworld\"");
    assert_eq!(r.tokens[0].literal.as_deref(), Some("hello\nworld"));
    assert_eq!(r.tokens[0].line, 2);
    assert_eq!(r.tokens[1].line, 2);
    assert!(r.errors.is_empty());
}

#[test]
fn unterminated_string_reports_one_error() {
    let r = lex("\"abc");
    assert_eq!(r.errors.len(), 1);
    assert_eq!(r.errors[0].message, "Unterminated string.");
    assert_eq!(r.errors[0].line, 1);
    assert_eq!(r.errors[0].to_string(), "[line 1] Error: Unterminated string.");
    assert_eq!(r.tokens.len(), 1);
    assert_eq!(r.tokens[0].token_type, TokenType::EOF);
}

#[test]
fn unterminated_string_error_is_on_the_last_line() {
    let r = lex("\"a\nb\nc");
    assert_eq!(r.errors.len(), 1);
    assert_eq!(r.errors[0].line, 3);
    assert_eq!(r.tokens[0].token_type, TokenType::EOF);
    assert_eq!(r.tokens[0].line, 3);
}

#[test]
fn number_literals_in_shortest_form() {
    assert_eq!(
        listing("42 3.14 1.50 007 0.0 10.250"),
        vec![
            "NUMBER 42 42.0",
            "NUMBER 3.14 3.14",
            "NUMBER 1.50 1.5",
            "NUMBER 007 7.0",
            "NUMBER 0.0 0.0",
            "NUMBER 10.250 10.25",
            "EOF  null",
        ]
    );
}

#[test]
fn trailing_dot_is_not_part_of_number() {
    assert_eq!(listing("12."), vec!["NUMBER 12 12.0", "DOT . null", "EOF  null"]);
    assert_eq!(
        listing(".5"),
        vec!["DOT . null", "NUMBER 5 5.0", "EOF  null"]
    );
}

#[test]
fn keywords_and_identifiers() {
    assert_eq!(
        kinds("and class else false for fun if nil or print return super this true var while"),
        vec![
            TokenType::AND,
            TokenType::CLASS,
            TokenType::ELSE,
            TokenType::FALSE,
            TokenType::FOR,
            TokenType::FUN,
            TokenType::IF,
            TokenType::NIL,
            TokenType::OR,
            TokenType::PRINT,
            TokenType::RETURN,
            TokenType::SUPER,
            TokenType::THIS,
            TokenType::TRUE,
            TokenType::VAR,
            TokenType::WHILE,
            TokenType::EOF,
        ]
    );
    assert_eq!(
        listing("And _x var1 orchid"),
        vec![
            "IDENTIFIER And null",
            "IDENTIFIER _x null",
            "IDENTIFIER var1 null",
            "IDENTIFIER orchid null",
            "EOF  null",
        ]
    );
}

#[test]
fn unexpected_characters_do_not_stop_the_scan() {
    let r = lex(",$(#\n@");
    let messages: Vec<String> = r.errors.iter().map(|e| e.to_string()).collect();
    assert_eq!(
        messages,
        vec![
            "[line 1] Error: Unexpected character: $",
            "[line 1] Error: Unexpected character: #",
            "[line 2] Error: Unexpected character: @",
        ]
    );
    let ks: Vec<TokenType> = r.tokens.iter().map(|t| t.token_type).collect();
    assert_eq!(ks, vec![TokenType::COMMA, TokenType::LEFT_PAREN, TokenType::EOF]);
    assert_eq!(r.tokens[2].line, 2);
}

#[test]
fn lexer_reports_had_error() {
    let mut lexer = Lexer::new("$");
    assert!(!lexer.had_error());
    let r = lexer.scan_tokens();
    assert_eq!(r.errors.len(), 1);
    assert!(lexer.had_error());
    let mut clean = Lexer::new("1 + 2");
    let r2 = clean.scan_tokens();
    assert!(r2.errors.is_empty());
    assert!(!clean.had_error());
}

#[test]
fn relexing_joined_lexemes_keeps_kinds() {
    let source = "var x = (12.5 + y) >= \"s t\" and !z; // done\nprint x;";
    let first = lex(source);
    assert!(first.errors.is_empty());
    let joined: Vec<String> = first.tokens[..first.tokens.len() - 1]
        .iter()
        .map(|t| t.lexeme.clone())
        .collect();
    let again = lex(&joined.join(" "));
    assert!(again.errors.is_empty());
    let k1: Vec<TokenType> = first.tokens.iter().map(|t| t.token_type).collect();
    let k2: Vec<TokenType> = again.tokens.iter().map(|t| t.token_type).collect();
    assert_eq!(k1, k2);
    let l1: Vec<String> = first.tokens.iter().map(|t| t.lexeme.clone()).collect();
    let l2: Vec<String> = again.tokens.iter().map(|t| t.lexeme.clone()).collect();
    assert_eq!(l1, l2);
}

#[test]
fn token_lines_follow_newlines() {
    let r = lex("a\n\nb\r\t c");
    let lines: Vec<usize> = r.tokens.iter().map(|t| t.line).collect();
    assert_eq!(lines, vec![1, 3, 3, 3]);
}

#[test]
fn non_ascii_letters_form_identifiers() {
    assert_eq!(
        listing("café ñu"),
        vec!["IDENTIFIER café null", "IDENTIFIER ñu null", "EOF  null"]
    );
}

#[test]
fn non_ascii_digit_continues_but_does_not_start_a_word() {
    assert_eq!(listing("x٣"), vec!["IDENTIFIER x٣ null", "EOF  null"]);
    let r = lex("٣");
    assert_eq!(r.errors.len(), 1);
    assert_eq!(r.errors[0].message, "Unexpected character: ٣");
}

#[test]
fn non_ascii_symbol_is_unexpected() {
    let r = lex("a € b");
    assert_eq!(r.errors.len(), 1);
    assert_eq!(r.errors[0].to_string(), "[line 1] Error: Unexpected character: €");
    assert_eq!(kinds("a € b"), vec![TokenType::IDENTIFIER, TokenType::IDENTIFIER, TokenType::EOF]);
}

#[test]
fn relexing_keeps_kinds_even_around_errors() {
    let source = "a$b 1.5.x //c\n\"s\"";
    let first = lex(source);
    let joined: Vec<String> = first.tokens[..first.tokens.len() - 1]
        .iter()
        .map(|t| t.lexeme.clone())
        .collect();
    let again = lex(&joined.join(" "));
    let k1: Vec<TokenType> = first.tokens.iter().map(|t| t.token_type).collect();
    let k2: Vec<TokenType> = again.tokens.iter().map(|t| t.token_type).collect();
    assert_eq!(k1, k2);
    assert!(again.errors.is_empty());
}
