use rlox::lexer::{Lexer, Token, TokenKind};
use rlox::parser::Parser;
use rlox::resolver::Resolver;

fn run_lexer(source_code: &str) -> Vec<Token> {
    let mut lexer = Lexer::new(source_code);
    lexer.tokenize().unwrap()
}

#[test]
fn captures_single_char_tokens() {
    let source_code = "=";
    let tokens = run_lexer(source_code);
    assert_eq!(tokens[0].kind(), &TokenKind::Equal)
}

#[test]
fn captures_two_char_tokens() {
    let source_code = "==";
    let tokens = run_lexer(source_code);
    assert_eq!(tokens[0].kind(), &TokenKind::EqualEqual)
}

#[test]
fn capture_keywors() {
    let source_code = "for";
    let tokens = run_lexer(source_code);
    assert_eq!(tokens[0].kind(), &TokenKind::For)
}

#[test]
fn capture_identifiers() {
    let source_code = "my_identifier";
    let tokens = run_lexer(source_code);
    assert_eq!(
        tokens[0].kind(),
        &TokenKind::Identifier(String::from("my_identifier"))
    )
}

#[test]
fn capture_strings() {
    let source_code = "\"Hello, World!\"";
    let tokens = run_lexer(source_code);
    assert_eq!(
        tokens[0].kind(),
        &TokenKind::String(String::from("Hello, World!"))
    )
}

#[test]
fn capture_numbers() {
    let source_code = "3.14";
    let tokens = run_lexer(source_code);
    assert_eq!(tokens[0].kind(), &TokenKind::Number(String::from("3.14")));
    match tokens[0].kind() {
        TokenKind::Number(digits) => assert_eq!(digits.parse::<f64>().unwrap(), 3.14),
        other => panic!("expected a number, got {:?}", other),
    }
}

#[test]
#[should_panic]
fn errors_on_unclosed_str() {
    let source_code = "\"Hello, World!";
    run_lexer(source_code);
}

#[test]
#[should_panic]
fn errors_on_bad_numbers() {
    let source_code = "3.14.15";
    run_lexer(source_code);
}

#[test]
fn parser_and_resolver_smoke() {
    let tokens = run_lexer("var a = 1 + 2 * (3 - 3) - 1; print a; for (var i = 0; i < 2; i = i + 1) { print i; }");
    let mut parser = Parser::new(tokens);
    let stmts = parser.parse();
    assert_eq!(parser.errors().len(), 0);
    assert_eq!(stmts.len(), 3);
    println!("{:?}", stmts);
    let mut resolver = Resolver::new();
    resolver.resolve(&stmts);
    println!("{:?}", resolver.errors());
    assert_eq!(resolver.errors().len(), 0);
    assert_eq!(resolver.get_bound_depth(1), 0);
}
