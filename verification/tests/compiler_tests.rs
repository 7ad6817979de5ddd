use rlox::compiler::Compiler;
use rlox::scanner::{Scanner, TokenType};

#[test]
fn compile_scans_whole_source_ending_with_eof() {
    let mut compiler = Compiler::new(Scanner::new());
    let tokens = compiler.compile("var answer = 1 + 2;".to_string());
    let tags: Vec<TokenType> = tokens.iter().map(|t| t.token_type).collect();
    assert_eq!(
        tags,
        vec![
            TokenType::Var,
            TokenType::Identifier,
            TokenType::Equal,
            TokenType::Number,
            TokenType::Plus,
            TokenType::Number,
            TokenType::Semicolon,
            TokenType::Eof,
        ]
    );
}

#[test]
fn compile_empty_source_yields_single_eof() {
    let mut compiler = Compiler::new(Scanner::new());
    let tokens = compiler.compile(String::new());
    assert_eq!(tokens.len(), 1);
    assert_eq!(tokens[0].token_type, TokenType::Eof);
}

#[test]
fn compile_keeps_error_tokens_in_the_stream() {
    let mut compiler = Compiler::new(Scanner::new());
    let tokens = compiler.compile("1 @ 2".to_string());
    let tags: Vec<TokenType> = tokens.iter().map(|t| t.token_type).collect();
    assert_eq!(
        tags,
        vec![TokenType::Number, TokenType::Error, TokenType::Number, TokenType::Eof]
    );
}

#[test]
fn compile_reports_line_numbers() {
    let mut compiler = Compiler::new(Scanner::new());
    let tokens = compiler.compile("1\n2\n3".to_string());
    assert_eq!(tokens[0].line, 1);
    assert_eq!(tokens[1].line, 2);
    assert_eq!(tokens[2].line, 3);
}
