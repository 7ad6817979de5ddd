use rlox::scanner::{ScanError, Scanner, Token, TokenType};

fn scan_all(source: &str) -> (Scanner, Vec<Token>) {
    let mut scanner = Scanner::new();
    scanner.set_source(source.to_string());
    let mut tokens = Vec::new();
    loop {
        let token = scanner.scan_token();
        let done = token.token_type == TokenType::Eof;
        tokens.push(token);
        if done {
            break;
        }
    }
    (scanner, tokens)
}

fn tags(tokens: &[Token]) -> Vec<TokenType> {
    tokens.iter().map(|t| t.token_type).collect()
}

#[test]
fn mixed_source_token_sequence() {
    let (scanner, tokens) = scan_all("+ - 123 \"ab\" foo and");
    assert_eq!(
        tags(&tokens),
        vec![
            TokenType::Plus,
            TokenType::Minus,
            TokenType::Number,
            TokenType::String,
            TokenType::Identifier,
            TokenType::And,
            TokenType::Eof,
        ]
    );
    // The number spans its three digits.
    assert_eq!(tokens[2].length, 3);
    assert_eq!(scanner.get_token_value(&tokens[2]), "123");
    // The string token spans both quotes.
    assert_eq!(tokens[3].length, 4);
    assert_eq!(scanner.get_token_value(&tokens[3]), "\"ab\"");
    assert_eq!(scanner.get_token_value(&tokens[4]), "foo");
}

#[test]
fn unterminated_string_is_single_error_token() {
    let (_, tokens) = scan_all("\"abc");
    assert_eq!(tags(&tokens), vec![TokenType::Error, TokenType::Eof]);
    assert_eq!(tokens[0].error_message, Some(ScanError::UnterminatedString));
    assert_eq!(tokens[0].error_message.unwrap().message(), "Unterminated string.");
}

#[test]
fn unexpected_character_is_error_token() {
    let (_, tokens) = scan_all("@");
    assert_eq!(tags(&tokens), vec![TokenType::Error, TokenType::Eof]);
    assert_eq!(tokens[0].error_message, Some(ScanError::UnexpectedCharacter));
    assert_eq!(tokens[0].error_message.unwrap().message(), "Unexpected character.");
}

#[test]
fn eof_is_idempotent() {
    let mut scanner = Scanner::new();
    scanner.set_source("x".to_string());
    assert_eq!(scanner.scan_token().token_type, TokenType::Identifier);
    for _ in 0..3 {
        assert_eq!(scanner.scan_token().token_type, TokenType::Eof);
    }
}

#[test]
fn all_keywords_recognized() {
    let (_, tokens) = scan_all(
        "and class else false for fun if nil or print return super this true var while",
    );
    assert_eq!(
        tags(&tokens),
        vec![
            TokenType::And,
            TokenType::Class,
            TokenType::Else,
            TokenType::False,
            TokenType::For,
            TokenType::Fun,
            TokenType::If,
            TokenType::Nil,
            TokenType::Or,
            TokenType::Print,
            TokenType::Return,
            TokenType::Super,
            TokenType::This,
            TokenType::True,
            TokenType::Var,
            TokenType::While,
            TokenType::Eof,
        ]
    );
}

#[test]
fn near_keywords_are_identifiers() {
    let (_, tokens) = scan_all("andy classy fa ret _var and1");
    for token in &tokens[..tokens.len() - 1] {
        assert_eq!(token.token_type, TokenType::Identifier);
    }
}

#[test]
fn one_and_two_character_operators() {
    let (_, tokens) = scan_all("! != = == < <= > >= ( ) { } , . ; / *");
    assert_eq!(
        tags(&tokens),
        vec![
            TokenType::Bang,
            TokenType::BangEqual,
            TokenType::Equal,
            TokenType::EqualEqual,
            TokenType::Less,
            TokenType::LessEqual,
            TokenType::Greater,
            TokenType::GreaterEqual,
            TokenType::LeftParen,
            TokenType::RightParen,
            TokenType::LeftBrace,
            TokenType::RightBrace,
            TokenType::Comma,
            TokenType::Dot,
            TokenType::Semicolon,
            TokenType::Slash,
            TokenType::Star,
            TokenType::Eof,
        ]
    );
}

#[test]
fn number_with_fraction_and_trailing_dot() {
    let (scanner, tokens) = scan_all("3.25 7. .5");
    assert_eq!(
        tags(&tokens),
        vec![
            TokenType::Number,
            TokenType::Number,
            TokenType::Dot,
            TokenType::Dot,
            TokenType::Number,
            TokenType::Eof,
        ]
    );
    assert_eq!(scanner.get_token_value(&tokens[0]), "3.25");
    assert_eq!(scanner.get_token_value(&tokens[1]), "7");
}

#[test]
fn comments_and_newlines_advance_lines() {
    let (_, tokens) = scan_all("+ // rest of line ignored\n- \n  *");
    assert_eq!(
        tags(&tokens),
        vec![TokenType::Plus, TokenType::Minus, TokenType::Star, TokenType::Eof]
    );
    assert_eq!(tokens[0].line, 1);
    assert_eq!(tokens[1].line, 2);
    assert_eq!(tokens[2].line, 3);
}

#[test]
fn lone_slash_is_a_token() {
    let (_, tokens) = scan_all("/");
    assert_eq!(tags(&tokens), vec![TokenType::Slash, TokenType::Eof]);
}

#[test]
fn string_with_embedded_newline_counts_lines() {
    let (scanner, tokens) = scan_all("\"a\nb\" +");
    assert_eq!(tags(&tokens), vec![TokenType::String, TokenType::Plus, TokenType::Eof]);
    // The string token carries the line it began on; the counter still
    // advanced over the embedded newline for what follows.
    assert_eq!(tokens[0].line, 1);
    assert_eq!(tokens[1].line, 2);
    assert_eq!(scanner.get_token_value(&tokens[0]), "\"a\nb\"");
}
