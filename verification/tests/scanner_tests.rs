use udyr::scanner::Scanner;
use udyr::token::TokenType;

#[test]
fn test_scanner_create() -> Result<(), String> {
    let scanner = Scanner::new(&String::from("Hei"));
    assert_eq!(scanner.source, "Hei");
    assert_eq!(scanner.start, 0);
    assert_eq!(scanner.current, 0);
    assert_eq!(scanner.line, 1);
    assert_eq!(scanner.tokens.is_empty(), true);
    assert_eq!(scanner.errors.is_empty(), true);
    Ok(())
}

#[test]
fn test_scan_tokens() -> Result<(), String> {
    let mut scanner = Scanner::new(&String::from("*+}(.,-;"));
    let tokens = scanner.scan_tokens().unwrap();

    assert_eq!(tokens.len(), 8);
    assert_eq!((&tokens[0]).token_type, TokenType::STAR);
    assert_eq!((&tokens[1]).token_type, TokenType::Plus);
    assert_eq!((&tokens[2]).token_type, TokenType::RightBrace);
    assert_eq!((&tokens[3]).token_type, TokenType::LeftParen);
    assert_eq!((&tokens[4]).token_type, TokenType::Dot);
    assert_eq!((&tokens[5]).token_type, TokenType::Comma);
    assert_eq!((&tokens[6]).token_type, TokenType::Minus);
    assert_eq!((&tokens[7]).token_type, TokenType::SEMICOLON);

    Ok(())
}

#[test]
fn test_double_operator() -> Result<(), String> {
    let mut scanner = Scanner::new(&String::from("<+<=+!+=="));
    let tokens = scanner.scan_tokens().unwrap();

    assert_eq!(tokens.len(), 7);
    assert_eq!((&tokens[0]).token_type, TokenType::LESS);
    assert_eq!((&tokens[1]).token_type, TokenType::Plus);
    assert_eq!((&tokens[2]).token_type, TokenType::LessEqual);
    assert_eq!((&tokens[3]).token_type, TokenType::Plus);
    assert_eq!((&tokens[4]).token_type, TokenType::BANG);
    assert_eq!((&tokens[5]).token_type, TokenType::Plus);
    assert_eq!((&tokens[6]).token_type, TokenType::EqualEqual);

    Ok(())
}

#[test]
fn test_comments() -> Result<(), String> {
    let mut scanner = Scanner::new(&String::from("+//hello\n+"));
    let tokens = scanner.scan_tokens().unwrap();

    assert_eq!(tokens.len(), 2);

    Ok(())
}

#[test]
fn test_empty_comments() -> Result<(), String> {
    let mut scanner = Scanner::new(&String::from("//hello\n"));
    let tokens = scanner.scan_tokens().unwrap();

    assert_eq!(tokens.len(), 0);

    Ok(())
}

#[test]
fn test_lines() -> Result<(), String> {
    let mut scanner = Scanner::new(&String::from("+\n-\n//hello\n/"));
    let tokens = scanner.scan_tokens().unwrap();

    assert_eq!(tokens.len(), 3);
    assert_eq!((&tokens[0]).line, 1);
    assert_eq!((&tokens[1]).line, 2);
    assert_eq!((&tokens[2]).line, 4);

    Ok(())
}

#[test]
fn test_strings() -> Result<(), String> {
    let mut scanner = Scanner::new(&String::from("+\"Hello\"-\"Hello2\""));
    let tokens = scanner.scan_tokens().unwrap();

    assert_eq!(tokens.len(), 4);
    assert_eq!((&tokens[1]).token_type, TokenType::STRING);
    assert_eq!((&tokens[1]).literal, "Hello");
    assert_eq!((&tokens[3]).literal, "Hello2");

    Ok(())
}

#[test]
fn test_numbers() -> Result<(), String> {
    let mut scanner = Scanner::new(&String::from("123+123.123"));
    let tokens = scanner.scan_tokens().unwrap();

    assert_eq!(tokens.len(), 3);
    assert_eq!((&tokens[0]).literal, "123");
    assert_eq!((&tokens[1]).token_type, TokenType::Plus);
    assert_eq!((&tokens[2]).literal, "123.123");

    Ok(())
}

#[test]
fn test_identifier() -> Result<(), String> {
    let mut scanner = Scanner::new(&String::from("var + myClass - class + superFres // var \n"));
    let tokens = scanner.scan_tokens().unwrap();

    assert_eq!(tokens.len(), 7);
    assert_eq!((&tokens[0]).token_type, TokenType::VAR);
    assert_eq!((&tokens[1]).token_type, TokenType::Plus);
    assert_eq!((&tokens[2]).token_type, TokenType::IDENTIFIER);
    assert_eq!((&tokens[2]).lexeme, "myClass");
    assert_eq!((&tokens[3]).token_type, TokenType::Minus);
    assert_eq!((&tokens[4]).token_type, TokenType::CLASS);
    assert_eq!((&tokens[5]).token_type, TokenType::Plus);
    assert_eq!((&tokens[6]).token_type, TokenType::IDENTIFIER);
    assert_eq!((&tokens[6]).lexeme, "superFres");

    Ok(())
}

// Scanning "<=" gives one LessEqual token by maximal munch, never LESS
// then EQUAL.
#[test]
fn test_maximal_munch() {
    let mut scanner = Scanner::new(&String::from("<="));
    let tokens = scanner.scan_tokens().unwrap();
    assert_eq!(tokens.len(), 1);
    assert_eq!(tokens[0].token_type, TokenType::LessEqual);
    assert_eq!(tokens[0].lexeme, "<=");
}

// "1." is a number then a dot; "1.5" is one number.
#[test]
fn test_numeric_boundary() {
    let mut scanner = Scanner::new(&String::from("1."));
    let tokens = scanner.scan_tokens().unwrap();
    assert_eq!(tokens.len(), 2);
    assert_eq!(tokens[0].token_type, TokenType::NUMBER);
    assert_eq!(tokens[0].lexeme, "1");
    assert_eq!(tokens[1].token_type, TokenType::Dot);

    let mut scanner = Scanner::new(&String::from("1.5"));
    let tokens = scanner.scan_tokens().unwrap();
    assert_eq!(tokens.len(), 1);
    assert_eq!(tokens[0].token_type, TokenType::NUMBER);
    assert_eq!(tokens[0].lexeme, "1.5");
    assert_eq!(tokens[0].literal, "1.5");
}

// An unterminated string gives exactly one diagnostic, at the line the
// string opened on, and no token for it.
#[test]
fn test_unterminated_string() {
    let mut scanner = Scanner::new(&String::from("\"abc"));
    let tokens = scanner.scan_tokens().unwrap();
    assert_eq!(tokens.len(), 0);
    assert_eq!(scanner.errors.len(), 1);
    assert_eq!(scanner.errors[0].line, 1);
    assert_eq!(scanner.errors[0].message, "Unterminated string");
}

// A string may span lines; its literal keeps the newline and its line is
// where it closes.
#[test]
fn test_multiline_string() {
    let mut scanner = Scanner::new(&String::from("\"a\nb\"+"));
    let tokens = scanner.scan_tokens().unwrap();
    assert_eq!(tokens.len(), 2);
    assert_eq!(tokens[0].token_type, TokenType::STRING);
    assert_eq!(tokens[0].literal, "a\nb");
    assert_eq!(tokens[0].line, 2);
    assert_eq!(tokens[1].line, 2);
}

// Scanning completes on any input: each stray character costs one
// "Unexpected character" diagnostic and nothing else.
#[test]
fn test_unexpected_characters() {
    let mut scanner = Scanner::new(&String::from("@#^"));
    let tokens = scanner.scan_tokens().unwrap();
    assert_eq!(tokens.len(), 0);
    assert_eq!(scanner.errors.len(), 3);
    for e in &scanner.errors {
        assert_eq!(e.message, "Unexpected character");
        assert_eq!(e.line, 1);
    }
}

#[test]
fn test_empty_source() {
    let mut scanner = Scanner::new(&String::from(""));
    let tokens = scanner.scan_tokens().unwrap();
    assert_eq!(tokens.len(), 0);
    assert_eq!(scanner.errors.len(), 0);
}

// Every keyword is reclassified; near-keywords stay identifiers.
#[test]
fn test_keywords() {
    let source = "and class else false for fun if nil or print return super this true var while";
    let mut scanner = Scanner::new(&String::from(source));
    let tokens = scanner.scan_tokens().unwrap();
    let expected = [
        TokenType::AND,
        TokenType::CLASS,
        TokenType::ELSE,
        TokenType::FALSE,
        TokenType::FOR,
        TokenType::FUN,
        TokenType::IF,
        TokenType::NIL,
        TokenType::OR,
        TokenType::PRINT,
        TokenType::RETURN,
        TokenType::SUPER,
        TokenType::THIS,
        TokenType::TRUE,
        TokenType::VAR,
        TokenType::WHILE,
    ];
    assert_eq!(tokens.len(), expected.len());
    for (tok, want) in tokens.iter().zip(expected.iter()) {
        assert_eq!(&tok.token_type, want);
    }

    let mut scanner = Scanner::new(&String::from("vars android"));
    let tokens = scanner.scan_tokens().unwrap();
    assert_eq!(tokens.len(), 2);
    assert_eq!(tokens[0].token_type, TokenType::IDENTIFIER);
    assert_eq!(tokens[1].token_type, TokenType::IDENTIFIER);
}

// Re-scanning the lexeme-concatenation of a scan's tokens reproduces the
// same kinds, lexemes and literals.
#[test]
fn test_rescan_lexemes() {
    let mut scanner = Scanner::new(&String::from("( 1 + 2.5 ) * \"s\" ; // tail\n! ok"));
    let tokens = scanner.scan_tokens().unwrap();
    assert_eq!(scanner.errors.len(), 0);

    let mut joined = String::new();
    for tok in &tokens {
        joined.push_str(&tok.lexeme);
    }
    let mut again = Scanner::new(&joined);
    let tokens2 = again.scan_tokens().unwrap();
    assert_eq!(again.errors.len(), 0);
    assert_eq!(tokens2.len(), tokens.len());
    for (a, b) in tokens.iter().zip(tokens2.iter()) {
        assert_eq!(a.token_type, b.token_type);
        assert_eq!(a.lexeme, b.lexeme);
        assert_eq!(a.literal, b.literal);
    }
}
