use udyr::node::{Node, NodeType};
use udyr::parser::Parser;
use udyr::scanner::Scanner;
use udyr::token::TokenType;

fn tokens_of(source: &str) -> Vec<udyr::token::Token> {
    let mut scanner = Scanner::new(&String::from(source));
    let tokens = scanner.scan_tokens().unwrap();
    assert!(scanner.errors.is_empty());
    tokens
}

fn parse_source(source: &str) -> (Option<Node>, Parser) {
    let tokens = tokens_of(source);
    let mut parser = Parser::new(&tokens);
    let root = parser.parse();
    (root, parser)
}

fn assert_literal(node: &Node, kind: TokenType, lexeme: &str) {
    assert_eq!(node.node_type, NodeType::Literal);
    assert_eq!(node.children.len(), 0);
    assert_eq!(node.token.token_type, kind);
    assert_eq!(node.token.lexeme, lexeme);
}

#[test]
fn test_literal_true() -> Result<(), String> {
    let mut scanner = Scanner::new(&String::from("true"));
    let tokens = scanner.scan_tokens().unwrap();
    let mut parser = Parser::new(&tokens);

    let node = parser.parse_literal(10).unwrap();
    assert_eq!(node.node_type, NodeType::Literal);
    assert_eq!(node.children.len(), 0);
    assert_eq!(node.token.token_type, TokenType::TRUE);

    Ok(())
}

#[test]
fn test_literal_nil() -> Result<(), String> {
    let mut scanner = Scanner::new(&String::from("nil"));
    let tokens = scanner.scan_tokens().unwrap();
    let mut parser = Parser::new(&tokens);

    let node = parser.parse_literal(10).unwrap();
    assert_eq!(node.node_type, NodeType::Literal);
    assert_eq!(node.children.len(), 0);
    assert_eq!(node.token.token_type, TokenType::NIL);

    Ok(())
}

#[test]
fn test_literal_num() -> Result<(), String> {
    let mut scanner = Scanner::new(&String::from("123"));
    let tokens = scanner.scan_tokens().unwrap();
    let mut parser = Parser::new(&tokens);

    let node = parser.parse_literal(10).unwrap();
    assert_eq!(node.node_type, NodeType::Literal);
    assert_eq!(node.children.len(), 0);
    assert_eq!(node.token.token_type, TokenType::NUMBER);

    Ok(())
}

#[test]
fn test_literal_string() -> Result<(), String> {
    let mut scanner = Scanner::new(&String::from("\"123\""));
    let tokens = scanner.scan_tokens().unwrap();
    let mut parser = Parser::new(&tokens);

    let node = parser.parse_literal(10).unwrap();
    assert_eq!(node.node_type, NodeType::Literal);
    assert_eq!(node.children.len(), 0);
    assert_eq!(node.token.token_type, TokenType::STRING);

    Ok(())
}

#[test]
fn test_operators() -> Result<(), String> {
    let mut scanner = Scanner::new(&String::from("== != < <= >= > + - * /"));
    let tokens = scanner.scan_tokens().unwrap();
    let mut parser = Parser::new(&tokens);

    let node_equal_equal = parser.parse_operator(10).unwrap();
    assert_eq!(node_equal_equal.node_type, NodeType::Operator);
    assert_eq!(node_equal_equal.children.len(), 0);
    assert_eq!(node_equal_equal.token.token_type, TokenType::EqualEqual);

    let node_bang_equal = parser.parse_operator(10).unwrap();
    assert_eq!(node_bang_equal.node_type, NodeType::Operator);
    assert_eq!(node_bang_equal.children.len(), 0);
    assert_eq!(node_bang_equal.token.token_type, TokenType::BangEqual);

    let node_less = parser.parse_operator(10).unwrap();
    assert_eq!(node_less.node_type, NodeType::Operator);
    assert_eq!(node_less.children.len(), 0);
    assert_eq!(node_less.token.token_type, TokenType::LESS);

    let node_less_equal = parser.parse_operator(10).unwrap();
    assert_eq!(node_less_equal.node_type, NodeType::Operator);
    assert_eq!(node_less_equal.children.len(), 0);
    assert_eq!(node_less_equal.token.token_type, TokenType::LessEqual);

    let node_greater_equal = parser.parse_operator(10).unwrap();
    assert_eq!(node_greater_equal.node_type, NodeType::Operator);
    assert_eq!(node_greater_equal.children.len(), 0);
    assert_eq!(node_greater_equal.token.token_type, TokenType::GreaterEqual);

    let node_greater = parser.parse_operator(10).unwrap();
    assert_eq!(node_greater.node_type, NodeType::Operator);
    assert_eq!(node_greater.children.len(), 0);
    assert_eq!(node_greater.token.token_type, TokenType::GREATER);

    let node_plus = parser.parse_operator(10).unwrap();
    assert_eq!(node_plus.node_type, NodeType::Operator);
    assert_eq!(node_plus.children.len(), 0);
    assert_eq!(node_plus.token.token_type, TokenType::Plus);

    let node_minus = parser.parse_operator(10).unwrap();
    assert_eq!(node_minus.node_type, NodeType::Operator);
    assert_eq!(node_minus.children.len(), 0);
    assert_eq!(node_minus.token.token_type, TokenType::Minus);

    let node_star = parser.parse_operator(10).unwrap();
    assert_eq!(node_star.node_type, NodeType::Operator);
    assert_eq!(node_star.children.len(), 0);
    assert_eq!(node_star.token.token_type, TokenType::STAR);

    let node_slash = parser.parse_operator(10).unwrap();
    assert_eq!(node_slash.node_type, NodeType::Operator);
    assert_eq!(node_slash.children.len(), 0);
    assert_eq!(node_slash.token.token_type, TokenType::SLASH);

    Ok(())
}

#[test]
fn test_unary_minus() -> Result<(), String> {
    let mut scanner = Scanner::new(&String::from("-5"));
    let tokens = scanner.scan_tokens().unwrap();

    let mut parser = Parser::new(&tokens);

    let node_minus = parser.parse_unary(10).unwrap();
    assert_eq!(node_minus.node_type, NodeType::Unary);
    assert_eq!(node_minus.token.token_type, TokenType::Minus);
    assert_eq!(node_minus.children.len(), 1);
    assert_eq!(node_minus.children[0].node_type, NodeType::Literal);
    assert_eq!(node_minus.children[0].token.token_type, TokenType::NUMBER);
    assert_eq!(node_minus.children[0].token.lexeme.as_str(), "5");

    Ok(())
}

#[test]
fn test_unary_bang() -> Result<(), String> {
    let mut scanner = Scanner::new(&String::from("!true"));
    let tokens = scanner.scan_tokens().unwrap();

    let mut parser = Parser::new(&tokens);

    let node_minus = parser.parse_unary(10).unwrap();
    assert_eq!(node_minus.node_type, NodeType::Unary);
    assert_eq!(node_minus.token.token_type, TokenType::BANG);
    assert_eq!(node_minus.children.len(), 1);
    assert_eq!(node_minus.children[0].node_type, NodeType::Literal);
    assert_eq!(node_minus.children[0].token.token_type, TokenType::TRUE);

    Ok(())
}

#[test]
fn test_binary_plus() -> Result<(), String> {
    let mut scanner = Scanner::new(&String::from("5+4"));
    let tokens = scanner.scan_tokens().unwrap();

    let mut parser = Parser::new(&tokens);

    let node_plus = parser.parse_binary(10).unwrap();
    assert_eq!(node_plus.node_type, NodeType::Binary);
    assert_eq!(node_plus.token.token_type, TokenType::Plus);
    assert_eq!(node_plus.children.len(), 2);
    assert_literal(&node_plus.children[0], TokenType::NUMBER, "5");
    assert_literal(&node_plus.children[1], TokenType::NUMBER, "4");

    Ok(())
}

// "1+2*3" parses as 1+(2*3): multiplication binds tighter.
#[test]
fn test_precedence() {
    let (root, parser) = parse_source("1+2*3");
    assert!(parser.diagnostics.is_empty());
    let root = root.unwrap();
    assert_eq!(root.node_type, NodeType::Binary);
    assert_eq!(root.token.token_type, TokenType::Plus);
    assert_eq!(root.children.len(), 2);
    assert_literal(&root.children[0], TokenType::NUMBER, "1");
    let product = &root.children[1];
    assert_eq!(product.node_type, NodeType::Binary);
    assert_eq!(product.token.token_type, TokenType::STAR);
    assert_literal(&product.children[0], TokenType::NUMBER, "2");
    assert_literal(&product.children[1], TokenType::NUMBER, "3");
}

// "1-2-3" parses as (1-2)-3: same-level operators fold to the left.
#[test]
fn test_left_associativity() {
    let (root, parser) = parse_source("1-2-3");
    assert!(parser.diagnostics.is_empty());
    let root = root.unwrap();
    assert_eq!(root.node_type, NodeType::Binary);
    assert_eq!(root.token.token_type, TokenType::Minus);
    assert_eq!(root.children.len(), 2);
    let left = &root.children[0];
    assert_eq!(left.node_type, NodeType::Binary);
    assert_eq!(left.token.token_type, TokenType::Minus);
    assert_literal(&left.children[0], TokenType::NUMBER, "1");
    assert_literal(&left.children[1], TokenType::NUMBER, "2");
    assert_literal(&root.children[1], TokenType::NUMBER, "3");
}

// "(1+2)*3": parentheses override precedence.
#[test]
fn test_grouping_precedence() {
    let (root, parser) = parse_source("(1+2)*3");
    assert!(parser.diagnostics.is_empty());
    let root = root.unwrap();
    assert_eq!(root.node_type, NodeType::Binary);
    assert_eq!(root.token.token_type, TokenType::STAR);
    assert_eq!(root.children.len(), 2);
    let grouping = &root.children[0];
    assert_eq!(grouping.node_type, NodeType::Grouping);
    assert_eq!(grouping.token.token_type, TokenType::LeftParen);
    assert_eq!(grouping.children.len(), 1);
    let sum = &grouping.children[0];
    assert_eq!(sum.node_type, NodeType::Binary);
    assert_eq!(sum.token.token_type, TokenType::Plus);
    assert_literal(&sum.children[0], TokenType::NUMBER, "1");
    assert_literal(&sum.children[1], TokenType::NUMBER, "2");
    assert_literal(&root.children[1], TokenType::NUMBER, "3");
}

// "(1+2": one missing-parenthesis diagnostic, and parsing still
// completes with the grouping around what was parsed.
#[test]
fn test_unclosed_grouping() {
    let (root, parser) = parse_source("(1+2");
    assert_eq!(parser.diagnostics.len(), 1);
    assert_eq!(parser.diagnostics[0].message, "Expect ')' after expression");
    assert_eq!(parser.diagnostics[0].line, 1);
    let root = root.unwrap();
    assert_eq!(root.node_type, NodeType::Grouping);
    assert_eq!(root.children.len(), 1);
    assert_eq!(root.children[0].node_type, NodeType::Binary);
}

// A token that starts no expression: "Expect expression." at its line,
// and no tree.
#[test]
fn test_expect_expression() {
    let (root, parser) = parse_source("+");
    assert!(root.is_none());
    assert_eq!(parser.diagnostics.len(), 1);
    assert_eq!(parser.diagnostics[0].message, "Expect expression.");
    assert_eq!(parser.diagnostics[0].line, 1);
}

// Parsing nothing at all also asks for an expression; past the end of
// input the placeholder token's line 0 is reported.
#[test]
fn test_empty_token_sequence() {
    let (root, parser) = parse_source("");
    assert!(root.is_none());
    assert_eq!(parser.diagnostics.len(), 1);
    assert_eq!(parser.diagnostics[0].message, "Expect expression.");
    assert_eq!(parser.diagnostics[0].line, 0);
}

// Nesting beyond the depth budget fails with exactly one diagnostic
// instead of unbounded recursion.
#[test]
fn test_nesting_guard() {
    let mut source = String::new();
    for _ in 0..64 {
        source.push('(');
    }
    source.push('1');
    let (root, parser) = parse_source(&source);
    assert!(root.is_none());
    assert_eq!(parser.diagnostics.len(), 1);
    assert_eq!(
        parser.diagnostics[0].message,
        "Exceeded maximum expression nesting"
    );
}

// The depth budget is configurable; a small one rejects modest nesting
// that the default accepts.
#[test]
fn test_configurable_depth() {
    let tokens = tokens_of("((1))");
    let mut parser = Parser::new(&tokens);
    parser.max_depth = 8;
    let root = parser.parse();
    assert!(root.is_none());
    assert_eq!(parser.diagnostics.len(), 1);
    assert_eq!(
        parser.diagnostics[0].message,
        "Exceeded maximum expression nesting"
    );

    let mut parser = Parser::new(&tokens);
    let root = parser.parse();
    assert!(root.is_some());
    assert!(parser.diagnostics.is_empty());
}

// Unary operators nest right-associatively.
#[test]
fn test_unary_nesting() {
    let (root, parser) = parse_source("!!false");
    assert!(parser.diagnostics.is_empty());
    let root = root.unwrap();
    assert_eq!(root.node_type, NodeType::Unary);
    assert_eq!(root.token.token_type, TokenType::BANG);
    assert_eq!(root.children.len(), 1);
    let inner = &root.children[0];
    assert_eq!(inner.node_type, NodeType::Unary);
    assert_eq!(inner.token.token_type, TokenType::BANG);
    assert_literal(&inner.children[0], TokenType::FALSE, "false");
}

// Comparison binds tighter than equality.
#[test]
fn test_equality_vs_comparison() {
    let (root, parser) = parse_source("1 < 2 == true");
    assert!(parser.diagnostics.is_empty());
    let root = root.unwrap();
    assert_eq!(root.node_type, NodeType::Binary);
    assert_eq!(root.token.token_type, TokenType::EqualEqual);
    let left = &root.children[0];
    assert_eq!(left.node_type, NodeType::Binary);
    assert_eq!(left.token.token_type, TokenType::LESS);
    assert_literal(&root.children[1], TokenType::TRUE, "true");
}

// The cursor is the parser's only state; it lands after the expression.
#[test]
fn test_cursor_after_parse() {
    let tokens = tokens_of("1+2 ;");
    let mut parser = Parser::new(&tokens);
    let root = parser.parse();
    assert!(root.is_some());
    assert_eq!(parser.current, 3);
    assert_eq!(parser.current_token().token_type, TokenType::SEMICOLON);
}

// Past the end of input the parser peeks the placeholder token.
#[test]
fn test_current_token_at_end() {
    let tokens = tokens_of("1");
    let mut parser = Parser::new(&tokens);
    let root = parser.parse();
    assert!(root.is_some());
    assert_eq!(parser.current_token().token_type, TokenType::Empty);
    assert_eq!(parser.current_token().line, 0);
}

// Recovery discards tokens up to just past a semicolon, or in front of a
// statement keyword.
#[test]
fn test_synchronize() {
    let tokens = tokens_of("1 + ; var x");
    let mut parser = Parser::new(&tokens);
    parser.synchronize();
    assert_eq!(parser.current, 3);
    assert_eq!(parser.current_token().token_type, TokenType::VAR);

    let tokens = tokens_of("1 2 var x");
    let mut parser = Parser::new(&tokens);
    parser.synchronize();
    assert_eq!(parser.current, 2);
    assert_eq!(parser.current_token().token_type, TokenType::VAR);

    let tokens = tokens_of("1 2 3");
    let mut parser = Parser::new(&tokens);
    parser.synchronize();
    assert_eq!(parser.current, 3);
}
