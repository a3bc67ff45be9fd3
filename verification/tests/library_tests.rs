use udyr::application::Application;
use udyr::error::{error, report, Diagnostic};
use udyr::node::{Node, NodeType};
use udyr::parser::Parser;
use udyr::scanner::Scanner;
use udyr::token::{Token, TokenType};

#[test]
fn test_application_init() -> Result<(), String> {
    let app = Application::new();
    assert_eq!(app.running, true);
    Ok(())
}

#[test]
fn test_application_run_and_destroy() {
    let mut app = Application::new();
    app.run();
    assert_eq!(app.running, false);
    app.destroy();
    assert_eq!(app.running, false);
}

#[test]
fn test_error_format() {
    assert_eq!(error(65, "Unexpected character"), "[line 65] Error: Unexpected character");
    assert_eq!(error(1, "Unterminated string"), "[line 1] Error: Unterminated string");
    assert_eq!(error(0, "x"), "[line 0] Error: x");
    assert_eq!(error(1007, "y"), "[line 1007] Error: y");
}

#[test]
fn test_report_format() {
    assert_eq!(report(12, " at end", "Expect expression."), "[line 12] Error at end: Expect expression.");
    assert_eq!(report(3, "", "m"), "[line 3] Error: m");
}

#[test]
fn test_diagnostic_render() {
    let d = Diagnostic::new(7, "Expect expression.");
    assert_eq!(d.line, 7);
    assert_eq!(d.message, "Expect expression.");
    assert_eq!(d.render(), "[line 7] Error: Expect expression.");
}

#[test]
fn test_token_new_and_empty() {
    let t = Token::new(TokenType::NUMBER, &String::from("12"), &String::from("12"), 4);
    assert_eq!(t.token_type, TokenType::NUMBER);
    assert_eq!(t.lexeme, "12");
    assert_eq!(t.literal, "12");
    assert_eq!(t.line, 4);

    let e = Token::empty();
    assert_eq!(e.token_type, TokenType::Empty);
    assert_eq!(e.lexeme, "");
    assert_eq!(e.literal, "");
    assert_eq!(e.line, 0);
}

#[test]
fn test_node_new() {
    let leaf = Node::new(NodeType::Literal, Vec::new());
    assert_eq!(leaf.node_type, NodeType::Literal);
    assert_eq!(leaf.children.len(), 0);
    assert_eq!(leaf.token.token_type, TokenType::Empty);

    let parent = Node::new(NodeType::Grouping, vec![leaf]);
    assert_eq!(parent.children.len(), 1);
    assert_eq!(parent.children[0].node_type, NodeType::Literal);
}

#[test]
fn test_node_print() {
    let mut scanner = Scanner::new(&String::from("1+2"));
    let tokens = scanner.scan_tokens().unwrap();
    let mut parser = Parser::new(&tokens);
    let root = parser.parse().unwrap();
    let rendered = root.print();
    assert_eq!(rendered, "Binary +\n  Literal 1\n  Literal 2\n");
}

#[test]
fn test_node_print_nested() {
    let mut scanner = Scanner::new(&String::from("-(1)"));
    let tokens = scanner.scan_tokens().unwrap();
    let mut parser = Parser::new(&tokens);
    let root = parser.parse().unwrap();
    let rendered = root.print();
    assert_eq!(rendered, "Unary -\n  Grouping (\n    Literal 1\n");
}
