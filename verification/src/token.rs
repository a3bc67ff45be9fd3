//! The token vocabulary shared by the scanner and the parser.

use vstd::prelude::*;

verus! {

/// The closed set of lexical categories a token can fall into.
#[derive(Debug, Clone, Copy, PartialEq, Eq, Structural)]
pub enum TokenType {
    // Single-character tokens.
    LeftParen,
    RightParen,
    LeftBrace,
    RightBrace,
    Comma,
    Dot,
    Minus,
    Plus,
    SEMICOLON,
    SLASH,
    STAR,
    // One or two character tokens.
    BANG,
    BangEqual,
    EQUAL,
    EqualEqual,
    GREATER,
    GreaterEqual,
    LESS,
    LessEqual,
    // Literals.
    IDENTIFIER,
    STRING,
    NUMBER,
    // Keywords.
    AND,
    CLASS,
    ELSE,
    FALSE,
    FUN,
    FOR,
    IF,
    NIL,
    OR,
    PRINT,
    RETURN,
    SUPER,
    THIS,
    TRUE,
    VAR,
    WHILE,
    // End of input, and the kind of the placeholder token.
    EOF,
    Empty,
}

/// Mathematical model of a token: the classification, the exact source
/// substring it was scanned from, the decoded literal text, and the
/// 1-based source line it was found on.
pub ghost struct TokenV {
    pub kind: TokenType,
    pub lexeme: Seq<char>,
    pub literal: Seq<char>,
    pub line: nat,
}

/// The models of a token sequence, in order.
pub open spec fn toks_view(v: Seq<Token>) -> Seq<TokenV> {
    v.map_values(|t: Token| t@)
}

pub proof fn lemma_toks_view_push(v: Seq<Token>, t: Token)
    ensures
        toks_view(v.push(t)) == toks_view(v) + seq![t@],
{
    assert(toks_view(v.push(t)) =~= toks_view(v) + seq![t@]);
}

/// A classified lexeme. Immutable once created.
#[derive(Debug)]
pub struct Token {
    pub token_type: TokenType,
    pub lexeme: String,
    pub literal: String,
    pub line: usize,
}

impl View for Token {
    type V = TokenV;

    open spec fn view(&self) -> TokenV {
        TokenV {
            kind: self.token_type,
            lexeme: self.lexeme@,
            literal: self.literal@,
            line: self.line as nat,
        }
    }
}

impl Clone for Token {
    fn clone(&self) -> (t: Token)
        ensures
            t == *self,
    {
        Token {
            token_type: self.token_type,
            lexeme: self.lexeme.clone(),
            literal: self.literal.clone(),
            line: self.line,
        }
    }
}

impl Token {
    pub fn new(token_type: TokenType, lexeme: &String, literal: &String, line: usize) -> (t: Token)
        ensures
            t@ == (TokenV { kind: token_type, lexeme: lexeme@, literal: literal@, line: line as nat }),
    {
        Token { token_type, lexeme: lexeme.clone(), literal: literal.clone(), line }
    }

    /// The placeholder token: what the parser sees past the end of input.
    pub fn empty() -> (t: Token)
        ensures
            t@ == (TokenV {
                kind: TokenType::Empty,
                lexeme: Seq::<char>::empty(),
                literal: Seq::<char>::empty(),
                line: 0,
            }),
    {
        Token {
            token_type: TokenType::Empty,
            lexeme: String::new(),
            literal: String::new(),
            line: 0,
        }
    }
}

} // verus!
