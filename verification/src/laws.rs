//! Laws of the scanner and the parser, stated and proved over their
//! specifications.
//!
//! Of the scanner: scanning is idempotent. Re-scanning the
//! lexeme-concatenation of a well-formed token sequence whose neighbours
//! do not merge (see `separated_from`) reproduces the same sequence of
//! token kinds, lexemes and literals, with no diagnostics — only the line
//! numbers are recomputed, since the whitespace between the original
//! tokens is gone — and every token a scan emits is such a well-formed
//! token.
//!
//! Of the parser: every tree it yields without diagnostics respects the
//! grammar — precedence, left-associativity and grouping stand in its
//! structure — and reproduces, in source order, the kinds of exactly the
//! tokens it consumed.

use vstd::prelude::*;

use crate::node::{NodeType, NodeV};
use crate::parser::{
    binary_op, level_op, lemma_expression_bounds, lemma_operand_bounds, literal_kind,
    parse_expression_spec, parse_grouping_spec, parse_level_rest_spec, parse_level_spec,
    parse_operand_spec, parse_primary_spec, parse_unary_spec,
};
use crate::scanner::{
    digits_end, ident_end, is_alpha_numeric_spec, is_alpha_spec, is_digit_spec, keyword_kind,
    scan_from, scan_spec, scan_step, string_body_end,
};
use crate::token::{TokenType, TokenV};

verus! {

/// What a run of digits starting at `p` looks like: every position before
/// `digits_end` holds a digit, and the end is the end of input or a
/// non-digit.
pub proof fn lemma_digits_end_facts(s: Seq<char>, p: nat)
    requires
        p <= s.len(),
    ensures
        p <= digits_end(s, p) <= s.len(),
        forall|i: int| p <= i < digits_end(s, p) ==> is_digit_spec(#[trigger] s[i]),
        digits_end(s, p) < s.len() ==> !is_digit_spec(s[digits_end(s, p) as int]),
    decreases s.len() - p,
{
    if p < s.len() && is_digit_spec(s[p as int]) {
        lemma_digits_end_facts(s, p + 1);
    }
}

/// `digits_end` is pinned by those two facts.
pub proof fn lemma_digits_end_pin(s: Seq<char>, a: nat, b: nat)
    requires
        a <= b <= s.len(),
        forall|i: int| a <= i < b ==> is_digit_spec(#[trigger] s[i]),
        b == s.len() || !is_digit_spec(s[b as int]),
    ensures
        digits_end(s, a) == b,
    decreases b - a,
{
    if a < b {
        lemma_digits_end_pin(s, a + 1, b);
    }
}

pub proof fn lemma_ident_end_facts(s: Seq<char>, p: nat)
    requires
        p <= s.len(),
    ensures
        p <= ident_end(s, p) <= s.len(),
        forall|i: int| p <= i < ident_end(s, p) ==> is_alpha_numeric_spec(#[trigger] s[i]),
        ident_end(s, p) < s.len() ==> !is_alpha_numeric_spec(s[ident_end(s, p) as int]),
    decreases s.len() - p,
{
    if p < s.len() && is_alpha_numeric_spec(s[p as int]) {
        lemma_ident_end_facts(s, p + 1);
    }
}

pub proof fn lemma_ident_end_pin(s: Seq<char>, a: nat, b: nat)
    requires
        a <= b <= s.len(),
        forall|i: int| a <= i < b ==> is_alpha_numeric_spec(#[trigger] s[i]),
        b == s.len() || !is_alpha_numeric_spec(s[b as int]),
    ensures
        ident_end(s, a) == b,
    decreases b - a,
{
    if a < b {
        lemma_ident_end_pin(s, a + 1, b);
    }
}

pub proof fn lemma_string_body_end_facts(s: Seq<char>, p: nat)
    requires
        p <= s.len(),
    ensures
        p <= string_body_end(s, p) <= s.len(),
        forall|i: int| p <= i < string_body_end(s, p) ==> #[trigger] s[i] != '"',
        string_body_end(s, p) < s.len() ==> s[string_body_end(s, p) as int] == '"',
    decreases s.len() - p,
{
    if p < s.len() && s[p as int] != '"' {
        lemma_string_body_end_facts(s, p + 1);
    }
}

pub proof fn lemma_string_body_end_pin(s: Seq<char>, a: nat, b: nat)
    requires
        a <= b <= s.len(),
        forall|i: int| a <= i < b ==> #[trigger] s[i] != '"',
        b == s.len() || s[b as int] == '"',
    ensures
        string_body_end(s, a) == b,
    decreases b - a,
{
    if a < b {
        lemma_string_body_end_pin(s, a + 1, b);
    }
}

/// Whether `k` is one of the keyword token kinds.
pub open spec fn keyword_token(k: TokenType) -> bool {
    k == TokenType::AND || k == TokenType::CLASS || k == TokenType::ELSE || k == TokenType::FALSE
        || k == TokenType::FUN || k == TokenType::FOR || k == TokenType::IF || k == TokenType::NIL
        || k == TokenType::OR || k == TokenType::PRINT || k == TokenType::RETURN || k
        == TokenType::SUPER || k == TokenType::THIS || k == TokenType::TRUE || k == TokenType::VAR
        || k == TokenType::WHILE
}

/// The exact lexeme of each keyword kind.
pub open spec fn keyword_lexeme(k: TokenType) -> Seq<char> {
    if k == TokenType::AND {
        "and"@
    } else if k == TokenType::CLASS {
        "class"@
    } else if k == TokenType::ELSE {
        "else"@
    } else if k == TokenType::FALSE {
        "false"@
    } else if k == TokenType::FUN {
        "fun"@
    } else if k == TokenType::FOR {
        "for"@
    } else if k == TokenType::IF {
        "if"@
    } else if k == TokenType::NIL {
        "nil"@
    } else if k == TokenType::OR {
        "or"@
    } else if k == TokenType::PRINT {
        "print"@
    } else if k == TokenType::RETURN {
        "return"@
    } else if k == TokenType::SUPER {
        "super"@
    } else if k == TokenType::THIS {
        "this"@
    } else if k == TokenType::TRUE {
        "true"@
    } else if k == TokenType::VAR {
        "var"@
    } else {
        "while"@
    }
}

/// The exact lexeme of each fixed-lexeme non-keyword kind.
pub open spec fn punct_lexeme(k: TokenType) -> Seq<char> {
    if k == TokenType::LeftParen {
        "("@
    } else if k == TokenType::RightParen {
        ")"@
    } else if k == TokenType::LeftBrace {
        "{"@
    } else if k == TokenType::RightBrace {
        "}"@
    } else if k == TokenType::Comma {
        ","@
    } else if k == TokenType::Dot {
        "."@
    } else if k == TokenType::Minus {
        "-"@
    } else if k == TokenType::Plus {
        "+"@
    } else if k == TokenType::SEMICOLON {
        ";"@
    } else if k == TokenType::STAR {
        "*"@
    } else if k == TokenType::SLASH {
        "/"@
    } else if k == TokenType::BANG {
        "!"@
    } else if k == TokenType::BangEqual {
        "!="@
    } else if k == TokenType::EQUAL {
        "="@
    } else if k == TokenType::EqualEqual {
        "=="@
    } else if k == TokenType::GREATER {
        ">"@
    } else if k == TokenType::GreaterEqual {
        ">="@
    } else if k == TokenType::LESS {
        "<"@
    } else {
        "<="@
    }
}

/// Whether `k` has a fixed lexeme that is not a keyword: punctuation and
/// the one- and two-character operators.
pub open spec fn punct_token(k: TokenType) -> bool {
    k == TokenType::LeftParen || k == TokenType::RightParen || k == TokenType::LeftBrace || k
        == TokenType::RightBrace || k == TokenType::Comma || k == TokenType::Dot || k
        == TokenType::Minus || k == TokenType::Plus || k == TokenType::SEMICOLON || k
        == TokenType::STAR || k == TokenType::SLASH || k == TokenType::BANG || k
        == TokenType::BangEqual || k == TokenType::EQUAL || k == TokenType::EqualEqual || k
        == TokenType::GREATER || k == TokenType::GreaterEqual || k == TokenType::LESS || k
        == TokenType::LessEqual
}

/// A number lexeme: digits, optionally followed by one `.` and more
/// digits, with nothing left over.
pub open spec fn wf_number_lexeme(s: Seq<char>) -> bool {
    let d1 = digits_end(s, 0);
    &&& s.len() > 0
    &&& is_digit_spec(s[0])
    &&& (d1 == s.len() || (s[d1 as int] == '.' && d1 + 1 < s.len() && is_digit_spec(
        s[d1 + 1 as int],
    ) && digits_end(s, d1 + 1) == s.len()))
}

/// A string lexeme: a quote, a body free of quotes, a closing quote.
pub open spec fn wf_string_lexeme(s: Seq<char>) -> bool {
    &&& s.len() >= 2
    &&& s[0] == '"'
    &&& s[s.len() - 1] == '"'
    &&& string_body_end(s, 1) == s.len() - 1
}

/// An identifier lexeme: a letter or underscore, then letters, digits and
/// underscores, and not one of the keywords.
pub open spec fn wf_ident_lexeme(s: Seq<char>) -> bool {
    &&& s.len() > 0
    &&& is_alpha_spec(s[0])
    &&& ident_end(s, 0) == s.len()
    &&& keyword_kind(s) == TokenType::IDENTIFIER
}

/// A token the scanner could have produced: its lexeme has the exact
/// shape its kind calls for, and its literal is what the scanner decodes
/// for that kind.
pub open spec fn wf_token(t: TokenV) -> bool {
    if punct_token(t.kind) {
        t.lexeme == punct_lexeme(t.kind) && t.literal == Seq::<char>::empty()
    } else if keyword_token(t.kind) {
        t.lexeme == keyword_lexeme(t.kind) && t.literal == Seq::<char>::empty()
    } else if t.kind == TokenType::NUMBER {
        wf_number_lexeme(t.lexeme) && t.literal == t.lexeme
    } else if t.kind == TokenType::STRING {
        wf_string_lexeme(t.lexeme) && t.literal == t.lexeme.subrange(1, t.lexeme.len() - 1)
    } else if t.kind == TokenType::IDENTIFIER {
        wf_ident_lexeme(t.lexeme) && t.literal == Seq::<char>::empty()
    } else {
        false
    }
}

/// Whether a token of kind `k` whose lexeme ends just before position `q`
/// of `s` keeps its identity when scanning continues at `q`: the next
/// characters must not extend it into a longer token. A `!`, `=`, `<` or
/// `>` must not be followed by `=`; a `/` not by a second `/`; a number
/// not by another digit nor by `.` and a digit; an identifier or keyword
/// not by an identifier character.
pub open spec fn separated_from(k: TokenType, s: Seq<char>, q: nat) -> bool {
    if k == TokenType::BANG || k == TokenType::EQUAL || k == TokenType::LESS || k
        == TokenType::GREATER {
        q >= s.len() || s[q as int] != '='
    } else if k == TokenType::SLASH {
        q >= s.len() || s[q as int] != '/'
    } else if k == TokenType::NUMBER {
        &&& (q >= s.len() || !is_digit_spec(s[q as int]))
        &&& !(q < s.len() && s[q as int] == '.' && q + 1 < s.len() && is_digit_spec(
            s[q + 1 as int],
        ))
    } else if keyword_token(k) || k == TokenType::IDENTIFIER {
        q >= s.len() || !is_alpha_numeric_spec(s[q as int])
    } else {
        true
    }
}

/// Every keyword's lexeme is identifier-shaped, and the keyword table
/// classifies it as exactly its kind.
pub proof fn lemma_keyword_facts(k: TokenType)
    requires
        keyword_token(k),
    ensures
        keyword_lexeme(k).len() > 0,
        is_alpha_spec(keyword_lexeme(k)[0]),
        forall|i: int|
            0 <= i < keyword_lexeme(k).len() ==> is_alpha_numeric_spec(
                #[trigger] keyword_lexeme(k)[i],
            ),
        keyword_kind(keyword_lexeme(k)) == k,
{
    reveal_strlit("and");
    reveal_strlit("class");
    reveal_strlit("else");
    reveal_strlit("false");
    reveal_strlit("for");
    reveal_strlit("fun");
    reveal_strlit("if");
    reveal_strlit("nil");
    reveal_strlit("or");
    reveal_strlit("print");
    reveal_strlit("return");
    reveal_strlit("super");
    reveal_strlit("this");
    reveal_strlit("true");
    reveal_strlit("var");
    reveal_strlit("while");
    if k == TokenType::AND {
        assert(keyword_kind("and"@) == TokenType::AND);
    } else if k == TokenType::CLASS {
        assert("class"@.len() != "and"@.len());
        assert("class"@ != "and"@);
        assert(keyword_kind("class"@) == TokenType::CLASS);
    } else if k == TokenType::ELSE {
        assert("else"@.len() != "and"@.len());
        assert("else"@ != "and"@);
        assert("else"@.len() != "class"@.len());
        assert("else"@ != "class"@);
        assert(keyword_kind("else"@) == TokenType::ELSE);
    } else if k == TokenType::FALSE {
        assert("false"@.len() != "and"@.len());
        assert("false"@ != "and"@);
        assert("false"@[0] != "class"@[0]);
        assert("false"@ != "class"@);
        assert("false"@.len() != "else"@.len());
        assert("false"@ != "else"@);
        assert(keyword_kind("false"@) == TokenType::FALSE);
    } else if k == TokenType::FOR {
        assert("for"@[0] != "and"@[0]);
        assert("for"@ != "and"@);
        assert("for"@.len() != "class"@.len());
        assert("for"@ != "class"@);
        assert("for"@.len() != "else"@.len());
        assert("for"@ != "else"@);
        assert("for"@.len() != "false"@.len());
        assert("for"@ != "false"@);
        assert(keyword_kind("for"@) == TokenType::FOR);
    } else if k == TokenType::FUN {
        assert("fun"@[0] != "and"@[0]);
        assert("fun"@ != "and"@);
        assert("fun"@.len() != "class"@.len());
        assert("fun"@ != "class"@);
        assert("fun"@.len() != "else"@.len());
        assert("fun"@ != "else"@);
        assert("fun"@.len() != "false"@.len());
        assert("fun"@ != "false"@);
        assert("fun"@[1] != "for"@[1]);
        assert("fun"@ != "for"@);
        assert(keyword_kind("fun"@) == TokenType::FUN);
    } else if k == TokenType::IF {
        assert("if"@.len() != "and"@.len());
        assert("if"@ != "and"@);
        assert("if"@.len() != "class"@.len());
        assert("if"@ != "class"@);
        assert("if"@.len() != "else"@.len());
        assert("if"@ != "else"@);
        assert("if"@.len() != "false"@.len());
        assert("if"@ != "false"@);
        assert("if"@.len() != "for"@.len());
        assert("if"@ != "for"@);
        assert("if"@.len() != "fun"@.len());
        assert("if"@ != "fun"@);
        assert(keyword_kind("if"@) == TokenType::IF);
    } else if k == TokenType::NIL {
        assert("nil"@[0] != "and"@[0]);
        assert("nil"@ != "and"@);
        assert("nil"@.len() != "class"@.len());
        assert("nil"@ != "class"@);
        assert("nil"@.len() != "else"@.len());
        assert("nil"@ != "else"@);
        assert("nil"@.len() != "false"@.len());
        assert("nil"@ != "false"@);
        assert("nil"@[0] != "for"@[0]);
        assert("nil"@ != "for"@);
        assert("nil"@[0] != "fun"@[0]);
        assert("nil"@ != "fun"@);
        assert("nil"@.len() != "if"@.len());
        assert("nil"@ != "if"@);
        assert(keyword_kind("nil"@) == TokenType::NIL);
    } else if k == TokenType::OR {
        assert("or"@.len() != "and"@.len());
        assert("or"@ != "and"@);
        assert("or"@.len() != "class"@.len());
        assert("or"@ != "class"@);
        assert("or"@.len() != "else"@.len());
        assert("or"@ != "else"@);
        assert("or"@.len() != "false"@.len());
        assert("or"@ != "false"@);
        assert("or"@.len() != "for"@.len());
        assert("or"@ != "for"@);
        assert("or"@.len() != "fun"@.len());
        assert("or"@ != "fun"@);
        assert("or"@[0] != "if"@[0]);
        assert("or"@ != "if"@);
        assert("or"@.len() != "nil"@.len());
        assert("or"@ != "nil"@);
        assert(keyword_kind("or"@) == TokenType::OR);
    } else if k == TokenType::PRINT {
        assert("print"@.len() != "and"@.len());
        assert("print"@ != "and"@);
        assert("print"@[0] != "class"@[0]);
        assert("print"@ != "class"@);
        assert("print"@.len() != "else"@.len());
        assert("print"@ != "else"@);
        assert("print"@[0] != "false"@[0]);
        assert("print"@ != "false"@);
        assert("print"@.len() != "for"@.len());
        assert("print"@ != "for"@);
        assert("print"@.len() != "fun"@.len());
        assert("print"@ != "fun"@);
        assert("print"@.len() != "if"@.len());
        assert("print"@ != "if"@);
        assert("print"@.len() != "nil"@.len());
        assert("print"@ != "nil"@);
        assert("print"@.len() != "or"@.len());
        assert("print"@ != "or"@);
        assert(keyword_kind("print"@) == TokenType::PRINT);
    } else if k == TokenType::RETURN {
        assert("return"@.len() != "and"@.len());
        assert("return"@ != "and"@);
        assert("return"@.len() != "class"@.len());
        assert("return"@ != "class"@);
        assert("return"@.len() != "else"@.len());
        assert("return"@ != "else"@);
        assert("return"@.len() != "false"@.len());
        assert("return"@ != "false"@);
        assert("return"@.len() != "for"@.len());
        assert("return"@ != "for"@);
        assert("return"@.len() != "fun"@.len());
        assert("return"@ != "fun"@);
        assert("return"@.len() != "if"@.len());
        assert("return"@ != "if"@);
        assert("return"@.len() != "nil"@.len());
        assert("return"@ != "nil"@);
        assert("return"@.len() != "or"@.len());
        assert("return"@ != "or"@);
        assert("return"@.len() != "print"@.len());
        assert("return"@ != "print"@);
        assert(keyword_kind("return"@) == TokenType::RETURN);
    } else if k == TokenType::SUPER {
        assert("super"@.len() != "and"@.len());
        assert("super"@ != "and"@);
        assert("super"@[0] != "class"@[0]);
        assert("super"@ != "class"@);
        assert("super"@.len() != "else"@.len());
        assert("super"@ != "else"@);
        assert("super"@[0] != "false"@[0]);
        assert("super"@ != "false"@);
        assert("super"@.len() != "for"@.len());
        assert("super"@ != "for"@);
        assert("super"@.len() != "fun"@.len());
        assert("super"@ != "fun"@);
        assert("super"@.len() != "if"@.len());
        assert("super"@ != "if"@);
        assert("super"@.len() != "nil"@.len());
        assert("super"@ != "nil"@);
        assert("super"@.len() != "or"@.len());
        assert("super"@ != "or"@);
        assert("super"@[0] != "print"@[0]);
        assert("super"@ != "print"@);
        assert("super"@.len() != "return"@.len());
        assert("super"@ != "return"@);
        assert(keyword_kind("super"@) == TokenType::SUPER);
    } else if k == TokenType::THIS {
        assert("this"@.len() != "and"@.len());
        assert("this"@ != "and"@);
        assert("this"@.len() != "class"@.len());
        assert("this"@ != "class"@);
        assert("this"@[0] != "else"@[0]);
        assert("this"@ != "else"@);
        assert("this"@.len() != "false"@.len());
        assert("this"@ != "false"@);
        assert("this"@.len() != "for"@.len());
        assert("this"@ != "for"@);
        assert("this"@.len() != "fun"@.len());
        assert("this"@ != "fun"@);
        assert("this"@.len() != "if"@.len());
        assert("this"@ != "if"@);
        assert("this"@.len() != "nil"@.len());
        assert("this"@ != "nil"@);
        assert("this"@.len() != "or"@.len());
        assert("this"@ != "or"@);
        assert("this"@.len() != "print"@.len());
        assert("this"@ != "print"@);
        assert("this"@.len() != "return"@.len());
        assert("this"@ != "return"@);
        assert("this"@.len() != "super"@.len());
        assert("this"@ != "super"@);
        assert(keyword_kind("this"@) == TokenType::THIS);
    } else if k == TokenType::TRUE {
        assert("true"@.len() != "and"@.len());
        assert("true"@ != "and"@);
        assert("true"@.len() != "class"@.len());
        assert("true"@ != "class"@);
        assert("true"@[0] != "else"@[0]);
        assert("true"@ != "else"@);
        assert("true"@.len() != "false"@.len());
        assert("true"@ != "false"@);
        assert("true"@.len() != "for"@.len());
        assert("true"@ != "for"@);
        assert("true"@.len() != "fun"@.len());
        assert("true"@ != "fun"@);
        assert("true"@.len() != "if"@.len());
        assert("true"@ != "if"@);
        assert("true"@.len() != "nil"@.len());
        assert("true"@ != "nil"@);
        assert("true"@.len() != "or"@.len());
        assert("true"@ != "or"@);
        assert("true"@.len() != "print"@.len());
        assert("true"@ != "print"@);
        assert("true"@.len() != "return"@.len());
        assert("true"@ != "return"@);
        assert("true"@.len() != "super"@.len());
        assert("true"@ != "super"@);
        assert("true"@[1] != "this"@[1]);
        assert("true"@ != "this"@);
        assert(keyword_kind("true"@) == TokenType::TRUE);
    } else if k == TokenType::VAR {
        assert("var"@[0] != "and"@[0]);
        assert("var"@ != "and"@);
        assert("var"@.len() != "class"@.len());
        assert("var"@ != "class"@);
        assert("var"@.len() != "else"@.len());
        assert("var"@ != "else"@);
        assert("var"@.len() != "false"@.len());
        assert("var"@ != "false"@);
        assert("var"@[0] != "for"@[0]);
        assert("var"@ != "for"@);
        assert("var"@[0] != "fun"@[0]);
        assert("var"@ != "fun"@);
        assert("var"@.len() != "if"@.len());
        assert("var"@ != "if"@);
        assert("var"@[0] != "nil"@[0]);
        assert("var"@ != "nil"@);
        assert("var"@.len() != "or"@.len());
        assert("var"@ != "or"@);
        assert("var"@.len() != "print"@.len());
        assert("var"@ != "print"@);
        assert("var"@.len() != "return"@.len());
        assert("var"@ != "return"@);
        assert("var"@.len() != "super"@.len());
        assert("var"@ != "super"@);
        assert("var"@.len() != "this"@.len());
        assert("var"@ != "this"@);
        assert("var"@.len() != "true"@.len());
        assert("var"@ != "true"@);
        assert(keyword_kind("var"@) == TokenType::VAR);
    } else if k == TokenType::WHILE {
        assert("while"@.len() != "and"@.len());
        assert("while"@ != "and"@);
        assert("while"@[0] != "class"@[0]);
        assert("while"@ != "class"@);
        assert("while"@.len() != "else"@.len());
        assert("while"@ != "else"@);
        assert("while"@[0] != "false"@[0]);
        assert("while"@ != "false"@);
        assert("while"@.len() != "for"@.len());
        assert("while"@ != "for"@);
        assert("while"@.len() != "fun"@.len());
        assert("while"@ != "fun"@);
        assert("while"@.len() != "if"@.len());
        assert("while"@ != "if"@);
        assert("while"@.len() != "nil"@.len());
        assert("while"@ != "nil"@);
        assert("while"@.len() != "or"@.len());
        assert("while"@ != "or"@);
        assert("while"@[0] != "print"@[0]);
        assert("while"@ != "print"@);
        assert("while"@.len() != "return"@.len());
        assert("while"@ != "return"@);
        assert("while"@[0] != "super"@[0]);
        assert("while"@ != "super"@);
        assert("while"@.len() != "this"@.len());
        assert("while"@ != "this"@);
        assert("while"@.len() != "true"@.len());
        assert("while"@ != "true"@);
        assert("while"@.len() != "var"@.len());
        assert("while"@ != "var"@);
        assert(keyword_kind("while"@) == TokenType::WHILE);
    }
}

/// What survives a re-scan unchanged: everything of a token but its line.
pub ghost struct TokenCore {
    pub kind: TokenType,
    pub lexeme: Seq<char>,
    pub literal: Seq<char>,
}

pub open spec fn core_of(t: TokenV) -> TokenCore {
    TokenCore { kind: t.kind, lexeme: t.lexeme, literal: t.literal }
}

pub open spec fn cores_of(ts: Seq<TokenV>) -> Seq<TokenCore> {
    ts.map_values(|t: TokenV| core_of(t))
}

/// The lexemes of `ts`, concatenated in order: the text the tokens were
/// scanned from, with the skipped whitespace and comments gone.
pub open spec fn lexcat(ts: Seq<TokenV>) -> Seq<char>
    decreases ts.len(),
{
    if ts.len() == 0 {
        Seq::<char>::empty()
    } else {
        ts[0].lexeme + lexcat(ts.drop_first())
    }
}

pub open spec fn all_wf(ts: Seq<TokenV>) -> bool {
    forall|i: int| 0 <= i < ts.len() ==> wf_token(#[trigger] ts[i])
}

/// Each token of `ts`, laid end to end in `s` starting at `p`, is
/// separated from what follows it.
pub open spec fn separated_in(s: Seq<char>, p: nat, ts: Seq<TokenV>) -> bool
    decreases ts.len(),
{
    if ts.len() == 0 {
        true
    } else {
        &&& separated_from(ts[0].kind, s, (p + ts[0].lexeme.len()) as nat)
        &&& separated_in(s, (p + ts[0].lexeme.len()) as nat, ts.drop_first())
    }
}


/// Scanning at the start of a well-formed lexeme that is separated from
/// what follows yields exactly that token — kind, lexeme and literal;
/// only the line is recomputed — and resumes exactly at its end.
pub proof fn lemma_scan_one(s: Seq<char>, p: nat, line: nat, t: TokenV)
    requires
        wf_token(t),
        p + t.lexeme.len() <= s.len(),
        s.subrange(p as int, (p + t.lexeme.len()) as int) == t.lexeme,
        separated_from(t.kind, s, (p + t.lexeme.len()) as nat),
    ensures
        ({
            let st = scan_step(s, p, line);
            &&& st.tokens.len() == 1
            &&& core_of(st.tokens[0]) == core_of(t)
            &&& st.next == p + t.lexeme.len()
            &&& st.diags.len() == 0
        }),
        t.lexeme.len() > 0,
{
    let lex = t.lexeme;
    let len = lex.len();
    let q = (p + len) as nat;
    assert forall|i: int| 0 <= i < len implies s[p + i] == #[trigger] lex[i] by {
        assert(s.subrange(p as int, q as int)[i] == s[p + i]);
    }
    if t.kind == TokenType::LeftParen {
        reveal_strlit("(");
        assert(len == 1);
        assert(s[p as int] == lex[0] && lex[0] == '(');
    } else if t.kind == TokenType::RightParen {
        reveal_strlit(")");
        assert(len == 1);
        assert(s[p as int] == lex[0] && lex[0] == ')');
    } else if t.kind == TokenType::LeftBrace {
        reveal_strlit("{");
        assert(len == 1);
        assert(s[p as int] == lex[0] && lex[0] == '{');
    } else if t.kind == TokenType::RightBrace {
        reveal_strlit("}");
        assert(len == 1);
        assert(s[p as int] == lex[0] && lex[0] == '}');
    } else if t.kind == TokenType::Comma {
        reveal_strlit(",");
        assert(len == 1);
        assert(s[p as int] == lex[0] && lex[0] == ',');
    } else if t.kind == TokenType::Dot {
        reveal_strlit(".");
        assert(len == 1);
        assert(s[p as int] == lex[0] && lex[0] == '.');
    } else if t.kind == TokenType::Minus {
        reveal_strlit("-");
        assert(len == 1);
        assert(s[p as int] == lex[0] && lex[0] == '-');
    } else if t.kind == TokenType::Plus {
        reveal_strlit("+");
        assert(len == 1);
        assert(s[p as int] == lex[0] && lex[0] == '+');
    } else if t.kind == TokenType::SEMICOLON {
        reveal_strlit(";");
        assert(len == 1);
        assert(s[p as int] == lex[0] && lex[0] == ';');
    } else if t.kind == TokenType::STAR {
        reveal_strlit("*");
        assert(len == 1);
        assert(s[p as int] == lex[0] && lex[0] == '*');
    } else if t.kind == TokenType::BANG {
        reveal_strlit("!");
        assert(len == 1);
        assert(s[p as int] == lex[0] && lex[0] == '!');
    } else if t.kind == TokenType::EQUAL {
        reveal_strlit("=");
        assert(len == 1);
        assert(s[p as int] == lex[0] && lex[0] == '=');
    } else if t.kind == TokenType::LESS {
        reveal_strlit("<");
        assert(len == 1);
        assert(s[p as int] == lex[0] && lex[0] == '<');
    } else if t.kind == TokenType::GREATER {
        reveal_strlit(">");
        assert(len == 1);
        assert(s[p as int] == lex[0] && lex[0] == '>');
    } else if t.kind == TokenType::SLASH {
        reveal_strlit("/");
        assert(len == 1);
        assert(s[p as int] == lex[0] && lex[0] == '/');
    } else if t.kind == TokenType::BangEqual {
        reveal_strlit("!=");
        assert(len == 2);
        assert(s[p as int] == lex[0] && lex[0] == '!');
        assert(s[p + 1 as int] == lex[1] && lex[1] == '=');
    } else if t.kind == TokenType::EqualEqual {
        reveal_strlit("==");
        assert(len == 2);
        assert(s[p as int] == lex[0] && lex[0] == '=');
        assert(s[p + 1 as int] == lex[1] && lex[1] == '=');
    } else if t.kind == TokenType::LessEqual {
        reveal_strlit("<=");
        assert(len == 2);
        assert(s[p as int] == lex[0] && lex[0] == '<');
        assert(s[p + 1 as int] == lex[1] && lex[1] == '=');
    } else if t.kind == TokenType::GreaterEqual {
        reveal_strlit(">=");
        assert(len == 2);
        assert(s[p as int] == lex[0] && lex[0] == '>');
        assert(s[p + 1 as int] == lex[1] && lex[1] == '=');
    } else if keyword_token(t.kind) || t.kind == TokenType::IDENTIFIER {
        if keyword_token(t.kind) {
            lemma_keyword_facts(t.kind);
            assert(lex == keyword_lexeme(t.kind));
        } else {
            lemma_ident_end_facts(lex, 0);
        }
        assert(len > 0);
        assert(s[p as int] == lex[0]);
        assert(is_alpha_spec(s[p as int]));
        assert forall|i: int| p <= i < q implies is_alpha_numeric_spec(#[trigger] s[i]) by {
            assert(s[i] == lex[i - p]);
        }
        lemma_ident_end_pin(s, p, q);
        assert(keyword_kind(s.subrange(p as int, q as int)) == t.kind);
    } else if t.kind == TokenType::NUMBER {
        lemma_digits_end_facts(lex, 0);
        let d1 = digits_end(lex, 0);
        assert(s[p as int] == lex[0]);
        assert(is_digit_spec(s[p as int]));
        assert forall|i: int| p <= i < p + d1 implies is_digit_spec(#[trigger] s[i]) by {
            assert(s[i] == lex[i - p]);
        }
        if d1 == len {
            lemma_digits_end_pin(s, p, q);
            assert(digits_end(s, p) == q);
        } else {
            assert(lex[d1 as int] == '.' && d1 + 1 < len && is_digit_spec(lex[d1 + 1 as int])
                && digits_end(lex, d1 + 1) == len);
            assert(s[p + d1 as int] == '.');
            assert(!is_digit_spec('.'));
            lemma_digits_end_pin(s, p, (p + d1) as nat);
            lemma_digits_end_facts(lex, (d1 + 1) as nat);
            assert forall|i: int| p + d1 + 1 <= i < q implies is_digit_spec(#[trigger] s[i]) by {
                assert(s[i] == lex[i - p]);
            }
            assert(is_digit_spec(s[p + d1 + 1 as int]));
            lemma_digits_end_pin(s, (p + d1 + 1) as nat, q);
            assert(digits_end(s, (p + d1 + 1) as nat) == q);
        }
    } else {
        assert(t.kind == TokenType::STRING);
        assert(s[p as int] == lex[0] && lex[0] == '"');
        lemma_string_body_end_facts(lex, 1);
        assert forall|i: int| p + 1 <= i < p + len - 1 implies #[trigger] s[i] != '"' by {
            assert(s[i] == lex[i - p]);
        }
        assert(s[p + len - 1 as int] == lex[len - 1] && lex[len - 1] == '"');
        lemma_string_body_end_pin(s, (p + 1) as nat, (p + len - 1) as nat);
        assert(string_body_end(s, (p + 1) as nat) == p + len - 1);
        assert(s.subrange(p + 1 as int, (p + len - 1) as int) =~= lex.subrange(1, len - 1));
    }
}


pub proof fn lemma_cores_concat(a: Seq<TokenV>, b: Seq<TokenV>)
    ensures
        cores_of(a + b) == cores_of(a) + cores_of(b),
{
    assert(cores_of(a + b) =~= cores_of(a) + cores_of(b));
}

/// Scanning a suffix that is the concatenation of well-formed, separated
/// lexemes reproduces those tokens, with no diagnostics.
proof fn lemma_rescan_suffix(s: Seq<char>, p: nat, line: nat, ts: Seq<TokenV>)
    requires
        p <= s.len(),
        s.subrange(p as int, s.len() as int) == lexcat(ts),
        all_wf(ts),
        separated_in(s, p, ts),
    ensures
        cores_of(scan_from(s, p, line).tokens) == cores_of(ts),
        scan_from(s, p, line).diags.len() == 0,
    decreases ts.len(),
{
    if ts.len() == 0 {
        assert(s.len() - p == lexcat(ts).len());
        assert(cores_of(scan_from(s, p, line).tokens) =~= cores_of(ts));
    } else {
        let t0 = ts[0];
        let lex0 = t0.lexeme;
        let big = s.len() as int;
        let rest = ts.drop_first();
        assert(wf_token(t0));
        assert(lexcat(ts) == lex0 + lexcat(rest));
        assert(s.len() - p == lex0.len() + lexcat(rest).len());
        let l0: nat = lex0.len();
        let q = (p + l0) as nat;
        assert forall|i: int| 0 <= i < s.len() - p implies #[trigger] s[p + i] == lexcat(ts)[i] by {
            assert(s.subrange(p as int, big)[i] == s[p + i]);
        }
        assert(s.subrange(p as int, q as int) =~= lex0) by {
            assert forall|i: int| 0 <= i < l0 implies s.subrange(p as int, q as int)[i]
                == lex0[i] by {
                assert(s[p + i] == lexcat(ts)[i]);
                assert((lex0 + lexcat(rest))[i] == lex0[i]);
            }
        }
        assert(s.subrange(q as int, big) =~= lexcat(rest)) by {
            assert forall|i: int| 0 <= i < s.len() - q implies s.subrange(q as int, big)[i]
                == lexcat(rest)[i] by {
                assert(s[p + (l0 + i)] == lexcat(ts)[l0 + i]);
                assert((lex0 + lexcat(rest))[l0 + i] == lexcat(rest)[i]);
            }
        }
        lemma_scan_one(s, p, line, t0);
        let st = scan_step(s, p, line);
        assert(forall|i: int| 0 <= i < rest.len() ==> #[trigger] rest[i] == ts[i + 1]);
        lemma_rescan_suffix(s, q, st.line, rest);
        let after = scan_from(s, q, st.line);
        assert(scan_from(s, p, line).tokens == st.tokens + after.tokens);
        assert(scan_from(s, p, line).diags == st.diags + after.diags);
        lemma_cores_concat(st.tokens, after.tokens);
        assert(cores_of(st.tokens) =~= seq![core_of(t0)]);
        assert(cores_of(ts) =~= seq![core_of(t0)] + cores_of(rest)) by {
            assert(forall|i: int|
                0 <= i < cores_of(ts).len() ==> #[trigger] cores_of(ts)[i] == core_of(ts[i]));
            assert(forall|i: int|
                0 <= i < rest.len() ==> #[trigger] cores_of(rest)[i] == core_of(rest[i]));
        }
        assert(cores_of(scan_from(s, p, line).tokens) =~= cores_of(ts));
    }
}

/// Law: scanning is idempotent. Re-scanning the lexeme-concatenation of
/// any well-formed token sequence whose neighbouring tokens do not merge
/// reproduces the same kinds, lexemes and literals, in the same order,
/// and reports nothing. Line numbers are recomputed from the
/// concatenation, so they are not part of the claim; and a sequence with
/// merging neighbours — a `<` directly before `=`, a number directly
/// before a digit — genuinely scans differently, so `separated_in` is a
/// true boundary of the law, not a convenience.
pub proof fn lemma_scan_idempotent(ts: Seq<TokenV>)
    requires
        all_wf(ts),
        separated_in(lexcat(ts), 0, ts),
    ensures
        cores_of(scan_spec(lexcat(ts)).tokens) == cores_of(ts),
        scan_spec(lexcat(ts)).diags.len() == 0,
{
    let s = lexcat(ts);
    assert(s.subrange(0, s.len() as int) =~= s);
    lemma_rescan_suffix(s, 0, 1, ts);
}


/// Every token one scanning step emits is well-formed.
pub proof fn lemma_scan_step_wf(s: Seq<char>, pos: nat, line: nat)
    requires
        pos < s.len(),
    ensures
        forall|i: int|
            0 <= i < scan_step(s, pos, line).tokens.len() ==> wf_token(
                #[trigger] scan_step(s, pos, line).tokens[i],
            ),
{
    let c = s[pos as int];
    let st = scan_step(s, pos, line);
    if c == '(' {
        reveal_strlit("(");
        assert(s.subrange(pos as int, pos + 1 as int) =~= "("@);
    } else if c == ')' {
        reveal_strlit(")");
        assert(s.subrange(pos as int, pos + 1 as int) =~= ")"@);
    } else if c == '{' {
        reveal_strlit("{");
        assert(s.subrange(pos as int, pos + 1 as int) =~= "{"@);
    } else if c == '}' {
        reveal_strlit("}");
        assert(s.subrange(pos as int, pos + 1 as int) =~= "}"@);
    } else if c == ',' {
        reveal_strlit(",");
        assert(s.subrange(pos as int, pos + 1 as int) =~= ","@);
    } else if c == '.' {
        reveal_strlit(".");
        assert(s.subrange(pos as int, pos + 1 as int) =~= "."@);
    } else if c == '-' {
        reveal_strlit("-");
        assert(s.subrange(pos as int, pos + 1 as int) =~= "-"@);
    } else if c == '+' {
        reveal_strlit("+");
        assert(s.subrange(pos as int, pos + 1 as int) =~= "+"@);
    } else if c == ';' {
        reveal_strlit(";");
        assert(s.subrange(pos as int, pos + 1 as int) =~= ";"@);
    } else if c == '*' {
        reveal_strlit("*");
        assert(s.subrange(pos as int, pos + 1 as int) =~= "*"@);
    } else if c == '!' {
        reveal_strlit("!");
        reveal_strlit("!=");
        if pos + 1 < s.len() && s[pos + 1 as int] == '=' {
            assert(s.subrange(pos as int, pos + 2 as int) =~= "!="@);
        } else {
            assert(s.subrange(pos as int, pos + 1 as int) =~= "!"@);
        }
    } else if c == '=' {
        reveal_strlit("=");
        reveal_strlit("==");
        if pos + 1 < s.len() && s[pos + 1 as int] == '=' {
            assert(s.subrange(pos as int, pos + 2 as int) =~= "=="@);
        } else {
            assert(s.subrange(pos as int, pos + 1 as int) =~= "="@);
        }
    } else if c == '<' {
        reveal_strlit("<");
        reveal_strlit("<=");
        if pos + 1 < s.len() && s[pos + 1 as int] == '=' {
            assert(s.subrange(pos as int, pos + 2 as int) =~= "<="@);
        } else {
            assert(s.subrange(pos as int, pos + 1 as int) =~= "<"@);
        }
    } else if c == '>' {
        reveal_strlit(">");
        reveal_strlit(">=");
        if pos + 1 < s.len() && s[pos + 1 as int] == '=' {
            assert(s.subrange(pos as int, pos + 2 as int) =~= ">="@);
        } else {
            assert(s.subrange(pos as int, pos + 1 as int) =~= ">"@);
        }
    } else if c == '/' {
        reveal_strlit("/");
        if !(pos + 1 < s.len() && s[pos + 1 as int] == '/') {
            assert(s.subrange(pos as int, pos + 1 as int) =~= "/"@);
        }
    } else if c == ' ' || c == '\r' || c == '\t' || c == '\n' {
    } else if c == '"' {
        let e = string_body_end(s, pos + 1);
        lemma_string_body_end_facts(s, pos + 1);
        if e < s.len() {
            let lex = s.subrange(pos as int, e + 1 as int);
            assert(lex.len() == e + 1 - pos >= 2);
            assert(lex[0] == '"');
            assert(lex[lex.len() - 1] == s[e as int]);
            assert forall|i: int| 1 <= i < lex.len() - 1 implies #[trigger] lex[i] != '"' by {
                assert(lex[i] == s[pos + i]);
            }
            lemma_string_body_end_pin(lex, 1, (lex.len() - 1) as nat);
            assert(s.subrange(pos + 1 as int, e as int) =~= lex.subrange(1, lex.len() - 1));
        }
    } else if is_digit_spec(c) {
        let d1 = digits_end(s, pos);
        lemma_digits_end_facts(s, pos);
        if d1 < s.len() && s[d1 as int] == '.' && d1 + 1 < s.len() && is_digit_spec(
            s[d1 + 1 as int],
        ) {
            let end = digits_end(s, d1 + 1);
            lemma_digits_end_facts(s, d1 + 1);
            assert(digits_end(s, d1 + 1) == digits_end(s, d1 + 2));
            lemma_digits_end_facts(s, d1 + 2);
            let lex = s.subrange(pos as int, end as int);
            assert(d1 + 1 < end);
            assert forall|i: int| 0 <= i < d1 - pos implies is_digit_spec(#[trigger] lex[i]) by {
                assert(lex[i] == s[pos + i]);
            }
            assert(lex[d1 - pos] == s[d1 as int]);
            assert(!is_digit_spec('.'));
            lemma_digits_end_pin(lex, 0, (d1 - pos) as nat);
            assert forall|i: int|
                d1 + 1 - pos <= i < lex.len() implies is_digit_spec(#[trigger] lex[i]) by {
                assert(lex[i] == s[pos + i]);
            }
            lemma_digits_end_pin(lex, (d1 + 1 - pos) as nat, lex.len());
            assert(wf_number_lexeme(lex));
        } else {
            let lex = s.subrange(pos as int, d1 as int);
            assert forall|i: int| 0 <= i < lex.len() implies is_digit_spec(#[trigger] lex[i]) by {
                assert(lex[i] == s[pos + i]);
            }
            lemma_digits_end_pin(lex, 0, lex.len());
            assert(wf_number_lexeme(lex));
        }
    } else if is_alpha_spec(c) {
        let e = ident_end(s, pos);
        lemma_ident_end_facts(s, pos);
        let lex = s.subrange(pos as int, e as int);
        assert(ident_end(s, pos) == ident_end(s, pos + 1));
        lemma_ident_end_facts(s, pos + 1);
        assert(pos < e);
        assert(lex[0] == c);
        assert forall|i: int| 0 <= i < lex.len() implies is_alpha_numeric_spec(
            #[trigger] lex[i],
        ) by {
            assert(lex[i] == s[pos + i]);
        }
        lemma_ident_end_pin(lex, 0, lex.len());
        let k = keyword_kind(lex);
        if k == TokenType::IDENTIFIER {
            assert(wf_token(st.tokens[0]));
        } else {
            lemma_keyword_facts(k);
            assert(lex == keyword_lexeme(k));
            assert(wf_token(st.tokens[0]));
        }
    } else {
    }
}

/// Every token scanning emits, from any position on, is well-formed.
pub proof fn lemma_scan_wf(s: Seq<char>, pos: nat, line: nat)
    requires
        pos <= s.len(),
    ensures
        all_wf(scan_from(s, pos, line).tokens),
    decreases s.len() - pos,
{
    if pos < s.len() {
        let st = scan_step(s, pos, line);
        lemma_scan_step_wf(s, pos, line);
        crate::scanner::lemma_scan_step_progress(s, pos, line);
        lemma_scan_wf(s, st.next, st.line);
        let rest = scan_from(s, st.next, st.line).tokens;
        assert forall|i: int|
            0 <= i < scan_from(s, pos, line).tokens.len() implies wf_token(
            #[trigger] scan_from(s, pos, line).tokens[i],
        ) by {
            if i < st.tokens.len() {
                assert((st.tokens + rest)[i] == st.tokens[i]);
            } else {
                assert((st.tokens + rest)[i] == rest[i - st.tokens.len()]);
            }
        }
    }
}


/// The precedence level a binary operator belongs to.
pub open spec fn op_level(k: TokenType) -> nat {
    if level_op(0, k) {
        0
    } else if level_op(1, k) {
        1
    } else if level_op(2, k) {
        2
    } else {
        3
    }
}

/// Derivability from the grammar: `n` is an expression that the ladder
/// produces at binding strength `level` (0 a whole expression, 4 a unary
/// expression or tighter). A Binary node must carry an operator bound at
/// least as tightly as `level`, its left child derives at the operator's
/// own level — left-associativity — and its right child one level
/// tighter; a Unary node applies `!` or `-` to a unary expression; a
/// Grouping wraps a whole expression and a Literal is a leaf.
pub open spec fn wf_expr(n: NodeV, level: nat) -> bool
    decreases n,
{
    if n.node_type == NodeType::Literal {
        n.children.len() == 0 && literal_kind(n.token.kind)
    } else if n.node_type == NodeType::Grouping {
        n.children.len() == 1 && n.token.kind == TokenType::LeftParen && wf_expr(n.children[0], 0)
    } else if n.node_type == NodeType::Unary {
        &&& n.children.len() == 1
        &&& (n.token.kind == TokenType::BANG || n.token.kind == TokenType::Minus)
        &&& wf_expr(n.children[0], 4)
    } else if n.node_type == NodeType::Binary {
        &&& n.children.len() == 2
        &&& binary_op(n.token.kind)
        &&& level <= op_level(n.token.kind)
        &&& wf_expr(n.children[0], op_level(n.token.kind))
        &&& wf_expr(n.children[1], op_level(n.token.kind) + 1)
    } else {
        false
    }
}

/// The token kinds a tree was built from, in source order.
pub open spec fn kinds_of(n: NodeV) -> Seq<TokenType>
    decreases n,
{
    if n.node_type == NodeType::Literal {
        seq![n.token.kind]
    } else if n.node_type == NodeType::Grouping {
        if n.children.len() == 1 {
            seq![TokenType::LeftParen] + kinds_of(n.children[0]) + seq![TokenType::RightParen]
        } else {
            seq![]
        }
    } else if n.node_type == NodeType::Unary {
        if n.children.len() == 1 {
            seq![n.token.kind] + kinds_of(n.children[0])
        } else {
            seq![]
        }
    } else if n.node_type == NodeType::Binary {
        if n.children.len() == 2 {
            kinds_of(n.children[0]) + seq![n.token.kind] + kinds_of(n.children[1])
        } else {
            seq![]
        }
    } else {
        seq![]
    }
}

pub open spec fn kind_seq(t: Seq<TokenV>) -> Seq<TokenType> {
    t.map_values(|tv: TokenV| tv.kind)
}

proof fn lemma_kind_seq_split(t: Seq<TokenV>, a: int, m: int, b: int)
    requires
        0 <= a <= m <= b <= t.len(),
    ensures
        kind_seq(t.subrange(a, b)) == kind_seq(t.subrange(a, m)) + kind_seq(t.subrange(m, b)),
{
    assert(kind_seq(t.subrange(a, b)) =~= kind_seq(t.subrange(a, m)) + kind_seq(
        t.subrange(m, b),
    ));
}

proof fn lemma_kind_seq_one(t: Seq<TokenV>, i: int)
    requires
        0 <= i < t.len(),
    ensures
        kind_seq(t.subrange(i, i + 1)) == seq![t[i].kind],
{
    assert(kind_seq(t.subrange(i, i + 1)) =~= seq![t[i].kind]);
}

/// Being derivable at a tighter level implies derivability at a looser one.
pub proof fn lemma_wf_expr_weaken(n: NodeV, l1: nat, l2: nat)
    requires
        wf_expr(n, l2),
        l1 <= l2,
    ensures
        wf_expr(n, l1),
{
}

proof fn lemma_op_level(level: nat, k: TokenType)
    requires
        level <= 3,
        level_op(level, k),
    ensures
        op_level(k) == level,
        binary_op(k),
{
}

/// Law: every tree the parser yields without diagnostics respects the
/// grammar — precedence, left-associativity and grouping are visible in
/// its structure (`wf_expr`) — and reproduces, in source order, exactly
/// the kinds of the tokens it consumed.
pub proof fn lemma_parse_structure(t: Seq<TokenV>, pos: nat, depth: nat)
    requires
        pos <= t.len(),
    ensures
        ({
            let out = parse_expression_spec(t, pos, depth);
            out.node matches Some(n) ==> out.diags.len() == 0 ==> wf_expr(n, 0) && kinds_of(n)
                == kind_seq(t.subrange(pos as int, out.next as int))
        }),
    decreases depth, t.len() - pos, 6int,
{
    lemma_level_structure(t, pos, 0, depth);
}

proof fn lemma_level_structure(t: Seq<TokenV>, pos: nat, level: nat, depth: nat)
    requires
        pos <= t.len(),
        level <= 3,
    ensures
        ({
            let out = parse_level_spec(t, pos, level, depth);
            out.node matches Some(n) ==> out.diags.len() == 0 ==> wf_expr(n, level) && kinds_of(n)
                == kind_seq(t.subrange(pos as int, out.next as int))
        }),
    decreases depth, t.len() - pos, 4int,
{
    if depth > 0 {
        lemma_operand_bounds(t, pos, level, (depth - 1) as nat);
        lemma_operand_structure(t, pos, level, (depth - 1) as nat);
        let operand = parse_operand_spec(t, pos, level, (depth - 1) as nat);
        match operand.node {
            Option::Some(first) => {
                if pos < operand.next && operand.next <= t.len() {
                    let out = parse_level_spec(t, pos, level, depth);
                    let rest = parse_level_rest_spec(t, operand.next, level, first, depth);
                    if out.node is Some && out.diags.len() == 0 {
                        let n = out.node.arrow_Some_0();
                        assert(operand.diags.len() == 0 && rest.diags.len() == 0);
                        lemma_wf_expr_weaken(first, level, (level + 1) as nat);
                        lemma_rest_structure(t, operand.next, level, first, depth);
                        lemma_kind_seq_split(
                            t,
                            pos as int,
                            operand.next as int,
                            rest.next as int,
                        );
                    }
                }
            },
            Option::None => {},
        }
    }
}

proof fn lemma_rest_structure(t: Seq<TokenV>, pos: nat, level: nat, acc: NodeV, depth: nat)
    requires
        pos <= t.len(),
        level <= 3,
        depth >= 1,
        wf_expr(acc, level),
    ensures
        ({
            let out = parse_level_rest_spec(t, pos, level, acc, depth);
            out.node matches Some(n) ==> out.diags.len() == 0 ==> pos <= out.next <= t.len()
                && wf_expr(n, level) && kinds_of(n) == kinds_of(acc) + kind_seq(
                t.subrange(pos as int, out.next as int),
            )
        }),
    decreases depth, t.len() - pos, 0int,
{
    let out = parse_level_rest_spec(t, pos, level, acc, depth);
    if pos < t.len() && level_op(level, t[pos as int].kind) {
        let op = t[pos as int];
        lemma_op_level(level, op.kind);
        lemma_operand_bounds(t, pos + 1, level, (depth - 1) as nat);
        lemma_operand_structure(t, pos + 1, level, (depth - 1) as nat);
        let operand = parse_operand_spec(t, pos + 1, level, (depth - 1) as nat);
        match operand.node {
            Option::Some(rhs) => {
                let acc2 = NodeV {
                    node_type: NodeType::Binary,
                    children: seq![acc, rhs],
                    token: op,
                };
                if pos + 1 < operand.next && operand.next <= t.len() {
                    if out.node is Some && out.diags.len() == 0 {
                        let n = out.node.arrow_Some_0();
                        assert(operand.diags.len() == 0);
                        assert(acc2.children[0] == acc && acc2.children[1] == rhs);
                        assert(wf_expr(acc2, level));
                        assert(kinds_of(acc2) == kinds_of(acc) + seq![op.kind] + kinds_of(rhs));
                        lemma_rest_structure(t, operand.next, level, acc2, depth);
                        lemma_kind_seq_one(t, pos as int);
                        lemma_kind_seq_split(
                            t,
                            pos as int,
                            (pos + 1) as int,
                            operand.next as int,
                        );
                        lemma_kind_seq_split(
                            t,
                            pos as int,
                            operand.next as int,
                            out.next as int,
                        );
                        assert(kinds_of(n) == kinds_of(acc2) + kind_seq(
                            t.subrange(operand.next as int, out.next as int),
                        ));
                        assert(kinds_of(n) =~= kinds_of(acc) + kind_seq(
                            t.subrange(pos as int, out.next as int),
                        ));
                    }
                }
            },
            Option::None => {},
        }
    } else {
        assert(kind_seq(t.subrange(pos as int, pos as int)) =~= Seq::<TokenType>::empty());
        assert(kinds_of(acc) + Seq::<TokenType>::empty() =~= kinds_of(acc));
    }
}

proof fn lemma_operand_structure(t: Seq<TokenV>, pos: nat, level: nat, depth: nat)
    requires
        pos <= t.len(),
        level <= 3,
    ensures
        ({
            let out = parse_operand_spec(t, pos, level, depth);
            out.node matches Some(n) ==> out.diags.len() == 0 ==> wf_expr(n, (level + 1) as nat)
                && kinds_of(n) == kind_seq(t.subrange(pos as int, out.next as int))
        }),
    decreases depth, t.len() - pos, 5int,
{
    if level < 3 {
        lemma_level_structure(t, pos, level + 1, depth);
    } else {
        lemma_unary_structure(t, pos, depth);
    }
}

proof fn lemma_unary_structure(t: Seq<TokenV>, pos: nat, depth: nat)
    requires
        pos <= t.len(),
    ensures
        ({
            let out = parse_unary_spec(t, pos, depth);
            out.node matches Some(n) ==> out.diags.len() == 0 ==> wf_expr(n, 4) && kinds_of(n)
                == kind_seq(t.subrange(pos as int, out.next as int))
        }),
    decreases depth, t.len() - pos, 3int,
{
    if depth > 0 {
        if pos < t.len() && (t[pos as int].kind == TokenType::BANG || t[pos as int].kind
            == TokenType::Minus) {
            crate::parser::lemma_unary_bounds(t, pos + 1, (depth - 1) as nat);
            lemma_unary_structure(t, pos + 1, (depth - 1) as nat);
            let operand = parse_unary_spec(t, pos + 1, (depth - 1) as nat);
            let out = parse_unary_spec(t, pos, depth);
            match operand.node {
                Option::Some(inner) => {
                    if out.diags.len() == 0 {
                        let n = out.node.arrow_Some_0();
                        assert(n.children[0] == inner);
                        lemma_kind_seq_one(t, pos as int);
                        lemma_kind_seq_split(t, pos as int, (pos + 1) as int, out.next as int);
                        assert(kinds_of(n) =~= kind_seq(
                            t.subrange(pos as int, out.next as int),
                        ));
                    }
                },
                Option::None => {},
            }
        } else {
            lemma_primary_structure(t, pos, depth);
        }
    }
}

proof fn lemma_primary_structure(t: Seq<TokenV>, pos: nat, depth: nat)
    requires
        pos <= t.len(),
    ensures
        ({
            let out = parse_primary_spec(t, pos, depth);
            out.node matches Some(n) ==> out.diags.len() == 0 ==> wf_expr(n, 4) && kinds_of(n)
                == kind_seq(t.subrange(pos as int, out.next as int))
        }),
    decreases depth, t.len() - pos, 2int,
{
    if depth > 0 {
        let out = parse_primary_spec(t, pos, depth);
        if literal_kind(crate::parser::kind_at(t, pos)) {
            if out.node is Some && out.diags.len() == 0 {
                lemma_kind_seq_one(t, pos as int);
            }
        } else if crate::parser::kind_at(t, pos) == TokenType::LeftParen {
            lemma_grouping_structure(t, pos, depth);
        }
    }
}

proof fn lemma_grouping_structure(t: Seq<TokenV>, pos: nat, depth: nat)
    requires
        pos <= t.len(),
    ensures
        ({
            let out = parse_grouping_spec(t, pos, depth);
            out.node matches Some(n) ==> out.diags.len() == 0 ==> wf_expr(n, 4) && kinds_of(n)
                == kind_seq(t.subrange(pos as int, out.next as int))
        }),
    decreases depth, t.len() - pos, 1int,
{
    if depth > 0 && pos < t.len() && t[pos as int].kind == TokenType::LeftParen {
        lemma_expression_bounds(t, pos + 1, (depth - 1) as nat);
        lemma_parse_structure(t, pos + 1, (depth - 1) as nat);
        let inner = parse_expression_spec(t, pos + 1, (depth - 1) as nat);
        let out = parse_grouping_spec(t, pos, depth);
        match inner.node {
            Option::Some(node) => {
                if out.diags.len() == 0 && inner.next < t.len() && t[inner.next as int].kind
                    == TokenType::RightParen {
                    let n = out.node.arrow_Some_0();
                    assert(n.children[0] == node);
                    lemma_kind_seq_one(t, pos as int);
                    lemma_kind_seq_one(t, inner.next as int);
                    lemma_kind_seq_split(t, pos as int, (pos + 1) as int, inner.next as int);
                    lemma_kind_seq_split(
                        t,
                        pos as int,
                        inner.next as int,
                        (inner.next + 1) as int,
                    );
                    assert(kinds_of(n) =~= kind_seq(
                        t.subrange(pos as int, (inner.next + 1) as int),
                    ));
                }
            },
            Option::None => {},
        }
    }
}


/// The law applied to the scanner's own output: the tokens of any scan
/// are well-formed, so re-scanning their lexeme-concatenation reproduces
/// them whenever no two neighbours merge.
pub proof fn lemma_scan_output_idempotent(src: Seq<char>)
    requires
        separated_in(lexcat(scan_spec(src).tokens), 0, scan_spec(src).tokens),
    ensures
        cores_of(scan_spec(lexcat(scan_spec(src).tokens)).tokens) == cores_of(
            scan_spec(src).tokens,
        ),
        scan_spec(lexcat(scan_spec(src).tokens)).diags.len() == 0,
{
    lemma_scan_wf(src, 0, 1);
    lemma_scan_idempotent(scan_spec(src).tokens);
}

} // verus!
