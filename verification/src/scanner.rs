//! The lexer: turns raw source text into a token sequence plus diagnostics.
//!
//! The behaviour is fixed by the specification functions in this module:
//! `scan_spec` walks the source character by character, `scan_step` says what
//! one step at a given position emits and where scanning resumes, and the
//! executable `Scanner` is proved to produce exactly that.

use vstd::prelude::*;

use crate::error::{diags_view, lemma_diags_view_push, DiagV, Diagnostic};
use crate::token::{lemma_toks_view_push, toks_view, Token, TokenType, TokenV};

verus! {

pub open spec fn is_digit_spec(c: char) -> bool {
    '0' <= c && c <= '9'
}

pub open spec fn is_alpha_spec(c: char) -> bool {
    ('a' <= c && c <= 'z') || ('A' <= c && c <= 'Z') || c == '_'
}

pub open spec fn is_alpha_numeric_spec(c: char) -> bool {
    is_digit_spec(c) || is_alpha_spec(c)
}

/// The first position at or after `p` holding a newline, or the end of input:
/// where a line comment beginning before `p` stops.
pub open spec fn line_comment_end(s: Seq<char>, p: nat) -> nat
    decreases s.len() - p,
    when p <= s.len()
{
    if p >= s.len() || s[p as int] == '\n' {
        p
    } else {
        line_comment_end(s, p + 1)
    }
}

/// The first position at or after `p` holding a closing quote, or the end of
/// input if the string literal whose body starts at `p` is unterminated.
pub open spec fn string_body_end(s: Seq<char>, p: nat) -> nat
    decreases s.len() - p,
    when p <= s.len()
{
    if p >= s.len() || s[p as int] == '"' {
        p
    } else {
        string_body_end(s, p + 1)
    }
}

/// The first position at or after `p` holding a non-digit, or the end of input.
pub open spec fn digits_end(s: Seq<char>, p: nat) -> nat
    decreases s.len() - p,
    when p <= s.len()
{
    if p >= s.len() || !is_digit_spec(s[p as int]) {
        p
    } else {
        digits_end(s, p + 1)
    }
}

/// The first position at or after `p` where an identifier stops.
pub open spec fn ident_end(s: Seq<char>, p: nat) -> nat
    decreases s.len() - p,
    when p <= s.len()
{
    if p >= s.len() || !is_alpha_numeric_spec(s[p as int]) {
        p
    } else {
        ident_end(s, p + 1)
    }
}

/// How many newline characters `s` holds in positions `lo <= i < hi`.
pub open spec fn newline_count(s: Seq<char>, lo: nat, hi: nat) -> nat
    decreases hi - lo,
{
    if lo >= hi {
        0
    } else {
        (if s[lo as int] == '\n' {
            1nat
        } else {
            0nat
        }) + newline_count(s, lo + 1, hi)
    }
}

/// The fixed keyword table: which token kind an identifier's text denotes.
pub open spec fn keyword_kind(text: Seq<char>) -> TokenType {
    if text == "and"@ {
        TokenType::AND
    } else if text == "class"@ {
        TokenType::CLASS
    } else if text == "else"@ {
        TokenType::ELSE
    } else if text == "false"@ {
        TokenType::FALSE
    } else if text == "for"@ {
        TokenType::FOR
    } else if text == "fun"@ {
        TokenType::FUN
    } else if text == "if"@ {
        TokenType::IF
    } else if text == "nil"@ {
        TokenType::NIL
    } else if text == "or"@ {
        TokenType::OR
    } else if text == "print"@ {
        TokenType::PRINT
    } else if text == "return"@ {
        TokenType::RETURN
    } else if text == "super"@ {
        TokenType::SUPER
    } else if text == "this"@ {
        TokenType::THIS
    } else if text == "true"@ {
        TokenType::TRUE
    } else if text == "var"@ {
        TokenType::VAR
    } else if text == "while"@ {
        TokenType::WHILE
    } else {
        TokenType::IDENTIFIER
    }
}

/// What one scanning step emits and where it leaves the cursor and the line
/// counter. Meaningful for `pos < s.len()`.
pub ghost struct ScanStep {
    pub next: nat,
    pub line: nat,
    pub tokens: Seq<TokenV>,
    pub diags: Seq<DiagV>,
}

/// One token of `kind` whose lexeme is `s[pos..end]`, carrying no literal.
pub open spec fn step_token(s: Seq<char>, pos: nat, end: nat, line: nat, kind: TokenType) -> ScanStep {
    ScanStep {
        next: end,
        line,
        tokens: seq![
            TokenV {
                kind,
                lexeme: s.subrange(pos as int, end as int),
                literal: Seq::<char>::empty(),
                line,
            },
        ],
        diags: seq![],
    }
}

/// Nothing emitted; the cursor moves to `next`.
pub open spec fn step_skip(next: nat, line: nat) -> ScanStep {
    ScanStep { next, line, tokens: seq![], diags: seq![] }
}

/// What scanning does at position `pos` of `s` when the line counter reads
/// `line`: single-character punctuation, maximal-munch two-character
/// operators, comments, whitespace, string and number literals, identifiers
/// and keywords, or a diagnostic for anything else.
pub open spec fn scan_step(s: Seq<char>, pos: nat, line: nat) -> ScanStep
    recommends
        pos < s.len(),
{
    let c = s[pos as int];
    if c == '(' {
        step_token(s, pos, pos + 1, line, TokenType::LeftParen)
    } else if c == ')' {
        step_token(s, pos, pos + 1, line, TokenType::RightParen)
    } else if c == '{' {
        step_token(s, pos, pos + 1, line, TokenType::LeftBrace)
    } else if c == '}' {
        step_token(s, pos, pos + 1, line, TokenType::RightBrace)
    } else if c == ',' {
        step_token(s, pos, pos + 1, line, TokenType::Comma)
    } else if c == '.' {
        step_token(s, pos, pos + 1, line, TokenType::Dot)
    } else if c == '-' {
        step_token(s, pos, pos + 1, line, TokenType::Minus)
    } else if c == '+' {
        step_token(s, pos, pos + 1, line, TokenType::Plus)
    } else if c == ';' {
        step_token(s, pos, pos + 1, line, TokenType::SEMICOLON)
    } else if c == '*' {
        step_token(s, pos, pos + 1, line, TokenType::STAR)
    } else if c == '!' {
        if pos + 1 < s.len() && s[pos + 1 as int] == '=' {
            step_token(s, pos, pos + 2, line, TokenType::BangEqual)
        } else {
            step_token(s, pos, pos + 1, line, TokenType::BANG)
        }
    } else if c == '=' {
        if pos + 1 < s.len() && s[pos + 1 as int] == '=' {
            step_token(s, pos, pos + 2, line, TokenType::EqualEqual)
        } else {
            step_token(s, pos, pos + 1, line, TokenType::EQUAL)
        }
    } else if c == '<' {
        if pos + 1 < s.len() && s[pos + 1 as int] == '=' {
            step_token(s, pos, pos + 2, line, TokenType::LessEqual)
        } else {
            step_token(s, pos, pos + 1, line, TokenType::LESS)
        }
    } else if c == '>' {
        if pos + 1 < s.len() && s[pos + 1 as int] == '=' {
            step_token(s, pos, pos + 2, line, TokenType::GreaterEqual)
        } else {
            step_token(s, pos, pos + 1, line, TokenType::GREATER)
        }
    } else if c == '/' {
        if pos + 1 < s.len() && s[pos + 1 as int] == '/' {
            step_skip(line_comment_end(s, pos + 2), line)
        } else {
            step_token(s, pos, pos + 1, line, TokenType::SLASH)
        }
    } else if c == ' ' || c == '\r' || c == '\t' {
        step_skip(pos + 1, line)
    } else if c == '\n' {
        step_skip(pos + 1, line + 1)
    } else if c == '"' {
        let e = string_body_end(s, pos + 1);
        if e >= s.len() {
            ScanStep {
                next: s.len(),
                line: line + newline_count(s, pos + 1, s.len()),
                tokens: seq![],
                diags: seq![DiagV { line, message: "Unterminated string"@ }],
            }
        } else {
            let tline = line + newline_count(s, pos + 1, e);
            ScanStep {
                next: e + 1,
                line: tline,
                tokens: seq![
                    TokenV {
                        kind: TokenType::STRING,
                        lexeme: s.subrange(pos as int, e + 1 as int),
                        literal: s.subrange(pos + 1 as int, e as int),
                        line: tline,
                    },
                ],
                diags: seq![],
            }
        }
    } else if is_digit_spec(c) {
        let d1 = digits_end(s, pos);
        let end = if d1 < s.len() && s[d1 as int] == '.' && d1 + 1 < s.len() && is_digit_spec(
            s[d1 + 1 as int],
        ) {
            digits_end(s, d1 + 1)
        } else {
            d1
        };
        ScanStep {
            next: end,
            line,
            tokens: seq![
                TokenV {
                    kind: TokenType::NUMBER,
                    lexeme: s.subrange(pos as int, end as int),
                    literal: s.subrange(pos as int, end as int),
                    line,
                },
            ],
            diags: seq![],
        }
    } else if is_alpha_spec(c) {
        let e = ident_end(s, pos);
        step_token(s, pos, e, line, keyword_kind(s.subrange(pos as int, e as int)))
    } else {
        ScanStep {
            next: pos + 1,
            line,
            tokens: seq![],
            diags: seq![DiagV { line, message: "Unexpected character"@ }],
        }
    }
}

pub proof fn lemma_line_comment_end_bounds(s: Seq<char>, p: nat)
    requires
        p <= s.len(),
    ensures
        p <= line_comment_end(s, p) <= s.len(),
    decreases s.len() - p,
{
    if p < s.len() && s[p as int] != '\n' {
        lemma_line_comment_end_bounds(s, p + 1);
    }
}

pub proof fn lemma_string_body_end_bounds(s: Seq<char>, p: nat)
    requires
        p <= s.len(),
    ensures
        p <= string_body_end(s, p) <= s.len(),
    decreases s.len() - p,
{
    if p < s.len() && s[p as int] != '"' {
        lemma_string_body_end_bounds(s, p + 1);
    }
}

pub proof fn lemma_digits_end_bounds(s: Seq<char>, p: nat)
    requires
        p <= s.len(),
    ensures
        p <= digits_end(s, p) <= s.len(),
    decreases s.len() - p,
{
    if p < s.len() && is_digit_spec(s[p as int]) {
        lemma_digits_end_bounds(s, p + 1);
    }
}

pub proof fn lemma_ident_end_bounds(s: Seq<char>, p: nat)
    requires
        p <= s.len(),
    ensures
        p <= ident_end(s, p) <= s.len(),
    decreases s.len() - p,
{
    if p < s.len() && is_alpha_numeric_spec(s[p as int]) {
        lemma_ident_end_bounds(s, p + 1);
    }
}

/// Every scanning step consumes at least one character and stays in bounds.
pub proof fn lemma_scan_step_progress(s: Seq<char>, pos: nat, line: nat)
    requires
        pos < s.len(),
    ensures
        pos < scan_step(s, pos, line).next <= s.len(),
{
    let c = s[pos as int];
    if c == '/' && pos + 1 < s.len() && s[pos + 1 as int] == '/' {
        lemma_line_comment_end_bounds(s, pos + 2);
    } else if c == '"' {
        lemma_string_body_end_bounds(s, pos + 1);
    } else if is_digit_spec(c) {
        let d1 = digits_end(s, pos);
        lemma_digits_end_bounds(s, pos + 1);
        assert(digits_end(s, pos) == digits_end(s, pos + 1));
        if d1 < s.len() && s[d1 as int] == '.' && d1 + 1 < s.len() && is_digit_spec(s[d1 + 1 as int]) {
            lemma_digits_end_bounds(s, d1 + 1);
        }
    } else if c == '(' || c == ')' || c == '{' || c == '}' || c == ',' || c == '.' || c == '-'
        || c == '+' || c == ';' || c == '*' || c == '!' || c == '=' || c == '<' || c == '>' || c
        == '/' || c == ' ' || c == '\r' || c == '\t' || c == '\n' {
    } else if is_alpha_spec(c) {
        lemma_ident_end_bounds(s, pos + 1);
        assert(ident_end(s, pos) == ident_end(s, pos + 1));
    }
}

/// Everything scanning emits from a position on, and the final line count.
pub ghost struct ScanResult {
    pub tokens: Seq<TokenV>,
    pub diags: Seq<DiagV>,
    pub line: nat,
}

/// The tokens and diagnostics that scanning emits from position `pos` of `s`
/// to the end of input, starting with the line counter at `line`.
pub open spec fn scan_from(s: Seq<char>, pos: nat, line: nat) -> ScanResult
    decreases s.len() - pos,
    when pos <= s.len()
    via scan_from_decreases
{
    if pos >= s.len() {
        ScanResult { tokens: seq![], diags: seq![], line }
    } else {
        let st = scan_step(s, pos, line);
        let rest = scan_from(s, st.next, st.line);
        ScanResult { tokens: st.tokens + rest.tokens, diags: st.diags + rest.diags, line: rest.line }
    }
}

#[via_fn]
proof fn scan_from_decreases(s: Seq<char>, pos: nat, line: nat) {
    if pos < s.len() {
        lemma_scan_step_progress(s, pos, line);
    }
}

/// What scanning a whole source text yields: its token sequence and its
/// diagnostic sequence, with the line counter starting at 1.
pub open spec fn scan_spec(s: Seq<char>) -> ScanResult {
    scan_from(s, 0, 1)
}

pub proof fn lemma_newline_count_snoc(s: Seq<char>, lo: nat, hi: nat)
    requires
        lo <= hi,
    ensures
        newline_count(s, lo, hi + 1) == newline_count(s, lo, hi) + (if s[hi as int] == '\n' {
            1nat
        } else {
            0nat
        }),
    decreases hi - lo,
{
    if lo < hi {
        lemma_newline_count_snoc(s, lo + 1, hi);
    } else {
        reveal_with_fuel(newline_count, 2);
    }
}

/// The executable exact-match lookup against the fixed keyword table.
fn keyword_lookup(text: &String) -> (t: TokenType)
    ensures
        t == keyword_kind(text@),
{
    if *text == String::from_str("and") {
        TokenType::AND
    } else if *text == String::from_str("class") {
        TokenType::CLASS
    } else if *text == String::from_str("else") {
        TokenType::ELSE
    } else if *text == String::from_str("false") {
        TokenType::FALSE
    } else if *text == String::from_str("for") {
        TokenType::FOR
    } else if *text == String::from_str("fun") {
        TokenType::FUN
    } else if *text == String::from_str("if") {
        TokenType::IF
    } else if *text == String::from_str("nil") {
        TokenType::NIL
    } else if *text == String::from_str("or") {
        TokenType::OR
    } else if *text == String::from_str("print") {
        TokenType::PRINT
    } else if *text == String::from_str("return") {
        TokenType::RETURN
    } else if *text == String::from_str("super") {
        TokenType::SUPER
    } else if *text == String::from_str("this") {
        TokenType::THIS
    } else if *text == String::from_str("true") {
        TokenType::TRUE
    } else if *text == String::from_str("var") {
        TokenType::VAR
    } else if *text == String::from_str("while") {
        TokenType::WHILE
    } else {
        TokenType::IDENTIFIER
    }
}

fn is_digit(c: char) -> (b: bool)
    ensures
        b == is_digit_spec(c),
{
    c >= '0' && c <= '9'
}

fn is_alpha(c: char) -> (b: bool)
    ensures
        b == is_alpha_spec(c),
{
    (c >= 'a' && c <= 'z') || (c >= 'A' && c <= 'Z') || c == '_'
}

fn is_alpha_numeric(c: char) -> (b: bool)
    ensures
        b == is_alpha_numeric_spec(c),
{
    is_digit(c) || is_alpha(c)
}

/// A single pass over one source buffer. `start` marks where the token being
/// scanned begins, `current` the cursor, `line` the 1-based line count.
pub struct Scanner {
    pub source: String,
    pub tokens: Vec<Token>,
    pub errors: Vec<Diagnostic>,
    pub start: usize,
    pub current: usize,
    pub line: usize,
}

impl Scanner {
    /// The states scanning moves through: the cursor is inside the source,
    /// `start` does not pass it, and the line count cannot outgrow what the
    /// consumed characters allow.
    pub open spec fn wf(&self) -> bool {
        &&& self.start <= self.current
        &&& self.current <= self.source@.len()
        &&& self.source@.len() < usize::MAX
        &&& self.line <= self.current + 1
    }

    pub fn new(source: &String) -> (sc: Scanner)
        requires
            source@.len() < usize::MAX,
        ensures
            sc.wf(),
            sc.source@ == source@,
            sc.tokens@.len() == 0,
            sc.errors@.len() == 0,
            sc.start == 0,
            sc.current == 0,
            sc.line == 1,
    {
        Scanner {
            source: source.clone(),
            tokens: Vec::new(),
            errors: Vec::new(),
            start: 0,
            current: 0,
            line: 1,
        }
    }

    fn is_at_end(&self) -> (b: bool)
        ensures
            b == (self.current >= self.source@.len()),
    {
        self.current >= self.source.as_str().unicode_len()
    }

    /// Consumes and returns the character under the cursor.
    fn advance(&mut self) -> (c: char)
        requires
            old(self).current < old(self).source@.len(),
            old(self).source@.len() <= usize::MAX,
        ensures
            c == old(self).source@[old(self).current as int],
            *final(self) == (Scanner { current: (old(self).current + 1) as usize, ..*old(self) }),
    {
        let c = self.source.as_str().get_char(self.current);
        self.current = self.current + 1;
        c
    }

    /// The character under the cursor, or `'\0'` past the end of input.
    fn peek(&self) -> (c: char)
        ensures
            c == (if self.current < self.source@.len() {
                self.source@[self.current as int]
            } else {
                '\0'
            }),
    {
        if self.is_at_end() {
            '\0'
        } else {
            self.source.as_str().get_char(self.current)
        }
    }

    /// The character after the cursor, or `'\0'` past the end of input.
    fn peek_next(&self) -> (c: char)
        requires
            self.current < usize::MAX,
        ensures
            c == (if self.current + 1 < self.source@.len() {
                self.source@[self.current + 1]
            } else {
                '\0'
            }),
    {
        if self.current + 1 >= self.source.as_str().unicode_len() {
            '\0'
        } else {
            self.source.as_str().get_char(self.current + 1)
        }
    }

    /// Whether the character under the cursor is `expected`.
    fn match_next(&self, expected: char) -> (b: bool)
        ensures
            b == (self.current < self.source@.len() && self.source@[self.current as int]
                == expected),
    {
        if self.is_at_end() {
            return false;
        }
        if self.source.as_str().get_char(self.current) != expected {
            return false;
        }
        true
    }

    /// Appends a token of `token_type` whose lexeme is the source text from
    /// `start` to the cursor, carrying `literal` and the current line.
    fn add_token(&mut self, token_type: TokenType, literal: &String)
        requires
            old(self).start <= old(self).current,
            old(self).current <= old(self).source@.len(),
        ensures
            toks_view(final(self).tokens@) == toks_view(old(self).tokens@) + seq![
                TokenV {
                    kind: token_type,
                    lexeme: old(self).source@.subrange(
                        old(self).start as int,
                        old(self).current as int,
                    ),
                    literal: literal@,
                    line: old(self).line as nat,
                },
            ],
            final(self).source == old(self).source,
            final(self).errors == old(self).errors,
            final(self).start == old(self).start,
            final(self).current == old(self).current,
            final(self).line == old(self).line,
    {
        let text = String::from_str(self.source.as_str().substring_char(self.start, self.current));
        let tok = Token::new(token_type, &text, literal, self.line);
        proof {
            lemma_toks_view_push(self.tokens@, tok);
        }
        self.tokens.push(tok);
    }

    /// Scans the rest of a string literal. The opening quote stands at
    /// `start` and has been consumed: either the body ends in a closing
    /// quote and one STRING token is appended, or input runs out first and
    /// one "Unterminated string" diagnostic is reported at the line the
    /// string opened on.
    fn string(&mut self)
        requires
            old(self).source@.len() < usize::MAX,
            old(self).start + 1 == old(self).current,
            old(self).current <= old(self).source@.len(),
            old(self).source@[old(self).start as int] == '"',
            old(self).line <= old(self).current,
        ensures
            ({
                let s = old(self).source@;
                let body = old(self).current as nat;
                let e = string_body_end(s, body);
                &&& final(self).source == old(self).source
                &&& final(self).start == old(self).start
                &&& (if e >= s.len() {
                    &&& final(self).current == s.len()
                    &&& final(self).line == old(self).line + newline_count(s, body, s.len())
                    &&& final(self).tokens == old(self).tokens
                    &&& diags_view(final(self).errors@) == diags_view(old(self).errors@) + seq![
                        DiagV { line: old(self).line as nat, message: "Unterminated string"@ },
                    ]
                } else {
                    let tline = old(self).line + newline_count(s, body, e);
                    &&& final(self).current == e + 1
                    &&& final(self).line == tline
                    &&& final(self).errors == old(self).errors
                    &&& toks_view(final(self).tokens@) == toks_view(old(self).tokens@) + seq![
                        TokenV {
                            kind: TokenType::STRING,
                            lexeme: s.subrange(old(self).start as int, e + 1 as int),
                            literal: s.subrange(old(self).start + 1 as int, e as int),
                            line: tline as nat,
                        },
                    ]
                })
                &&& final(self).line <= final(self).current + 1
            }),
    {
        let ghost s = self.source@;
        let ghost c0 = self.current as nat;
        let line0 = self.line;
        let ghost l0 = self.line;
        while self.peek() != '"' && !self.is_at_end()
            invariant
                self.source == old(self).source,
                self.source@ == s,
                self.start == old(self).start,
                self.tokens == old(self).tokens,
                self.errors == old(self).errors,
                c0 <= self.current <= s.len(),
                s.len() < usize::MAX,
                string_body_end(s, c0) == string_body_end(s, self.current as nat),
                self.line == l0 + newline_count(s, c0, self.current as nat),
                l0 <= c0,
                self.line <= self.current,
            decreases s.len() - self.current,
        {
            proof {
                lemma_newline_count_snoc(s, c0, self.current as nat);
            }
            if self.peek() == '\n' {
                self.line = self.line + 1;
            }
            let _ = self.advance();
        }
        proof {
            if self.current < s.len() {
                // the loop stopped on the closing quote
                assert(s[self.current as int] == '"');
            }
            assert(string_body_end(s, self.current as nat) == self.current as nat);
        }
        if self.is_at_end() {
            let d = Diagnostic::new(line0, "Unterminated string");
            proof {
                lemma_diags_view_push(self.errors@, d);
            }
            self.errors.push(d);
            return ;
        }
        let _ = self.advance();  // the closing quote
        let value = String::from_str(
            self.source.as_str().substring_char(self.start + 1, self.current - 1),
        );
        self.add_token(TokenType::STRING, &value);
    }

    /// Scans the rest of a number literal whose first digit stands at
    /// `start` and has been consumed: the remaining digits, and a fractional
    /// part only when a `.` is directly followed by a digit. Appends one
    /// NUMBER token whose literal text equals its lexeme.
    fn number(&mut self)
        requires
            old(self).source@.len() < usize::MAX,
            old(self).start + 1 == old(self).current,
            old(self).current <= old(self).source@.len(),
            is_digit_spec(old(self).source@[old(self).start as int]),
        ensures
            ({
                let s = old(self).source@;
                let pos = old(self).start as nat;
                let d1 = digits_end(s, pos);
                let end = if d1 < s.len() && s[d1 as int] == '.' && d1 + 1 < s.len()
                    && is_digit_spec(s[d1 + 1 as int]) {
                    digits_end(s, d1 + 1)
                } else {
                    d1
                };
                &&& final(self).source == old(self).source
                &&& final(self).start == old(self).start
                &&& final(self).line == old(self).line
                &&& final(self).errors == old(self).errors
                &&& final(self).current == end
                &&& toks_view(final(self).tokens@) == toks_view(old(self).tokens@) + seq![
                    TokenV {
                        kind: TokenType::NUMBER,
                        lexeme: s.subrange(pos as int, end as int),
                        literal: s.subrange(pos as int, end as int),
                        line: old(self).line as nat,
                    },
                ]
            }),
    {
        let ghost s = self.source@;
        let ghost pos = self.start as nat;
        proof {
            assert(digits_end(s, pos) == digits_end(s, pos + 1));
        }
        while is_digit(self.peek())
            invariant
                self.source == old(self).source,
                self.source@ == s,
                self.start == old(self).start,
                self.tokens == old(self).tokens,
                self.errors == old(self).errors,
                self.line == old(self).line,
                pos < self.current <= s.len(),
                s.len() < usize::MAX,
                digits_end(s, pos) == digits_end(s, self.current as nat),
            decreases s.len() - self.current,
        {
            let _ = self.advance();
        }
        assert(self.current as nat == digits_end(s, pos));
        if self.peek() == '.' && is_digit(self.peek_next()) {
            let _ = self.advance();  // consume the '.'
            proof {
                assert(digits_end(s, self.current as nat) == digits_end(
                    s,
                    (self.current + 1) as nat,
                ));
            }
            while is_digit(self.peek())
                invariant
                    self.source == old(self).source,
                    self.source@ == s,
                    self.start == old(self).start,
                    self.tokens == old(self).tokens,
                    self.errors == old(self).errors,
                    self.line == old(self).line,
                    pos < self.current <= s.len(),
                    s.len() < usize::MAX,
                    digits_end(s, digits_end(s, pos) + 1) == digits_end(s, self.current as nat),
                decreases s.len() - self.current,
            {
                let _ = self.advance();
            }
        }
        let text = String::from_str(self.source.as_str().substring_char(self.start, self.current));
        self.add_token(TokenType::NUMBER, &text);
    }

    /// Scans the rest of an identifier whose first character stands at
    /// `start` and has been consumed, then classifies the text against the
    /// fixed keyword table. Appends one token with no literal text.
    fn identifier(&mut self)
        requires
            old(self).source@.len() < usize::MAX,
            old(self).start + 1 == old(self).current,
            old(self).current <= old(self).source@.len(),
            is_alpha_spec(old(self).source@[old(self).start as int]),
        ensures
            ({
                let s = old(self).source@;
                let pos = old(self).start as nat;
                let end = ident_end(s, pos);
                &&& final(self).source == old(self).source
                &&& final(self).start == old(self).start
                &&& final(self).line == old(self).line
                &&& final(self).errors == old(self).errors
                &&& final(self).current == end
                &&& toks_view(final(self).tokens@) == toks_view(old(self).tokens@) + seq![
                    TokenV {
                        kind: keyword_kind(s.subrange(pos as int, end as int)),
                        lexeme: s.subrange(pos as int, end as int),
                        literal: Seq::<char>::empty(),
                        line: old(self).line as nat,
                    },
                ]
            }),
    {
        let ghost s = self.source@;
        let ghost pos = self.start as nat;
        proof {
            assert(ident_end(s, pos) == ident_end(s, pos + 1));
        }
        while is_alpha_numeric(self.peek())
            invariant
                self.source == old(self).source,
                self.source@ == s,
                self.start == old(self).start,
                self.tokens == old(self).tokens,
                self.errors == old(self).errors,
                self.line == old(self).line,
                pos < self.current <= s.len(),
                s.len() < usize::MAX,
                ident_end(s, pos) == ident_end(s, self.current as nat),
            decreases s.len() - self.current,
        {
            let _ = self.advance();
        }
        let text = String::from_str(self.source.as_str().substring_char(self.start, self.current));
        let kind = keyword_lookup(&text);
        self.add_empty_token(kind);
    }

    /// Scans one token (or skipped text) beginning at the cursor: exactly
    /// the step `scan_step` describes at this position.
    fn scan_token(&mut self)
        requires
            old(self).wf(),
            old(self).current < old(self).source@.len(),
            old(self).start == old(self).current,
        ensures
            ({
                let st = scan_step(old(self).source@, old(self).current as nat, old(self).line as nat);
                &&& final(self).wf()
                &&& final(self).source == old(self).source
                &&& final(self).start == old(self).start
                &&& final(self).current == st.next
                &&& final(self).line == st.line
                &&& toks_view(final(self).tokens@) == toks_view(old(self).tokens@) + st.tokens
                &&& diags_view(final(self).errors@) == diags_view(old(self).errors@) + st.diags
            }),
    {
        let ghost s = self.source@;
        let ghost pos = self.current as nat;
        let ghost ln = self.line as nat;
        proof {
            lemma_scan_step_progress(s, pos, ln);
            assert(toks_view(old(self).tokens@) + Seq::<TokenV>::empty() =~= toks_view(
                old(self).tokens@,
            ));
            assert(diags_view(old(self).errors@) + Seq::<DiagV>::empty() =~= diags_view(
                old(self).errors@,
            ));
        }
        let c = self.advance();
        match c {
            // Single lexemes
            '(' => self.add_empty_token(TokenType::LeftParen),
            ')' => self.add_empty_token(TokenType::RightParen),
            '{' => self.add_empty_token(TokenType::LeftBrace),
            '}' => self.add_empty_token(TokenType::RightBrace),
            ',' => self.add_empty_token(TokenType::Comma),
            '.' => self.add_empty_token(TokenType::Dot),
            '-' => self.add_empty_token(TokenType::Minus),
            '+' => self.add_empty_token(TokenType::Plus),
            ';' => self.add_empty_token(TokenType::SEMICOLON),
            '*' => self.add_empty_token(TokenType::STAR),
            // Operators: the two-character form is preferred when it is there
            '!' => {
                if self.match_next('=') {
                    let _ = self.advance();
                    self.add_empty_token(TokenType::BangEqual);
                } else {
                    self.add_empty_token(TokenType::BANG);
                }
            },
            '=' => {
                if self.match_next('=') {
                    let _ = self.advance();
                    self.add_empty_token(TokenType::EqualEqual);
                } else {
                    self.add_empty_token(TokenType::EQUAL);
                }
            },
            '<' => {
                if self.match_next('=') {
                    let _ = self.advance();
                    self.add_empty_token(TokenType::LessEqual);
                } else {
                    self.add_empty_token(TokenType::LESS);
                }
            },
            '>' => {
                if self.match_next('=') {
                    let _ = self.advance();
                    self.add_empty_token(TokenType::GreaterEqual);
                } else {
                    self.add_empty_token(TokenType::GREATER);
                }
            },
            // A second slash starts a comment running to the end of the line
            '/' => {
                if self.match_next('/') {
                    let _ = self.advance();
                    while self.peek() != '\n' && !self.is_at_end()
                        invariant
                            self.source == old(self).source,
                            self.source@ == s,
                            self.start == old(self).start,
                            self.tokens == old(self).tokens,
                            self.errors == old(self).errors,
                            self.line == old(self).line,
                            pos + 2 <= self.current <= s.len(),
                            s.len() < usize::MAX,
                            line_comment_end(s, (pos + 2) as nat) == line_comment_end(
                                s,
                                self.current as nat,
                            ),
                        decreases s.len() - self.current,
                    {
                        let _ = self.advance();
                    }
                } else {
                    self.add_empty_token(TokenType::SLASH);
                }
            },
            // Whitespace
            ' ' | '\r' | '\t' => {},
            '\n' => {
                self.line = self.line + 1;
            },
            // Strings
            '"' => self.string(),
            _ => {
                if is_digit(c) {
                    self.number();
                } else if is_alpha(c) {
                    self.identifier();
                } else {
                    let d = Diagnostic::new(self.line, "Unexpected character");
                    proof {
                        lemma_diags_view_push(self.errors@, d);
                    }
                    self.errors.push(d);
                }
            },
        }
    }

    /// Scans the whole remaining source, appending the tokens and
    /// diagnostics that `scan_from` describes, and returns the tokens.
    /// Always succeeds: a lexical error never aborts the pass.
    pub fn scan_tokens(&mut self) -> (r: Result<Vec<Token>, ()>)
        requires
            old(self).wf(),
        ensures
            ({
                let res = scan_from(old(self).source@, old(self).current as nat, old(self).line as nat);
                &&& final(self).wf()
                &&& final(self).source == old(self).source
                &&& final(self).current == old(self).source@.len()
                &&& final(self).line == res.line
                &&& toks_view(final(self).tokens@) == toks_view(old(self).tokens@) + res.tokens
                &&& diags_view(final(self).errors@) == diags_view(old(self).errors@) + res.diags
                &&& r is Ok
                &&& toks_view(r->Ok_0@) == toks_view(final(self).tokens@)
            }),
    {
        let ghost s = self.source@;
        let ghost c0 = self.current as nat;
        let ghost l0 = self.line as nat;
        while !self.is_at_end()
            invariant
                self.wf(),
                self.source == old(self).source,
                self.source@ == s,
                toks_view(old(self).tokens@) + scan_from(s, c0, l0).tokens == toks_view(
                    self.tokens@,
                ) + scan_from(s, self.current as nat, self.line as nat).tokens,
                diags_view(old(self).errors@) + scan_from(s, c0, l0).diags == diags_view(
                    self.errors@,
                ) + scan_from(s, self.current as nat, self.line as nat).diags,
                scan_from(s, c0, l0).line == scan_from(s, self.current as nat, self.line as nat).line,
            decreases s.len() - self.current,
        {
            self.start = self.current;
            let ghost pre = *self;
            self.scan_token();
            proof {
                let st = scan_step(s, pre.current as nat, pre.line as nat);
                lemma_scan_step_progress(s, pre.current as nat, pre.line as nat);
                let rest_t = scan_from(s, st.next, st.line).tokens;
                let rest_d = scan_from(s, st.next, st.line).diags;
                assert((toks_view(pre.tokens@) + st.tokens) + rest_t =~= toks_view(pre.tokens@) + (
                st.tokens + rest_t));
                assert((diags_view(pre.errors@) + st.diags) + rest_d =~= diags_view(pre.errors@) + (
                st.diags + rest_d));
            }
        }
        proof {
            assert(toks_view(self.tokens@) + Seq::<TokenV>::empty() =~= toks_view(self.tokens@));
            assert(diags_view(self.errors@) + Seq::<DiagV>::empty() =~= diags_view(self.errors@));
        }
        let result = self.tokens.clone();
        proof {
            assert forall|i: int| 0 <= i < self.tokens@.len() implies result@[i]
                == self.tokens@[i] by {
                assert(cloned::<Token>(self.tokens@[i], result@[i]));
            }
            assert(result@ =~= self.tokens@);
        }
        Ok(result)
    }

    /// Appends a token of `token_type` with no literal text.
    fn add_empty_token(&mut self, token_type: TokenType)
        requires
            old(self).start <= old(self).current,
            old(self).current <= old(self).source@.len(),
        ensures
            toks_view(final(self).tokens@) == toks_view(old(self).tokens@) + seq![
                TokenV {
                    kind: token_type,
                    lexeme: old(self).source@.subrange(
                        old(self).start as int,
                        old(self).current as int,
                    ),
                    literal: Seq::<char>::empty(),
                    line: old(self).line as nat,
                },
            ],
            final(self).source == old(self).source,
            final(self).errors == old(self).errors,
            final(self).start == old(self).start,
            final(self).current == old(self).current,
            final(self).line == old(self).line,
    {
        let empty = String::new();
        self.add_token(token_type, &empty);
    }
}

} // verus!
