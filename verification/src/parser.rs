//! The parser: consumes a token sequence left to right and builds an
//! expression tree, collecting diagnostics instead of stopping at the
//! first problem.
//!
//! The grammar is a fixed precedence ladder, lowest binding strength first:
//! equality (`==` `!=`), comparison (`<` `<=` `>` `>=`), term (`+` `-`),
//! factor (`*` `/`), then right-associative prefix unary (`!` `-`), then
//! primary: a literal or a parenthesised expression. Each binary level
//! parses one operand at the next level up, then folds further operands
//! onto the left, which makes every binary level left-associative.
//!
//! The behaviour is fixed by the `parse_*_spec` functions below; the
//! executable `Parser` is proved to produce exactly what they say. An
//! explicit depth budget bounds recursion on pathological nesting: running
//! out of it reports "Exceeded maximum expression nesting" and fails that
//! parse attempt.

use vstd::prelude::*;

use crate::error::{diags_view, lemma_diags_view_push, DiagV, Diagnostic};
use crate::node::{lemma_nodes_view, node_view, nodes_view, Node, NodeType, NodeV};
use crate::token::{toks_view, Token, TokenType, TokenV};

verus! {

/// The depth budget `Parser::new` starts with: plenty for real programs,
/// small enough to keep pathological nesting off the native call stack.
pub const DEFAULT_MAX_DEPTH: usize = 64;

/// Whether `k` is a binary operator of the given precedence level:
/// 0 equality, 1 comparison, 2 term, 3 factor.
pub open spec fn level_op(level: nat, k: TokenType) -> bool {
    if level == 0 {
        k == TokenType::EqualEqual || k == TokenType::BangEqual
    } else if level == 1 {
        k == TokenType::LESS || k == TokenType::LessEqual || k == TokenType::GREATER || k
            == TokenType::GreaterEqual
    } else if level == 2 {
        k == TokenType::Plus || k == TokenType::Minus
    } else {
        k == TokenType::STAR || k == TokenType::SLASH
    }
}

/// Whether `k` is any binary operator of the grammar.
pub open spec fn binary_op(k: TokenType) -> bool {
    level_op(0, k) || level_op(1, k) || level_op(2, k) || level_op(3, k)
}

/// Whether a token of kind `k` opens a literal: a number, a string, or one
/// of the keyword literals.
pub open spec fn literal_kind(k: TokenType) -> bool {
    k == TokenType::NUMBER || k == TokenType::STRING || k == TokenType::TRUE || k
        == TokenType::FALSE || k == TokenType::NIL
}

/// The line to report a problem at `pos` on: the token's line, or 0 past
/// the end of input (the placeholder token's line).
pub open spec fn line_at(t: Seq<TokenV>, pos: nat) -> nat {
    if pos < t.len() {
        t[pos as int].line
    } else {
        0
    }
}

/// The kind of the token at `pos`, or the placeholder kind past the end.
pub open spec fn kind_at(t: Seq<TokenV>, pos: nat) -> TokenType {
    if pos < t.len() {
        t[pos as int].kind
    } else {
        TokenType::Empty
    }
}

/// Whether a token of kind `k` plausibly begins a new statement: a safe
/// place for recovery to restart at.
pub open spec fn sync_boundary(k: TokenType) -> bool {
    k == TokenType::CLASS || k == TokenType::FUN || k == TokenType::VAR || k == TokenType::FOR || k
        == TokenType::IF || k == TokenType::WHILE || k == TokenType::PRINT || k
        == TokenType::RETURN
}

/// Where recovery from `pos` stops: just past the next `;`, in front of
/// the next statement keyword, or at the end of input, whichever comes
/// first.
pub open spec fn sync_end(t: Seq<TokenV>, pos: nat) -> nat
    decreases t.len() - pos,
    when pos <= t.len()
{
    if pos >= t.len() {
        pos
    } else if t[pos as int].kind == TokenType::SEMICOLON {
        pos + 1
    } else if sync_boundary(t[pos as int].kind) {
        pos
    } else {
        sync_end(t, pos + 1)
    }
}

/// What one parsing attempt yields: the node built (or nothing, on
/// failure), where the cursor stands afterwards, and the diagnostics
/// emitted along the way.
pub ghost struct ParseOut {
    pub node: Option<NodeV>,
    pub next: nat,
    pub diags: Seq<DiagV>,
}

/// A failed attempt that leaves the cursor at `pos` and reports nothing:
/// the current token simply does not start the construct asked about.
pub open spec fn parse_no_match(pos: nat) -> ParseOut {
    ParseOut { node: None, next: pos, diags: seq![] }
}

/// A failed attempt that reports the depth budget ran out.
pub open spec fn parse_depth_out(t: Seq<TokenV>, pos: nat) -> ParseOut {
    ParseOut {
        node: None,
        next: pos,
        diags: seq![
            DiagV { line: line_at(t, pos), message: "Exceeded maximum expression nesting"@ },
        ],
    }
}

/// What parsing an operator does at `pos`: any binary operator is consumed
/// and handed back as an Operator node carrying its token.
pub open spec fn parse_operator_spec(t: Seq<TokenV>, pos: nat, depth: nat) -> ParseOut {
    if depth == 0 {
        parse_no_match(pos)
    } else if pos < t.len() && binary_op(t[pos as int].kind) {
        ParseOut {
            node: Some(
                NodeV { node_type: NodeType::Operator, children: seq![], token: t[pos as int] },
            ),
            next: pos + 1,
            diags: seq![],
        }
    } else {
        parse_no_match(pos)
    }
}

/// What parsing a literal does at `pos`: a number, string, `true`, `false`
/// or `nil` token is consumed and handed back as a Literal leaf carrying
/// its token.
pub open spec fn parse_literal_spec(t: Seq<TokenV>, pos: nat, depth: nat) -> ParseOut {
    if depth == 0 {
        parse_no_match(pos)
    } else if pos < t.len() && literal_kind(t[pos as int].kind) {
        ParseOut {
            node: Some(
                NodeV { node_type: NodeType::Literal, children: seq![], token: t[pos as int] },
            ),
            next: pos + 1,
            diags: seq![],
        }
    } else {
        parse_no_match(pos)
    }
}

/// What parsing a whole expression does at `pos`: the lowest level of the
/// binary precedence ladder.
pub open spec fn parse_expression_spec(t: Seq<TokenV>, pos: nat, depth: nat) -> ParseOut
    decreases depth, t.len() - pos, 6int,
    when pos <= t.len()
{
    parse_level_spec(t, pos, 0, depth)
}

/// What one binary precedence level does at `pos`: parse one operand at
/// the next level up, then fold further operands onto the left.
pub open spec fn parse_level_spec(t: Seq<TokenV>, pos: nat, level: nat, depth: nat) -> ParseOut
    decreases depth, t.len() - pos, 4int,
    when pos <= t.len() && level <= 3
{
    if depth == 0 {
        parse_depth_out(t, pos)
    } else {
        let operand = parse_operand_spec(t, pos, level, (depth - 1) as nat);
        match operand.node {
            Option::Some(first) => {
                if pos < operand.next && operand.next <= t.len() {
                    let rest = parse_level_rest_spec(t, operand.next, level, first, depth);
                    ParseOut {
                        node: rest.node,
                        next: rest.next,
                        diags: operand.diags + rest.diags,
                    }
                } else {
                    // parsing always moves forward; nothing reaches this
                    ParseOut { node: None, next: operand.next, diags: operand.diags }
                }
            },
            Option::None => ParseOut { node: None, next: operand.next, diags: operand.diags },
        }
    }
}

/// The folding loop of one binary level, with `acc` the expression built
/// so far: while the token at `pos` is an operator of this level, consume
/// it, parse the next operand, and fold both into a Binary node whose left
/// child is `acc`.
pub open spec fn parse_level_rest_spec(
    t: Seq<TokenV>,
    pos: nat,
    level: nat,
    acc: NodeV,
    depth: nat,
) -> ParseOut
    decreases depth, t.len() - pos, 0int,
    when pos <= t.len() && level <= 3 && depth >= 1
{
    if pos < t.len() && level_op(level, t[pos as int].kind) {
        let op = t[pos as int];
        let operand = parse_operand_spec(t, pos + 1, level, (depth - 1) as nat);
        match operand.node {
            Option::Some(rhs) => {
                let acc2 = NodeV {
                    node_type: NodeType::Binary,
                    children: seq![acc, rhs],
                    token: op,
                };
                if pos + 1 < operand.next && operand.next <= t.len() {
                    let rest = parse_level_rest_spec(t, operand.next, level, acc2, depth);
                    ParseOut {
                        node: rest.node,
                        next: rest.next,
                        diags: operand.diags + rest.diags,
                    }
                } else {
                    // parsing always moves forward; nothing reaches this
                    ParseOut { node: None, next: operand.next, diags: operand.diags }
                }
            },
            Option::None => ParseOut { node: None, next: operand.next, diags: operand.diags },
        }
    } else {
        ParseOut { node: Some(acc), next: pos, diags: seq![] }
    }
}

/// What one operand of a binary level is: the next level up the ladder, or
/// a unary expression above the factor level.
pub open spec fn parse_operand_spec(t: Seq<TokenV>, pos: nat, level: nat, depth: nat) -> ParseOut
    decreases depth, t.len() - pos, 5int,
    when pos <= t.len() && level <= 3
{
    if level < 3 {
        parse_level_spec(t, pos, level + 1, depth)
    } else {
        parse_unary_spec(t, pos, depth)
    }
}

/// What parsing a unary expression does at `pos`: a `!` or `-` prefix
/// applied to another unary expression (right-associative), else a
/// primary.
pub open spec fn parse_unary_spec(t: Seq<TokenV>, pos: nat, depth: nat) -> ParseOut
    decreases depth, t.len() - pos, 3int,
    when pos <= t.len()
{
    if depth == 0 {
        parse_depth_out(t, pos)
    } else if pos < t.len() && (t[pos as int].kind == TokenType::BANG || t[pos as int].kind
        == TokenType::Minus) {
        let operand = parse_unary_spec(t, pos + 1, (depth - 1) as nat);
        match operand.node {
            Option::Some(inner) => ParseOut {
                node: Some(
                    NodeV {
                        node_type: NodeType::Unary,
                        children: seq![inner],
                        token: t[pos as int],
                    },
                ),
                next: operand.next,
                diags: operand.diags,
            },
            Option::None => ParseOut { node: None, next: operand.next, diags: operand.diags },
        }
    } else {
        parse_primary_spec(t, pos, depth)
    }
}

/// What parsing a primary does at `pos`: a literal, a parenthesised
/// expression, or the diagnostic "Expect expression." and a local failure.
pub open spec fn parse_primary_spec(t: Seq<TokenV>, pos: nat, depth: nat) -> ParseOut
    decreases depth, t.len() - pos, 2int,
    when pos <= t.len()
{
    if depth == 0 {
        parse_depth_out(t, pos)
    } else if literal_kind(kind_at(t, pos)) {
        parse_literal_spec(t, pos, depth)
    } else if kind_at(t, pos) == TokenType::LeftParen {
        parse_grouping_spec(t, pos, depth)
    } else {
        ParseOut {
            node: None,
            next: pos,
            diags: seq![DiagV { line: line_at(t, pos), message: "Expect expression."@ }],
        }
    }
}

/// What parsing a grouping does at `pos`: consume `(`, parse an
/// expression, and require `)`. When `)` is missing, report
/// "Expect ')' after expression" at the line of the opening `(` and still
/// hand back the Grouping node around what was parsed.
pub open spec fn parse_grouping_spec(t: Seq<TokenV>, pos: nat, depth: nat) -> ParseOut
    decreases depth, t.len() - pos, 1int,
    when pos <= t.len()
{
    if depth == 0 {
        parse_depth_out(t, pos)
    } else if !(pos < t.len() && t[pos as int].kind == TokenType::LeftParen) {
        parse_no_match(pos)
    } else {
        let inner = parse_expression_spec(t, pos + 1, (depth - 1) as nat);
        match inner.node {
            Option::Some(node) => {
                let grouping = NodeV {
                    node_type: NodeType::Grouping,
                    children: seq![node],
                    token: t[pos as int],
                };
                if inner.next < t.len() && t[inner.next as int].kind == TokenType::RightParen {
                    ParseOut { node: Some(grouping), next: inner.next + 1, diags: inner.diags }
                } else {
                    ParseOut {
                        node: Some(grouping),
                        next: inner.next,
                        diags: inner.diags + seq![
                            DiagV {
                                line: t[pos as int].line,
                                message: "Expect ')' after expression"@,
                            },
                        ],
                    }
                }
            },
            Option::None => ParseOut { node: None, next: inner.next, diags: inner.diags },
        }
    }
}

fn is_binary_op(k: TokenType) -> (b: bool)
    ensures
        b == binary_op(k),
{
    match k {
        TokenType::EqualEqual
        | TokenType::BangEqual
        | TokenType::LESS
        | TokenType::LessEqual
        | TokenType::GREATER
        | TokenType::GreaterEqual
        | TokenType::Plus
        | TokenType::Minus
        | TokenType::STAR
        | TokenType::SLASH => true,
        _ => false,
    }
}

fn is_literal_kind(k: TokenType) -> (b: bool)
    ensures
        b == literal_kind(k),
{
    match k {
        TokenType::NUMBER | TokenType::STRING | TokenType::TRUE | TokenType::FALSE
        | TokenType::NIL => true,
        _ => false,
    }
}

fn is_sync_boundary(k: TokenType) -> (b: bool)
    ensures
        b == sync_boundary(k),
{
    match k {
        TokenType::CLASS
        | TokenType::FUN
        | TokenType::VAR
        | TokenType::FOR
        | TokenType::IF
        | TokenType::WHILE
        | TokenType::PRINT
        | TokenType::RETURN => true,
        _ => false,
    }
}

fn is_level_op(level: usize, k: TokenType) -> (b: bool)
    requires
        level <= 3,
    ensures
        b == level_op(level as nat, k),
{
    if level == 0 {
        k == TokenType::EqualEqual || k == TokenType::BangEqual
    } else if level == 1 {
        k == TokenType::LESS || k == TokenType::LessEqual || k == TokenType::GREATER || k
            == TokenType::GreaterEqual
    } else if level == 2 {
        k == TokenType::Plus || k == TokenType::Minus
    } else {
        k == TokenType::STAR || k == TokenType::SLASH
    }
}

/// What every parsing method promises: the token sequence and the depth
/// bound are untouched, the cursor lands where the specification says,
/// exactly the specified diagnostics are appended, and the call succeeds
/// with exactly the specified node when the specification builds one.
pub open spec fn parse_post(pre: Parser, post: Parser, r: Result<Node, String>, out: ParseOut) -> bool {
    &&& post.wf()
    &&& post.tokens == pre.tokens
    &&& post.max_depth == pre.max_depth
    &&& post.current == out.next
    &&& diags_view(post.diagnostics@) == diags_view(pre.diagnostics@) + out.diags
    &&& (r is Ok <==> out.node is Some)
    &&& (r is Ok ==> out.node == Some(node_view(r->Ok_0)))
}

/// A single pass over one token sequence. The only parsing state is the
/// cursor; diagnostics accumulate as problems are found. `max_depth` is
/// the configurable bound on expression nesting.
pub struct Parser {
    pub tokens: Vec<Token>,
    pub current: usize,
    pub diagnostics: Vec<Diagnostic>,
    pub max_depth: usize,
}

impl Parser {
    /// The models of this parser's tokens.
    pub open spec fn toks(&self) -> Seq<TokenV> {
        toks_view(self.tokens@)
    }

    /// The cursor never leaves the token sequence.
    pub open spec fn wf(&self) -> bool {
        self.current <= self.tokens@.len()
    }

    pub fn new(tokens: &Vec<Token>) -> (p: Parser)
        ensures
            p.wf(),
            p.tokens@ == tokens@,
            p.current == 0,
            p.diagnostics@.len() == 0,
            p.max_depth == DEFAULT_MAX_DEPTH,
    {
        let owned = tokens.clone();
        proof {
            assert forall|i: int| 0 <= i < tokens@.len() implies owned@[i] == tokens@[i] by {
                assert(cloned::<Token>(tokens@[i], owned@[i]));
            }
            assert(owned@ =~= tokens@);
        }
        Parser { tokens: owned, current: 0, diagnostics: Vec::new(), max_depth: DEFAULT_MAX_DEPTH }
    }

    /// Moves the cursor one token to the right.
    pub fn advance(&mut self)
        requires
            old(self).current < old(self).tokens@.len(),
        ensures
            final(self).current == old(self).current + 1,
            final(self).tokens == old(self).tokens,
            final(self).diagnostics == old(self).diagnostics,
            final(self).max_depth == old(self).max_depth,
    {
        let n = self.tokens.len();
        assert(self.current < n);
        self.current = self.current + 1;
    }

    /// The token under the cursor, or the placeholder token past the end
    /// of input, so callers can always peek without a bounds check.
    pub fn current_token(&self) -> (t: Token)
        ensures
            t@ == (if self.current < self.tokens@.len() {
                self.toks()[self.current as int]
            } else {
                TokenV {
                    kind: TokenType::Empty,
                    lexeme: Seq::<char>::empty(),
                    literal: Seq::<char>::empty(),
                    line: 0,
                }
            }),
    {
        if self.current < self.tokens.len() {
            self.tokens[self.current].clone()
        } else {
            Token::empty()
        }
    }

    /// Parses one binary operator token into an Operator node carrying it:
    /// exactly what `parse_operator_spec` says at the cursor.
    pub fn parse_operator(&mut self, recurse: usize) -> (r: Result<Node, String>)
        requires
            old(self).wf(),
        ensures
            parse_post(
                *old(self),
                *final(self),
                r,
                parse_operator_spec(old(self).toks(), old(self).current as nat, recurse as nat),
            ),
    {
        proof {
            assert(diags_view(self.diagnostics@) + Seq::<DiagV>::empty() =~= diags_view(
                self.diagnostics@,
            ));
        }
        if recurse == 0 {
            return Err(String::from_str("Exceeded maximum expression nesting"));
        }
        let tok = self.current_token();
        if is_binary_op(tok.token_type) {
            self.advance();
            let mut node = Node::new(NodeType::Operator, Vec::new());
            node.token = tok;
            proof {
                assert(nodes_view(Seq::<Node>::empty()) =~= Seq::<NodeV>::empty());
                assert(node_view(node).children =~= Seq::<NodeV>::empty());
            }
            Ok(node)
        } else {
            Err(String::new())
        }
    }

    /// Parses one literal token into a Literal leaf carrying it: exactly
    /// what `parse_literal_spec` says at the cursor.
    pub fn parse_literal(&mut self, recurse: usize) -> (r: Result<Node, String>)
        requires
            old(self).wf(),
        ensures
            parse_post(
                *old(self),
                *final(self),
                r,
                parse_literal_spec(old(self).toks(), old(self).current as nat, recurse as nat),
            ),
    {
        proof {
            assert(diags_view(self.diagnostics@) + Seq::<DiagV>::empty() =~= diags_view(
                self.diagnostics@,
            ));
        }
        if recurse == 0 {
            return Err(String::from_str("Exceeded maximum expression nesting"));
        }
        let tok = self.current_token();
        if is_literal_kind(tok.token_type) {
            self.advance();
            let mut node = Node::new(NodeType::Literal, Vec::new());
            node.token = tok;
            proof {
                assert(nodes_view(Seq::<Node>::empty()) =~= Seq::<NodeV>::empty());
                assert(node_view(node).children =~= Seq::<NodeV>::empty());
            }
            Ok(node)
        } else {
            Err(String::new())
        }
    }

    /// Reports that the depth budget ran out, at the current token's line,
    /// and hands back the failure.
    fn depth_out(&mut self) -> (r: Result<Node, String>)
        requires
            old(self).wf(),
        ensures
            parse_post(
                *old(self),
                *final(self),
                r,
                parse_depth_out(old(self).toks(), old(self).current as nat),
            ),
    {
        let line = self.current_token().line;
        let d = Diagnostic::new(line, "Exceeded maximum expression nesting");
        proof {
            lemma_diags_view_push(self.diagnostics@, d);
        }
        self.diagnostics.push(d);
        Err(String::from_str("Exceeded maximum expression nesting"))
    }

    /// Parses a grouping: `(`, an expression, `)`. When `)` is missing,
    /// reports "Expect ')' after expression" at the line of the opening
    /// `(` and still hands back the Grouping node: exactly what
    /// `parse_grouping_spec` says at the cursor.
    pub fn parse_grouping(&mut self, recurse: usize) -> (r: Result<Node, String>)
        requires
            old(self).wf(),
        ensures
            parse_post(
                *old(self),
                *final(self),
                r,
                parse_grouping_spec(old(self).toks(), old(self).current as nat, recurse as nat),
            ),
        decreases recurse, self.tokens@.len() - self.current, 1int,
    {
        let ghost t = self.toks();
        let ghost pos = self.current as nat;
        proof {
            assert(diags_view(self.diagnostics@) + Seq::<DiagV>::empty() =~= diags_view(
                self.diagnostics@,
            ));
        }
        if recurse == 0 {
            return self.depth_out();
        }
        let tok = self.current_token();
        if tok.token_type != TokenType::LeftParen {
            return Err(String::new());
        }
        self.advance();
        let inner = self.parse_exspression(recurse - 1);
        match inner {
            Ok(node) => {
                let ghost node_v = node_view(node);
                let ghost inner_out = parse_expression_spec(t, pos + 1, (recurse - 1) as nat);
                let children = vec![node];
                proof {
                    lemma_nodes_view(children@);
                    assert(nodes_view(children@) =~= seq![node_v]);
                }
                let open_line = tok.line;
                let mut grouping = Node::new(NodeType::Grouping, children);
                grouping.token = tok;
                if self.current_token().token_type == TokenType::RightParen {
                    self.advance();
                    Ok(grouping)
                } else {
                    let d = Diagnostic::new(open_line, "Expect ')' after expression");
                    proof {
                        lemma_diags_view_push(self.diagnostics@, d);
                        assert((diags_view(old(self).diagnostics@) + inner_out.diags) + seq![d@]
                            =~= diags_view(old(self).diagnostics@) + (inner_out.diags + seq![d@]));
                    }
                    self.diagnostics.push(d);
                    Ok(grouping)
                }
            },
            Err(e) => Err(e),
        }
    }

    /// Parses a unary expression: a `!` or `-` prefix applied to another
    /// unary expression, else a primary: exactly what `parse_unary_spec`
    /// says at the cursor.
    pub fn parse_unary(&mut self, recurse: usize) -> (r: Result<Node, String>)
        requires
            old(self).wf(),
        ensures
            parse_post(
                *old(self),
                *final(self),
                r,
                parse_unary_spec(old(self).toks(), old(self).current as nat, recurse as nat),
            ),
        decreases recurse, self.tokens@.len() - self.current, 3int,
    {
        let ghost t = self.toks();
        let ghost pos = self.current as nat;
        proof {
            assert(diags_view(self.diagnostics@) + Seq::<DiagV>::empty() =~= diags_view(
                self.diagnostics@,
            ));
        }
        if recurse == 0 {
            return self.depth_out();
        }
        let tok = self.current_token();
        if tok.token_type == TokenType::BANG || tok.token_type == TokenType::Minus {
            self.advance();
            let operand = self.parse_unary(recurse - 1);
            match operand {
                Ok(node) => {
                    let ghost node_v = node_view(node);
                    let children = vec![node];
                    proof {
                        lemma_nodes_view(children@);
                        assert(nodes_view(children@) =~= seq![node_v]);
                    }
                    let mut unary = Node::new(NodeType::Unary, children);
                    unary.token = tok;
                    Ok(unary)
                },
                Err(e) => Err(e),
            }
        } else {
            self.parse_primary(recurse)
        }
    }

    /// Parses a primary: a literal, a grouping, or the diagnostic
    /// "Expect expression." at the current token's line and a local
    /// failure: exactly what `parse_primary_spec` says at the cursor.
    fn parse_primary(&mut self, recurse: usize) -> (r: Result<Node, String>)
        requires
            old(self).wf(),
        ensures
            parse_post(
                *old(self),
                *final(self),
                r,
                parse_primary_spec(old(self).toks(), old(self).current as nat, recurse as nat),
            ),
        decreases recurse, self.tokens@.len() - self.current, 2int,
    {
        proof {
            assert(diags_view(self.diagnostics@) + Seq::<DiagV>::empty() =~= diags_view(
                self.diagnostics@,
            ));
        }
        if recurse == 0 {
            return self.depth_out();
        }
        let tok = self.current_token();
        if is_literal_kind(tok.token_type) {
            self.parse_literal(recurse)
        } else if tok.token_type == TokenType::LeftParen {
            self.parse_grouping(recurse)
        } else {
            let d = Diagnostic::new(tok.line, "Expect expression.");
            proof {
                lemma_diags_view_push(self.diagnostics@, d);
            }
            self.diagnostics.push(d);
            Err(String::from_str("Expect expression."))
        }
    }

    /// Parses one operand of a binary level: the next level up the
    /// ladder, or a unary expression above the factor level.
    fn parse_operand(&mut self, level: usize, recurse: usize) -> (r: Result<Node, String>)
        requires
            old(self).wf(),
            level <= 3,
        ensures
            parse_post(
                *old(self),
                *final(self),
                r,
                parse_operand_spec(
                    old(self).toks(),
                    old(self).current as nat,
                    level as nat,
                    recurse as nat,
                ),
            ),
        decreases recurse, self.tokens@.len() - self.current, 5int,
    {
        if level < 3 {
            self.parse_level(level + 1, recurse)
        } else {
            self.parse_unary(recurse)
        }
    }

    /// Parses one binary precedence level: one operand at the next level
    /// up, then a folding loop that extends the expression to the left
    /// while operators of this level follow: exactly what
    /// `parse_level_spec` says at the cursor.
    fn parse_level(&mut self, level: usize, recurse: usize) -> (r: Result<Node, String>)
        requires
            old(self).wf(),
            level <= 3,
        ensures
            parse_post(
                *old(self),
                *final(self),
                r,
                parse_level_spec(
                    old(self).toks(),
                    old(self).current as nat,
                    level as nat,
                    recurse as nat,
                ),
            ),
        decreases recurse, self.tokens@.len() - self.current, 4int,
    {
        let ghost t = self.toks();
        let ghost pos0 = self.current as nat;
        proof {
            assert(diags_view(self.diagnostics@) + Seq::<DiagV>::empty() =~= diags_view(
                self.diagnostics@,
            ));
        }
        if recurse == 0 {
            return self.depth_out();
        }
        proof {
            lemma_operand_bounds(t, pos0, level as nat, (recurse - 1) as nat);
        }
        let first = self.parse_operand(level, recurse - 1);
        let mut expr = match first {
            Ok(n) => n,
            Err(e) => {
                return Err(e);
            },
        };
        let ghost operand_out = parse_operand_spec(t, pos0, level as nat, (recurse - 1) as nat);
        let ghost entry_diags = self.diagnostics@;
        let ghost target = parse_level_rest_spec(
            t,
            self.current as nat,
            level as nat,
            node_view(expr),
            recurse as nat,
        );
        #[verifier::loop_isolation(false)]
        while is_level_op(level, self.current_token().token_type)
            invariant
                self.wf(),
                level <= 3,
                recurse >= 1,
                self.tokens == old(self).tokens,
                self.max_depth == old(self).max_depth,
                self.toks() == t,
                pos0 < self.current as nat,
                ({
                    let b = parse_level_rest_spec(
                        t,
                        self.current as nat,
                        level as nat,
                        node_view(expr),
                        recurse as nat,
                    );
                    &&& target.node == b.node
                    &&& target.next == b.next
                    &&& diags_view(entry_diags) + target.diags == diags_view(self.diagnostics@)
                        + b.diags
                }),
            decreases self.tokens@.len() - self.current,
        {
            let ghost pre = *self;
            let ghost expr_v = node_view(expr);
            let ghost b_pre = parse_level_rest_spec(
                t,
                pre.current as nat,
                level as nat,
                expr_v,
                recurse as nat,
            );
            let op = match self.parse_operator(recurse) {
                Ok(o) => o,
                Err(e) => {
                    // the loop guard saw an operator of this level, so the
                    // operator parse cannot fail
                    proof {
                        assert(false);
                    }
                    return Err(e);
                },
            };
            proof {
                lemma_operand_bounds(t, (pre.current + 1) as nat, level as nat, (recurse - 1) as nat);
            }
            let ghost rhs_out = parse_operand_spec(
                t,
                (pre.current + 1) as nat,
                level as nat,
                (recurse - 1) as nat,
            );
            let rhs = match self.parse_operand(level, recurse - 1) {
                Ok(n) => n,
                Err(e) => {
                    proof {
                        assert(b_pre.node is None && b_pre.next == rhs_out.next && b_pre.diags
                            == rhs_out.diags);
                        assert((diags_view(pre.diagnostics@) + Seq::<DiagV>::empty())
                            + rhs_out.diags =~= diags_view(pre.diagnostics@) + rhs_out.diags);
                        let out = parse_level_spec(t, pos0, level as nat, recurse as nat);
                        assert(out.next == target.next && out.node == target.node && out.diags
                            == operand_out.diags + target.diags);
                        assert(self.current as nat == out.next);
                        assert(diags_view(entry_diags) == diags_view(old(self).diagnostics@)
                            + operand_out.diags);
                        assert((diags_view(old(self).diagnostics@) + operand_out.diags)
                            + target.diags =~= diags_view(old(self).diagnostics@) + (
                        operand_out.diags + target.diags));
                        assert(diags_view(self.diagnostics@) == diags_view(old(self).diagnostics@)
                            + out.diags);
                    }
                    return Err(e);
                },
            };
            let ghost rhs_v = node_view(rhs);
            let children = vec![expr, rhs];
            proof {
                lemma_nodes_view(children@);
                assert(nodes_view(children@) =~= seq![expr_v, rhs_v]);
            }
            let mut bin = Node::new(NodeType::Binary, children);
            bin.token = op.token;
            expr = bin;
            proof {
                let rest2 = parse_level_rest_spec(
                    t,
                    rhs_out.next,
                    level as nat,
                    node_view(expr),
                    recurse as nat,
                );
                assert(b_pre.node == rest2.node && b_pre.next == rest2.next && b_pre.diags
                    == rhs_out.diags + rest2.diags);
                assert(diags_view(entry_diags) + target.diags == (diags_view(pre.diagnostics@)
                    + rhs_out.diags) + rest2.diags);
                assert((diags_view(pre.diagnostics@) + rhs_out.diags) + rest2.diags =~= diags_view(
                    pre.diagnostics@,
                ) + (rhs_out.diags + rest2.diags));
                assert(diags_view(self.diagnostics@) == diags_view(pre.diagnostics@)
                    + rhs_out.diags);
            }
        }
        proof {
            let b = parse_level_rest_spec(
                t,
                self.current as nat,
                level as nat,
                node_view(expr),
                recurse as nat,
            );
            assert(b.node == Some(node_view(expr)) && b.next == self.current as nat && b.diags
                =~= Seq::<DiagV>::empty());
            let out = parse_level_spec(t, pos0, level as nat, recurse as nat);
            assert(out.node == target.node && out.next == target.next && out.diags
                == operand_out.diags + target.diags);
            assert(diags_view(entry_diags) == diags_view(old(self).diagnostics@)
                + operand_out.diags);
            assert(diags_view(entry_diags) + target.diags =~= diags_view(self.diagnostics@));
            assert((diags_view(old(self).diagnostics@) + operand_out.diags) + target.diags
                =~= diags_view(old(self).diagnostics@) + (operand_out.diags + target.diags));
            let out = parse_level_spec(t, pos0, level as nat, recurse as nat);
            assert(self.current as nat == out.next);
            assert(diags_view(self.diagnostics@) == diags_view(old(self).diagnostics@) + out.diags);
            assert(out.node == Some(node_view(expr)));
        }
        Ok(expr)
    }

    /// Parses the binary precedence ladder from its lowest level: exactly
    /// what `parse_level_spec` says at level 0.
    pub fn parse_binary(&mut self, recurse: usize) -> (r: Result<Node, String>)
        requires
            old(self).wf(),
        ensures
            parse_post(
                *old(self),
                *final(self),
                r,
                parse_level_spec(old(self).toks(), old(self).current as nat, 0, recurse as nat),
            ),
        decreases recurse, self.tokens@.len() - self.current, 5int,
    {
        self.parse_level(0, recurse)
    }

    /// Parses a whole expression: exactly what `parse_expression_spec`
    /// says at the cursor.
    pub fn parse_exspression(&mut self, recurse: usize) -> (r: Result<Node, String>)
        requires
            old(self).wf(),
        ensures
            parse_post(
                *old(self),
                *final(self),
                r,
                parse_expression_spec(old(self).toks(), old(self).current as nat, recurse as nat),
            ),
        decreases recurse, self.tokens@.len() - self.current, 6int,
    {
        self.parse_binary(recurse)
    }

    /// Parses one expression from the cursor with the configured depth
    /// budget. Hands back the root when one was built — the result is
    /// only usable when `diagnostics` stayed empty — or nothing when the
    /// attempt failed.
    pub fn parse(&mut self) -> (r: Option<Node>)
        requires
            old(self).wf(),
        ensures
            ({
                let out = parse_expression_spec(
                    old(self).toks(),
                    old(self).current as nat,
                    old(self).max_depth as nat,
                );
                &&& final(self).wf()
                &&& final(self).tokens == old(self).tokens
                &&& final(self).max_depth == old(self).max_depth
                &&& final(self).current == out.next
                &&& diags_view(final(self).diagnostics@) == diags_view(old(self).diagnostics@)
                    + out.diags
                &&& (r is Some <==> out.node is Some)
                &&& (r matches Some(root) ==> out.node == Some(node_view(root)))
            }),
    {
        let depth = self.max_depth;
        match self.parse_exspression(depth) {
            Ok(n) => Some(n),
            Err(_) => None,
        }
    }

    /// The recovery primitive: after a parse failure, discards tokens up
    /// to the next plausible statement boundary, so one genuine syntax
    /// error costs one diagnostic instead of a cascade. The statement
    /// grammar above this core decides when to invoke it.
    pub fn synchronize(&mut self)
        requires
            old(self).wf(),
        ensures
            final(self).wf(),
            final(self).tokens == old(self).tokens,
            final(self).diagnostics == old(self).diagnostics,
            final(self).max_depth == old(self).max_depth,
            final(self).current == sync_end(old(self).toks(), old(self).current as nat),
    {
        let ghost t = self.toks();
        let ghost pos0 = self.current as nat;
        #[verifier::loop_isolation(false)]
        while self.current < self.tokens.len()
            invariant
                self.wf(),
                self.tokens == old(self).tokens,
                self.diagnostics == old(self).diagnostics,
                self.max_depth == old(self).max_depth,
                pos0 <= self.current as nat,
                sync_end(t, pos0) == sync_end(t, self.current as nat),
            decreases self.tokens@.len() - self.current,
        {
            let k = self.current_token().token_type;
            if k == TokenType::SEMICOLON {
                self.advance();
                return ;
            }
            if is_sync_boundary(k) {
                return ;
            }
            self.advance();
        }
    }
}

/// Parsing never moves the cursor backward or out of the token sequence,
/// and a successful parse of an expression consumes at least one token.
pub proof fn lemma_expression_bounds(t: Seq<TokenV>, pos: nat, depth: nat)
    requires
        pos <= t.len(),
    ensures
        ({
            let out = parse_expression_spec(t, pos, depth);
            &&& pos <= out.next <= t.len()
            &&& (out.node is Some ==> pos < out.next)
        }),
    decreases depth, t.len() - pos, 6int,
{
    lemma_level_bounds(t, pos, 0, depth);
}

pub proof fn lemma_level_bounds(t: Seq<TokenV>, pos: nat, level: nat, depth: nat)
    requires
        pos <= t.len(),
        level <= 3,
    ensures
        ({
            let out = parse_level_spec(t, pos, level, depth);
            &&& pos <= out.next <= t.len()
            &&& (out.node is Some ==> pos < out.next)
        }),
    decreases depth, t.len() - pos, 4int,
{
    if depth > 0 {
        lemma_operand_bounds(t, pos, level, (depth - 1) as nat);
        let operand = parse_operand_spec(t, pos, level, (depth - 1) as nat);
        match operand.node {
            Option::Some(first) => {
                if pos < operand.next && operand.next <= t.len() {
                    lemma_level_rest_bounds(t, operand.next, level, first, depth);
                }
            },
            Option::None => {},
        }
    }
}

pub proof fn lemma_level_rest_bounds(t: Seq<TokenV>, pos: nat, level: nat, acc: NodeV, depth: nat)
    requires
        pos <= t.len(),
        level <= 3,
        depth >= 1,
    ensures
        ({
            let out = parse_level_rest_spec(t, pos, level, acc, depth);
            pos <= out.next <= t.len()
        }),
    decreases depth, t.len() - pos, 0int,
{
    if pos < t.len() && level_op(level, t[pos as int].kind) {
        lemma_operand_bounds(t, pos + 1, level, (depth - 1) as nat);
        let operand = parse_operand_spec(t, pos + 1, level, (depth - 1) as nat);
        match operand.node {
            Option::Some(rhs) => {
                let acc2 = NodeV {
                    node_type: NodeType::Binary,
                    children: seq![acc, rhs],
                    token: t[pos as int],
                };
                if pos + 1 < operand.next && operand.next <= t.len() {
                    lemma_level_rest_bounds(t, operand.next, level, acc2, depth);
                }
            },
            Option::None => {},
        }
    }
}

pub proof fn lemma_operand_bounds(t: Seq<TokenV>, pos: nat, level: nat, depth: nat)
    requires
        pos <= t.len(),
        level <= 3,
    ensures
        ({
            let out = parse_operand_spec(t, pos, level, depth);
            &&& pos <= out.next <= t.len()
            &&& (out.node is Some ==> pos < out.next)
        }),
    decreases depth, t.len() - pos, 5int,
{
    if level < 3 {
        lemma_level_bounds(t, pos, level + 1, depth);
    } else {
        lemma_unary_bounds(t, pos, depth);
    }
}

pub proof fn lemma_unary_bounds(t: Seq<TokenV>, pos: nat, depth: nat)
    requires
        pos <= t.len(),
    ensures
        ({
            let out = parse_unary_spec(t, pos, depth);
            &&& pos <= out.next <= t.len()
            &&& (out.node is Some ==> pos < out.next)
        }),
    decreases depth, t.len() - pos, 3int,
{
    if depth > 0 {
        if pos < t.len() && (t[pos as int].kind == TokenType::BANG || t[pos as int].kind
            == TokenType::Minus) {
            lemma_unary_bounds(t, pos + 1, (depth - 1) as nat);
        } else {
            lemma_primary_bounds(t, pos, depth);
        }
    }
}

pub proof fn lemma_primary_bounds(t: Seq<TokenV>, pos: nat, depth: nat)
    requires
        pos <= t.len(),
    ensures
        ({
            let out = parse_primary_spec(t, pos, depth);
            &&& pos <= out.next <= t.len()
            &&& (out.node is Some ==> pos < out.next)
        }),
    decreases depth, t.len() - pos, 2int,
{
    if depth > 0 && !literal_kind(kind_at(t, pos)) && kind_at(t, pos) == TokenType::LeftParen {
        lemma_grouping_bounds(t, pos, depth);
    }
}

pub proof fn lemma_grouping_bounds(t: Seq<TokenV>, pos: nat, depth: nat)
    requires
        pos <= t.len(),
    ensures
        ({
            let out = parse_grouping_spec(t, pos, depth);
            &&& pos <= out.next <= t.len()
            &&& (out.node is Some ==> pos < out.next)
        }),
    decreases depth, t.len() - pos, 1int,
{
    if depth > 0 && pos < t.len() && t[pos as int].kind == TokenType::LeftParen {
        lemma_expression_bounds(t, pos + 1, (depth - 1) as nat);
    }
}

} // verus!
