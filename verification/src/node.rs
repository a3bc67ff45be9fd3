//! The expression tree the parser builds.
//!
//! A node is a tagged variant: literals are leaves, unary and binary nodes
//! carry the operator's originating token, groupings wrap one inner
//! expression. Children are exclusively owned, so every tree is a strict
//! tree: no sharing and no cycles.

use vstd::prelude::*;

use crate::token::{Token, TokenType, TokenV};

verus! {

/// The tag of an expression-tree node.
#[derive(Debug, Clone, Copy, PartialEq, Eq, Structural)]
pub enum NodeType {
    Program,
    Expression,
    Binary,
    Unary,
    Grouping,
    Operator,
    Literal,
}

/// Mathematical model of a node: the tag, the models of the children in
/// order, and the model of the carried token.
pub ghost struct NodeV {
    pub node_type: NodeType,
    pub children: Seq<NodeV>,
    pub token: TokenV,
}

/// One node of an expression tree. Non-literal nodes carry the operator's
/// (or opening delimiter's) originating token so diagnostics can point at
/// exact source positions; nodes that need no token carry the placeholder.
#[derive(Debug)]
pub struct Node {
    pub node_type: NodeType,
    pub children: Vec<Node>,
    pub token: Token,
}

/// The model of a node: its tag and token, over the models of its children.
pub open spec fn node_view(n: Node) -> NodeV
    decreases n,
{
    proof {
        assert(decreases_to!(n => n.children@));
    }
    NodeV { node_type: n.node_type, children: nodes_view(n.children@), token: n.token@ }
}

/// The models of a sequence of nodes, in order.
pub open spec fn nodes_view(v: Seq<Node>) -> Seq<NodeV>
    decreases v,
{
    if v.len() == 0 {
        seq![]
    } else {
        seq![node_view(v[0])] + nodes_view(v.drop_first())
    }
}

pub proof fn lemma_nodes_view(v: Seq<Node>)
    ensures
        nodes_view(v).len() == v.len(),
        forall|i: int| 0 <= i < v.len() ==> #[trigger] nodes_view(v)[i] == node_view(v[i]),
    decreases v.len(),
{
    if v.len() > 0 {
        lemma_nodes_view(v.drop_first());
    }
}

/// The display name of a node tag.
pub open spec fn tag_name(t: NodeType) -> Seq<char> {
    match t {
        NodeType::Program => "Program"@,
        NodeType::Expression => "Expression"@,
        NodeType::Binary => "Binary"@,
        NodeType::Unary => "Unary"@,
        NodeType::Grouping => "Grouping"@,
        NodeType::Operator => "Operator"@,
        NodeType::Literal => "Literal"@,
    }
}

/// The display form of a node under the given indentation prefix: one
/// line with its tag and its token's lexeme, then its children, each
/// indented two spaces deeper.
pub open spec fn render_node(n: NodeV, prefix: Seq<char>) -> Seq<char>
    decreases n,
{
    prefix + tag_name(n.node_type) + " "@ + n.token.lexeme + "\n"@ + render_nodes(
        n.children,
        prefix + "  "@,
    )
}

/// The display forms of a sequence of nodes, concatenated in order.
pub open spec fn render_nodes(v: Seq<NodeV>, prefix: Seq<char>) -> Seq<char>
    decreases v,
{
    if v.len() == 0 {
        Seq::<char>::empty()
    } else {
        render_node(v[0], prefix) + render_nodes(v.drop_first(), prefix)
    }
}

pub proof fn lemma_render_nodes_push(v: Seq<NodeV>, x: NodeV, prefix: Seq<char>)
    ensures
        render_nodes(v.push(x), prefix) == render_nodes(v, prefix) + render_node(x, prefix),
    decreases v.len(),
{
    if v.len() == 0 {
        assert(v.push(x)[0] == x);
        assert(v.push(x).drop_first() =~= Seq::<NodeV>::empty());
        assert(render_nodes(Seq::<NodeV>::empty(), prefix) == Seq::<char>::empty());
        assert(render_nodes(v.push(x), prefix) =~= render_nodes(v, prefix) + render_node(
            x,
            prefix,
        ));
    } else {
        assert(v.push(x)[0] == v[0]);
        assert(v.push(x).drop_first() =~= v.drop_first().push(x));
        lemma_render_nodes_push(v.drop_first(), x, prefix);
        assert(render_nodes(v.push(x), prefix) =~= render_nodes(v, prefix) + render_node(
            x,
            prefix,
        ));
    }
}

fn tag_name_text(t: NodeType) -> (r: &'static str)
    ensures
        r@ == tag_name(t),
{
    match t {
        NodeType::Program => "Program",
        NodeType::Expression => "Expression",
        NodeType::Binary => "Binary",
        NodeType::Unary => "Unary",
        NodeType::Grouping => "Grouping",
        NodeType::Operator => "Operator",
        NodeType::Literal => "Literal",
    }
}

impl Node {
    /// A node of the given tag owning the given children, carrying the
    /// placeholder token until one is filled in.
    pub fn new(node_type: NodeType, children: Vec<Node>) -> (n: Node)
        ensures
            n.node_type == node_type,
            n.children == children,
            node_view(n) == (NodeV {
                node_type,
                children: nodes_view(children@),
                token: (TokenV {
                    kind: TokenType::Empty,
                    lexeme: Seq::<char>::empty(),
                    literal: Seq::<char>::empty(),
                    line: 0,
                }),
            }),
    {
        let n = Node { node_type, children, token: Token::empty() };
        proof {
            assert(node_view(n).children =~= nodes_view(n.children@));
        }
        n
    }

    /// The display form of this tree, one node per line, children
    /// indented under their parent.
    pub fn print(&self) -> (r: String)
        ensures
            r@ == render_node(node_view(*self), Seq::<char>::empty()),
    {
        let prefix = String::new();
        self.print_aux(&prefix)
    }

    fn print_aux(&self, prefix: &String) -> (r: String)
        ensures
            r@ == render_node(node_view(*self), prefix@),
        decreases *self,
    {
        let mut out = String::new();
        out.append(prefix.as_str());
        out.append(tag_name_text(self.node_type));
        out.append(" ");
        out.append(self.token.lexeme.as_str());
        out.append("\n");
        let mut child_prefix = String::new();
        child_prefix.append(prefix.as_str());
        child_prefix.append("  ");
        let ghost base = out@;
        let ghost views = nodes_view(self.children@);
        proof {
            lemma_nodes_view(self.children@);
            assert(render_nodes(views.take(0), child_prefix@) =~= Seq::<char>::empty());
            assert(base + Seq::<char>::empty() =~= base);
        }
        let mut i: usize = 0;
        #[verifier::loop_isolation(false)]
        while i < self.children.len()
            invariant
                i <= self.children@.len(),
                child_prefix@ == prefix@ + "  "@,
                out@ == base + render_nodes(views.take(i as int), child_prefix@),
            decreases self.children@.len() - i,
        {
            let piece = self.children[i].print_aux(&child_prefix);
            out.append(piece.as_str());
            proof {
                assert(views.take(i + 1) =~= views.take(i as int).push(views[i as int]));
                lemma_render_nodes_push(views.take(i as int), views[i as int], child_prefix@);
            }
            i = i + 1;
        }
        proof {
            assert(views.take(views.len() as int) =~= views);
        }
        out
    }
}

} // verus!
