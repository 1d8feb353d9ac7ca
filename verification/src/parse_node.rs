//! The parse tree and its mathematical model.

use crate::node_type::NodeType;
use vstd::prelude::*;
use vstd::string::*;

verus! {

/// A node of the parse tree: a kind, a text, and the children it owns.
#[derive(Debug, PartialEq)]
pub struct ParseNode {
    /// The kind of the node.
    pub node_type: NodeType,
    /// The token the node was made from; empty for structural nodes.
    pub value: String,
    /// The children, in source order.
    pub children: Vec<ParseNode>,
}

/// The mathematical model of a [`ParseNode`].
pub ghost struct Node {
    pub kind: NodeType,
    pub text: Seq<char>,
    pub children: Seq<Node>,
}

/// The model of one node.
pub open spec fn node_of(node: ParseNode) -> Node
    decreases node,
{
    Node { kind: node.node_type, text: node.value@, children: nodes_of(node.children@) }
}

/// The models of a sequence of nodes, in order.
pub open spec fn nodes_of(nodes: Seq<ParseNode>) -> Seq<Node>
    decreases nodes,
{
    if nodes.len() == 0 {
        Seq::empty()
    } else {
        nodes_of(nodes.drop_last()).push(node_of(nodes.last()))
    }
}

impl View for ParseNode {
    type V = Node;

    open spec fn view(&self) -> Node {
        node_of(*self)
    }
}

impl DeepView for ParseNode {
    type V = Node;

    open spec fn deep_view(&self) -> Node {
        node_of(*self)
    }
}

/// `nodes_of` works element by element.
pub proof fn lemma_nodes_of(nodes: Seq<ParseNode>)
    ensures
        nodes_of(nodes).len() == nodes.len(),
        forall|i: int| 0 <= i < nodes.len() ==> nodes_of(nodes)[i] == (#[trigger] nodes[i])@,
        nodes_of(nodes) == nodes.map_values(|n: ParseNode| n@),
    decreases nodes.len(),
{
    if nodes.len() > 0 {
        let front = nodes.drop_last();
        lemma_nodes_of(front);
        assert forall|i: int| 0 <= i < nodes.len() implies nodes_of(nodes)[i] == (
        #[trigger] nodes[i])@ by {}
    }
}

/// The model of a node is made of the models of its children.
pub proof fn lemma_view(node: &ParseNode)
    ensures
        node@.kind == node.node_type,
        node@.text == node.value@,
        node@.children == node.children.deep_view(),
        node@.children.len() == node.children@.len(),
        forall|i: int|
            0 <= i < node.children@.len() ==> node@.children[i] == (#[trigger] node.children@[i])@,
{
    lemma_nodes_of(node.children@);
}

/// The white space in front of a node at `depth`: two spaces for each level.
pub open spec fn indentation(depth: nat) -> Seq<char>
    decreases depth,
{
    if depth == 0 {
        Seq::empty()
    } else {
        indentation((depth - 1) as nat) + "  "@
    }
}

impl Node {
    /// The dump of the tree behind `indent`: the node on a line of its own,
    /// as the indent, the name of its kind, a space and its text in single
    /// quotes; then its children in order, each two spaces deeper.
    pub open spec fn render(self, indent: Seq<char>) -> Seq<char>
        decreases self,
    {
        indent + self.kind.spec_name() + " '"@ + self.text + "'\n"@ + Node::render_all(
            self.children,
            indent + "  "@,
        )
    }

    /// The dumps of the trees of a forest, one after the other.
    pub open spec fn render_all(nodes: Seq<Node>, indent: Seq<char>) -> Seq<char>
        decreases nodes,
    {
        if nodes.len() == 0 {
            Seq::empty()
        } else {
            Node::render_all(nodes.drop_last(), indent) + nodes.last().render(indent)
        }
    }

    /// The dump of the tree, its root at `depth`.
    pub open spec fn dump(self, depth: nat) -> Seq<char> {
        self.render(indentation(depth))
    }

    /// A node without children.
    pub open spec fn leaf(kind: NodeType, text: Seq<char>) -> Node {
        Node { kind, text, children: Seq::empty() }
    }

    /// The symbol `text`.
    pub open spec fn symbol(text: Seq<char>) -> Node {
        Node::leaf(NodeType::Symbol, text)
    }

    /// The expression that wraps three nodes.
    pub open spec fn expression(first: Node, second: Node, third: Node) -> Node {
        Node { kind: NodeType::Expression, text: Seq::empty(), children: seq![first, second, third] }
    }

    /// Whether the node is the symbol `text`.
    pub open spec fn is_symbol(self, text: Seq<char>) -> bool {
        self.kind == NodeType::Symbol && self.text == text
    }

    /// Whether three nodes are an operand, a symbol and an operand.
    pub open spec fn is_operation(nodes: Seq<Node>) -> bool {
        &&& nodes.len() == 3
        &&& nodes[0].kind.is_operand()
        &&& nodes[1].kind == NodeType::Symbol
        &&& nodes[2].kind.is_operand()
    }

    /// Whether three nodes are an operand between `(` and `)`.
    pub open spec fn is_bracket(nodes: Seq<Node>) -> bool {
        &&& nodes.len() == 3
        &&& nodes[0].is_symbol("("@)
        &&& nodes[1].kind.is_operand()
        &&& nodes[2].is_symbol(")"@)
    }

    /// Whether the tree has the shape that the parser gives every tree.
    /// The children of a program are lines. The children of a line are
    /// leaves and expressions. An expression has no text and three
    /// children: an operation, or an operand in brackets. Every other node
    /// is a leaf.
    pub open spec fn well_formed(self) -> bool
        decreases self,
    {
        match self.kind {
            NodeType::Program => forall|i: int|
                0 <= i < self.children.len() ==> (#[trigger] self.children[i]).kind
                    == NodeType::Line && self.children[i].well_formed(),
            NodeType::Line => forall|i: int|
                0 <= i < self.children.len() ==> (#[trigger] self.children[i]).can_stand_in_line()
                    && self.children[i].well_formed(),
            NodeType::Expression => {
                &&& self.text.len() == 0
                &&& Node::is_operation(self.children) || Node::is_bracket(self.children)
                &&& forall|i: int|
                    0 <= i < self.children.len() ==> (#[trigger] self.children[i]).well_formed()
            },
            _ => self.children.len() == 0,
        }
    }

    /// Whether the node is of a kind that stands in a line: a leaf or an
    /// expression.
    pub open spec fn can_stand_in_line(self) -> bool {
        self.kind != NodeType::Program && self.kind != NodeType::Line
    }
}

impl Clone for ParseNode {
    fn clone(&self) -> (out: Self)
        ensures
            out@ == self@,
        decreases *self,
    {
        let mut children: Vec<ParseNode> = Vec::new();
        let mut i: usize = 0;
        while i < self.children.len()
            invariant
                i <= self.children.len(),
                children.len() == i,
                forall|j: int| 0 <= j < i ==> children@[j]@ == self.children@[j]@,
            decreases self.children.len() - i,
        {
            let child = self.children[i].clone();
            children.push(child);
            i += 1;
        }
        let out = ParseNode { node_type: self.node_type, value: self.value.clone(), children };
        proof {
            lemma_view(&out);
            lemma_view(self);
            assert(out@.children =~= self@.children);
        }
        out
    }
}

impl ParseNode {
    /// Makes a node from its parts.
    pub fn new(node_type: NodeType, value: String, children: Vec<Self>) -> (out: Self)
        ensures
            out@ == (Node { kind: node_type, text: value@, children: children.deep_view() }),
            out.node_type == node_type,
            out.value == value,
            out.children == children,
    {
        let out = Self { node_type, value, children };
        proof {
            lemma_view(&out);
        }
        out
    }

    /// Writes the dump of the tree behind `indent` to the end of `out`.
    fn write_indented(&self, indent: &str, out: &mut String)
        ensures
            final(out)@ == old(out)@ + self@.render(indent@),
        decreases self,
    {
        proof {
            lemma_view(self);
        }
        out.append(indent);
        out.append(self.node_type.name());
        out.append(" '");
        out.append(self.value.as_str());
        out.append("'\n");
        let mut deeper = indent.to_owned();
        deeper.append("  ");
        let ghost head = out@;
        let mut i: usize = 0;
        while i < self.children.len()
            invariant
                i <= self.children.len(),
                deeper@ == indent@ + "  "@,
                self@.children.len() == self.children.len(),
                forall|j: int|
                    0 <= j < self.children.len() ==> self@.children[j] == (
                    #[trigger] self.children@[j])@,
                out@ == head + Node::render_all(self@.children.take(i as int), deeper@),
            decreases self.children.len() - i,
        {
            self.children[i].write_indented(deeper.as_str(), out);
            proof {
                let done = self@.children.take(i + 1);
                assert(done.drop_last() =~= self@.children.take(i as int));
            }
            i += 1;
        }
        assert(self@.children.take(i as int) =~= self@.children);
    }

    /// The dump of the tree, its root at `depth`.
    pub fn display_at_depth(&self, depth: usize) -> (out: String)
        ensures
            out@ == self@.dump(depth as nat),
    {
        let mut indent = String::new();
        let mut i: usize = 0;
        while i < depth
            invariant
                i <= depth,
                indent@ == indentation(i as nat),
            decreases depth - i,
        {
            indent.append("  ");
            i += 1;
        }
        let mut out = String::new();
        self.write_indented(indent.as_str(), &mut out);
        out
    }

    /// The dump of the tree.
    pub fn to_string(&self) -> (out: String)
        ensures
            out@ == self@.dump(0),
    {
        self.display_at_depth(0)
    }

    /// The kind of the node.
    pub fn get_node_type(&self) -> (out: NodeType)
        ensures
            out == self@.kind,
    {
        self.node_type
    }

    /// The children of the node.
    pub fn get_children(&self) -> (out: &Vec<Self>)
        ensures
            out.deep_view() == self@.children,
            *out == self.children,
    {
        proof {
            lemma_view(self);
        }
        &self.children
    }

    /// The text of the node.
    pub fn get_value(&self) -> (out: &str)
        ensures
            out@ == self@.text,
    {
        self.value.as_str()
    }
}

} // verus!
