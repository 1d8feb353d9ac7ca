//! The classifier and line segmenter: from tokens to a program tree.

use crate::expressions::{
    additive, all_well_formed, combine, exponential, fixpoint, is_folded,
    lemma_fixpoint_is_folded, lemma_fixpoint_keeps_well_formed, matches_nowhere, multiplicative,
    Window,
};
use crate::node_type::NodeType;
use crate::parse_node::{lemma_view, Node, ParseNode};
use crate::parsing::{
    all_numeric, has_alphabetic, has_numeric, is_quoted, numeric_kind, parse_identifier,
    parse_line_number, parse_numeric, parse_string, word_kind,
};
use crate::text::same_text;
use vstd::prelude::*;
use vstd::string::*;

verus! {

/// Whether the token is the one that separates lines.
pub open spec fn is_line_break(token: Seq<char>) -> bool {
    token == "\n"@
}

/// The leaf that a token makes, or nothing for a token that ends the line.
/// The rules are tried in this order, and the first that applies decides;
/// `at_start` says that the line has no node yet.
pub open spec fn classify(token: Seq<char>, at_start: bool) -> Option<Node> {
    if is_quoted(token) {
        Some(Node::leaf(NodeType::String, token))
    } else if at_start && all_numeric(token) {
        Some(Node::leaf(NodeType::LineNumber, token))
    } else if has_numeric(token) {
        Some(Node::leaf(numeric_kind(token), token))
    } else if has_alphabetic(token) {
        Some(Node::leaf(word_kind(token), token))
    } else if is_line_break(token) {
        None
    } else {
        Some(Node::leaf(NodeType::Symbol, token))
    }
}

/// The keyword that a line leaves out when it starts with its number and
/// goes on with an identifier.
pub open spec fn implicit_let() -> Node {
    Node::leaf(NodeType::StatementName, "LET"@)
}

/// Whether the folded line is an assignment that leaves out its keyword.
pub open spec fn lacks_let(children: Seq<Node>) -> bool {
    children.len() >= 2 && children[0].kind == NodeType::LineNumber && children[1].kind
        == NodeType::Identifier
}

/// The children with the keyword `LET` put in behind the line number, where
/// the line is an assignment that leaves it out.
pub open spec fn with_implicit_let(children: Seq<Node>) -> Seq<Node> {
    if lacks_let(children) {
        children.insert(1, implicit_let())
    } else {
        children
    }
}

/// The line that a run of classified tokens makes: folded to its fixpoint,
/// then given its implicit keyword.
pub open spec fn line_of(children: Seq<Node>) -> Node {
    Node {
        kind: NodeType::Line,
        text: Seq::empty(),
        children: with_implicit_let(fixpoint(children)),
    }
}

/// The classifier part-way through the tokens: the lines already closed and
/// the nodes of the line still open.
pub ghost struct Progress {
    pub lines: Seq<Node>,
    pub open: Seq<Node>,
}

impl Progress {
    /// The classifier before any token.
    pub open spec fn initial() -> Progress {
        Progress { lines: Seq::empty(), open: Seq::empty() }
    }

    /// The classifier after one more token.
    pub open spec fn step(self, token: Seq<char>) -> Progress {
        match classify(token, self.open.len() == 0) {
            Some(leaf) => Progress { open: self.open.push(leaf), ..self },
            None => Progress { lines: self.lines.push(line_of(self.open)), open: Seq::empty() },
        }
    }

    /// The classifier after all of `tokens`.
    pub open spec fn run(tokens: Seq<Seq<char>>) -> Progress
        decreases tokens.len(),
    {
        if tokens.len() == 0 {
            Progress::initial()
        } else {
            Progress::run(tokens.drop_last()).step(tokens.last())
        }
    }

    /// The lines, with the open line closed unless it is empty.
    pub open spec fn finish(self) -> Seq<Node> {
        if self.open.len() > 0 {
            self.lines.push(line_of(self.open))
        } else {
            self.lines
        }
    }
}

/// The program that a sequence of tokens makes.
pub open spec fn program_of(tokens: Seq<Seq<char>>) -> Node {
    Node { kind: NodeType::Program, text: Seq::empty(), children: Progress::run(tokens).finish() }
}

/// Whether every line of the program is folded as far as it can be folded.
pub open spec fn lines_are_folded(program: Node) -> bool {
    forall|i: int|
        0 <= i < program.children.len() ==> is_folded((#[trigger] program.children[i]).children)
}

/// The implicit keyword, put in behind a line number, takes part in no
/// shape that can be folded.
proof fn lemma_implicit_let_matches_nowhere(children: Seq<Node>, window: Window)
    requires
        matches_nowhere(children, window),
    ensures
        matches_nowhere(with_implicit_let(children), window),
{
    if lacks_let(children) {
        let after = children.insert(1, implicit_let());
        assert forall|j: int| !window.matches_at(after, j) by {
            if 2 <= j && j + 2 < after.len() {
                assert(!window.matches_at(children, j - 1));
            }
        }
    }
}

/// A closed line is well formed and folded as far as it can be folded.
pub proof fn lemma_line_of(children: Seq<Node>)
    requires
        all_well_formed(children),
    ensures
        line_of(children).well_formed(),
        is_folded(line_of(children).children),
{
    let folded = fixpoint(children);
    lemma_fixpoint_keeps_well_formed(children);
    lemma_fixpoint_is_folded(children);
    lemma_implicit_let_matches_nowhere(folded, Window::Binary(multiplicative()));
    lemma_implicit_let_matches_nowhere(folded, Window::Binary(additive()));
    lemma_implicit_let_matches_nowhere(folded, Window::Binary(exponential()));
    lemma_implicit_let_matches_nowhere(folded, Window::Brackets);
    // every child is the keyword, a leaf, or one of the folded nodes
    let after = with_implicit_let(folded);
    assert forall|i: int| 0 <= i < after.len() implies (#[trigger] after[i]).can_stand_in_line()
        && after[i].well_formed() by {}
}

/// The classifier keeps its lines well formed and folded, and the nodes of
/// its open line well formed.
pub proof fn lemma_progress(tokens: Seq<Seq<char>>)
    ensures
        all_well_formed(Progress::run(tokens).open),
        forall|i: int|
            0 <= i < Progress::run(tokens).lines.len() ==> {
                &&& (#[trigger] Progress::run(tokens).lines[i]).kind == NodeType::Line
                &&& Progress::run(tokens).lines[i].well_formed()
                &&& is_folded(Progress::run(tokens).lines[i].children)
            },
    decreases tokens.len(),
{
    if tokens.len() > 0 {
        let before = Progress::run(tokens.drop_last());
        lemma_progress(tokens.drop_last());
        lemma_line_of(before.open);
    }
}

/// Every program that the classifier makes is well formed, and each of its
/// lines is folded as far as it can be folded.
pub proof fn lemma_program_of(tokens: Seq<Seq<char>>)
    ensures
        program_of(tokens).well_formed(),
        lines_are_folded(program_of(tokens)),
{
    lemma_progress(tokens);
    lemma_line_of(Progress::run(tokens).open);
}

/// The leaf that `token` makes, or nothing for the token that ends a line.
fn classify_token(token: &str, at_start: bool) -> (out: Option<ParseNode>)
    ensures
        out is Some == classify(token@, at_start) is Some,
        out matches Some(node) ==> node@ == classify(token@, at_start)->0,
{
    if let Some(node) = parse_string(token) {
        return Some(node);
    }
    if at_start {
        if let Some(node) = parse_line_number(token) {
            return Some(node);
        }
    }
    if let Some(node) = parse_numeric(token) {
        return Some(node);
    }
    if let Some(node) = parse_identifier(token) {
        return Some(node);
    }
    if same_text(token, "\n") {
        return None;
    }
    Some(ParseNode::new(NodeType::Symbol, token.to_owned(), Vec::new()))
}

/// Closes a line: folds its nodes to the fixpoint and puts in the implicit
/// keyword.
fn finish_line(children: Vec<ParseNode>) -> (line: ParseNode)
    ensures
        line@ == line_of(children.deep_view()),
{
    let mut line = ParseNode::new(NodeType::Line, String::new(), children);
    combine(&mut line);
    proof {
        lemma_view(&line);
    }
    if line.children.len() >= 2 && line.children[0].node_type == NodeType::LineNumber
        && line.children[1].node_type == NodeType::Identifier {
        let keyword = ParseNode::new(NodeType::StatementName, "LET".to_owned(), Vec::new());
        let ghost folded = line.children.deep_view();
        line.children.insert(1, keyword);
        assert(line.children.deep_view() =~= folded.insert(1, implicit_let()));
    }
    proof {
        lemma_view(&line);
    }
    line
}

/// Classifies the tokens, cuts them into lines at each line break, folds
/// each line, and returns the program.
pub fn parse(tokens: &[String]) -> (program: ParseNode)
    ensures
        program@ == program_of(tokens.deep_view()),
        program@.well_formed(),
        lines_are_folded(program@),
{
    proof {
        lemma_program_of(tokens.deep_view());
    }
    let mut lines: Vec<ParseNode> = Vec::new();
    let mut open: Vec<ParseNode> = Vec::new();
    let ghost texts = tokens.deep_view();
    let mut i: usize = 0;
    while i < tokens.len()
        invariant
            i <= tokens.len(),
            texts == tokens.deep_view(),
            lines.deep_view() == Progress::run(texts.take(i as int)).lines,
            open.deep_view() == Progress::run(texts.take(i as int)).open,
        decreases tokens.len() - i,
    {
        proof {
            assert(texts.take(i + 1).drop_last() =~= texts.take(i as int));
        }
        match classify_token(tokens[i].as_str(), open.len() == 0) {
            Some(node) => {
                open.push(node);
            },
            None => {
                let line = finish_line(open);
                lines.push(line);
                open = Vec::new();
            },
        }
        i += 1;
    }
    assert(texts.take(i as int) =~= texts);
    if open.len() > 0 {
        let ghost closed = lines.deep_view();
        let line = finish_line(open);
        lines.push(line);
        assert(lines.deep_view() =~= closed.push(line@));
    }
    ParseNode::new(NodeType::Program, String::new(), lines)
}

} // verus!
