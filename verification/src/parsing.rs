//! The classifier's rules: what kind of leaf a single token makes.

use crate::node_type::NodeType;
use crate::parse_node::{Node, ParseNode};
use crate::text::{alphabetic_char, numeric_char, same_text};
use vstd::prelude::*;
use vstd::std_specs::iter::IteratorSpec;
use vstd::string::*;

verus! {

/// Whether the token starts with a quote and ends with one.
pub open spec fn is_quoted(token: Seq<char>) -> bool {
    token.len() > 0 && token.first() == '"' && token.last() == '"'
}

/// Whether every character of the token is numeric.
pub open spec fn all_numeric(token: Seq<char>) -> bool {
    forall|i: int| 0 <= i < token.len() ==> numeric_char(#[trigger] token[i])
}

/// Whether some character of the token is numeric.
pub open spec fn has_numeric(token: Seq<char>) -> bool {
    exists|i: int| 0 <= i < token.len() && numeric_char(#[trigger] token[i])
}

/// Whether some character of the token is alphabetic.
pub open spec fn has_alphabetic(token: Seq<char>) -> bool {
    exists|i: int| 0 <= i < token.len() && alphabetic_char(#[trigger] token[i])
}

/// Whether the token is one of the words that name a statement.
pub open spec fn is_keyword(token: Seq<char>) -> bool {
    token == "PRINT"@ || token == "LET"@
}

/// The kind of a numeric literal: `Float` with a decimal point, `Number`
/// without.
pub open spec fn numeric_kind(token: Seq<char>) -> NodeType {
    if token.contains('.') {
        NodeType::Float
    } else {
        NodeType::Number
    }
}

/// The kind of a word: `StatementName` for a keyword, `Identifier`
/// otherwise.
pub open spec fn word_kind(token: Seq<char>) -> NodeType {
    if is_keyword(token) {
        NodeType::StatementName
    } else {
        NodeType::Identifier
    }
}

/// A leaf that holds a copy of the token.
fn leaf(node_type: NodeType, token: &str) -> (out: ParseNode)
    ensures
        out@ == Node::leaf(node_type, token@),
{
    let out = ParseNode::new(node_type, token.to_owned(), Vec::new());
    out
}

/// Whether the token starts with a quote and ends with one.
fn quoted(token: &str) -> (r: bool)
    ensures
        r == is_quoted(token@),
{
    let mut first: char = ' ';
    let mut last: char = ' ';
    let mut seen = false;
    for c in it: token.chars()
        invariant
            it.seq() == token@,
            seen == (it.index() > 0),
            seen ==> first == token@[0] && last == token@[it.index() - 1],
    {
        if !seen {
            first = c;
            seen = true;
        }
        last = c;
    }
    seen && first == '"' && last == '"'
}

/// Whether every character of the token is numeric.
fn only_numeric(token: &str) -> (r: bool)
    ensures
        r == all_numeric(token@),
{
    let mut r = true;
    for c in it: token.chars()
        invariant
            it.seq() == token@,
            r == (forall|i: int| 0 <= i < it.index() ==> numeric_char(#[trigger] token@[i])),
    {
        if !c.is_numeric() {
            r = false;
        }
    }
    r
}

/// Whether some character of the token is numeric.
fn any_numeric(token: &str) -> (r: bool)
    ensures
        r == has_numeric(token@),
{
    let mut r = false;
    for c in it: token.chars()
        invariant
            it.seq() == token@,
            r == (exists|i: int| 0 <= i < it.index() && numeric_char(#[trigger] token@[i])),
    {
        if c.is_numeric() {
            r = true;
        }
    }
    r
}

/// Whether some character of the token is alphabetic.
fn any_alphabetic(token: &str) -> (r: bool)
    ensures
        r == has_alphabetic(token@),
{
    let mut r = false;
    for c in it: token.chars()
        invariant
            it.seq() == token@,
            r == (exists|i: int| 0 <= i < it.index() && alphabetic_char(#[trigger] token@[i])),
    {
        if c.is_alphabetic() {
            r = true;
        }
    }
    r
}

/// Whether the token holds a decimal point.
fn has_point(token: &str) -> (r: bool)
    ensures
        r == token@.contains('.'),
{
    let mut r = false;
    for c in it: token.chars()
        invariant
            it.seq() == token@,
            r == (exists|i: int| 0 <= i < it.index() && token@[i] == '.'),
    {
        if c == '.' {
            r = true;
        }
    }
    r
}

/// A quoted token makes a `String` leaf; any other token makes nothing.
pub fn parse_string(token: &str) -> (out: Option<ParseNode>)
    ensures
        out is Some == is_quoted(token@),
        out matches Some(node) ==> node@ == Node::leaf(NodeType::String, token@),
{
    if quoted(token) {
        Some(leaf(NodeType::String, token))
    } else {
        None
    }
}

/// A token with a numeric character makes a numeric leaf, a `Float` if it
/// holds a decimal point and a `Number` if not; any other token makes
/// nothing.
pub fn parse_numeric(token: &str) -> (out: Option<ParseNode>)
    ensures
        out is Some == has_numeric(token@),
        out matches Some(node) ==> node@ == Node::leaf(numeric_kind(token@), token@),
{
    if any_numeric(token) {
        let node_type = if has_point(token) {
            NodeType::Float
        } else {
            NodeType::Number
        };
        Some(leaf(node_type, token))
    } else {
        None
    }
}

/// A token with an alphabetic character makes a `StatementName` leaf if it
/// is a keyword and an `Identifier` leaf if not; any other token makes
/// nothing.
pub fn parse_identifier(token: &str) -> (out: Option<ParseNode>)
    ensures
        out is Some == has_alphabetic(token@),
        out matches Some(node) ==> node@ == Node::leaf(word_kind(token@), token@),
{
    if any_alphabetic(token) {
        let node_type = if same_text(token, "PRINT") || same_text(token, "LET") {
            NodeType::StatementName
        } else {
            NodeType::Identifier
        };
        Some(leaf(node_type, token))
    } else {
        None
    }
}

/// A token of numeric characters only makes a `LineNumber` leaf; any other
/// token makes nothing.
pub fn parse_line_number(token: &str) -> (out: Option<ParseNode>)
    ensures
        out is Some == all_numeric(token@),
        out matches Some(node) ==> node@ == Node::leaf(NodeType::LineNumber, token@),
{
    if only_numeric(token) {
        Some(leaf(NodeType::LineNumber, token))
    } else {
        None
    }
}

} // verus!
