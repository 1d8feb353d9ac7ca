//! The kinds of tree node.

use vstd::prelude::*;

verus! {

/// The kind of a node of the parse tree.
#[derive(Debug, PartialEq, Eq, Clone, Copy, Structural)]
pub enum NodeType {
    /// The root: its children are the program's lines.
    Program,
    /// One logical line.
    Line,
    /// The number that opens a line.
    LineNumber,
    /// A keyword that names a statement.
    StatementName,
    /// A quoted string literal.
    String,
    /// A numeric literal without a decimal point.
    Number,
    /// A numeric literal with a decimal point.
    Float,
    /// The name of a variable.
    Identifier,
    /// An operator, a bracket or other punctuation.
    Symbol,
    /// Three folded nodes: operand, operator, operand, or a bracketed operand.
    Expression,
}

impl NodeType {
    /// The name of the kind, as it is written in a tree dump.
    pub open spec fn spec_name(self) -> Seq<char> {
        match self {
            NodeType::Program => "Program"@,
            NodeType::Line => "Line"@,
            NodeType::LineNumber => "LineNumber"@,
            NodeType::StatementName => "StatementName"@,
            NodeType::String => "String"@,
            NodeType::Number => "Number"@,
            NodeType::Float => "Float"@,
            NodeType::Identifier => "Identifier"@,
            NodeType::Symbol => "Symbol"@,
            NodeType::Expression => "Expression"@,
        }
    }

    /// Whether a node of this kind can stand as an operand.
    pub open spec fn is_operand(self) -> bool {
        self == NodeType::Number || self == NodeType::Float || self == NodeType::Identifier
            || self == NodeType::Expression
    }

    /// The name of the kind, as it is written in a tree dump.
    pub fn name(self) -> (out: &'static str)
        ensures
            out@ == self.spec_name(),
    {
        match self {
            NodeType::Program => "Program",
            NodeType::Line => "Line",
            NodeType::LineNumber => "LineNumber",
            NodeType::StatementName => "StatementName",
            NodeType::String => "String",
            NodeType::Number => "Number",
            NodeType::Float => "Float",
            NodeType::Identifier => "Identifier",
            NodeType::Symbol => "Symbol",
            NodeType::Expression => "Expression",
        }
    }
}

} // verus!
