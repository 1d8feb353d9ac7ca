//! The failures of evaluation and assignment.

use crate::node_type::NodeType;
use crate::text::{decimal_of, push_decimal};
use vstd::prelude::*;
use vstd::string::*;

verus! {

/// Why an expression could not be evaluated or an assignment not be made.
#[derive(Debug, PartialEq, Eq)]
pub enum InterpretError {
    /// The text that opens a line is no line number of sixteen bits.
    LineNumberParseFailure(String),
    /// A node of this kind cannot be evaluated.
    UnexpectedNodeKind(NodeType),
    /// The symbol between two operands is not an operator.
    UnknownOperator(String),
    /// The text of a numeric leaf is not a number.
    MalformedNumericLiteral(String),
    /// The statement does not start with the keyword `LET`.
    MissingLetKeyword,
    /// No variable follows the keyword.
    MissingVariable,
    /// No value follows the index or the `=`.
    MissingValue,
    /// Neither an index nor `=` follows the variable.
    MissingEquals,
    /// The index is no whole number, or is negative.
    InvalidArrayIndex,
    /// The index is not inside the array.
    ArrayIndexOutOfBounds { name: String, index: usize },
}

/// The mathematical model of an [`InterpretError`].
pub ghost enum Failure {
    LineNumberParseFailure(Seq<char>),
    UnexpectedNodeKind(NodeType),
    UnknownOperator(Seq<char>),
    MalformedNumericLiteral(Seq<char>),
    MissingLetKeyword,
    MissingVariable,
    MissingValue,
    MissingEquals,
    InvalidArrayIndex,
    ArrayIndexOutOfBounds { name: Seq<char>, index: usize },
}

impl View for InterpretError {
    type V = Failure;

    open spec fn view(&self) -> Failure {
        match self {
            InterpretError::LineNumberParseFailure(text) => Failure::LineNumberParseFailure(text@),
            InterpretError::UnexpectedNodeKind(kind) => Failure::UnexpectedNodeKind(*kind),
            InterpretError::UnknownOperator(text) => Failure::UnknownOperator(text@),
            InterpretError::MalformedNumericLiteral(text) => Failure::MalformedNumericLiteral(
                text@,
            ),
            InterpretError::MissingLetKeyword => Failure::MissingLetKeyword,
            InterpretError::MissingVariable => Failure::MissingVariable,
            InterpretError::MissingValue => Failure::MissingValue,
            InterpretError::MissingEquals => Failure::MissingEquals,
            InterpretError::InvalidArrayIndex => Failure::InvalidArrayIndex,
            InterpretError::ArrayIndexOutOfBounds { name, index } => Failure::ArrayIndexOutOfBounds {
                name: name@,
                index: *index,
            },
        }
    }
}

impl Failure {
    /// The failure in words.
    pub open spec fn message(self) -> Seq<char> {
        match self {
            Failure::LineNumberParseFailure(text) => "Error: bad Line number not found: "@ + text,
            Failure::UnexpectedNodeKind(kind) => "Unexpected node type: "@ + kind.spec_name(),
            Failure::UnknownOperator(text) => "Unexpected operator: "@ + text,
            Failure::MalformedNumericLiteral(text) => "Malformed numeric literal: "@ + text,
            Failure::MissingLetKeyword => "error: LET statement missing 'LET'"@,
            Failure::MissingVariable => "error: LET statement missing variable"@,
            Failure::MissingValue => "error: LET statement missing value"@,
            Failure::MissingEquals => "error: LET statement missing '='"@,
            Failure::InvalidArrayIndex => "error: LET statement index must be a non-negative integer"@,
            Failure::ArrayIndexOutOfBounds { name, index } => "Array "@ + name
                + " index out of bounds: "@ + decimal_of(index as nat),
        }
    }
}

impl InterpretError {
    /// The failure in words.
    pub fn message(&self) -> (out: String)
        ensures
            out@ == self@.message(),
    {
        let mut out = String::new();
        match self {
            InterpretError::LineNumberParseFailure(text) => {
                out.append("Error: bad Line number not found: ");
                out.append(text.as_str());
            },
            InterpretError::UnexpectedNodeKind(kind) => {
                out.append("Unexpected node type: ");
                out.append(kind.name());
            },
            InterpretError::UnknownOperator(text) => {
                out.append("Unexpected operator: ");
                out.append(text.as_str());
            },
            InterpretError::MalformedNumericLiteral(text) => {
                out.append("Malformed numeric literal: ");
                out.append(text.as_str());
            },
            InterpretError::MissingLetKeyword => {
                out.append("error: LET statement missing 'LET'");
            },
            InterpretError::MissingVariable => {
                out.append("error: LET statement missing variable");
            },
            InterpretError::MissingValue => {
                out.append("error: LET statement missing value");
            },
            InterpretError::MissingEquals => {
                out.append("error: LET statement missing '='");
            },
            InterpretError::InvalidArrayIndex => {
                out.append("error: LET statement index must be a non-negative integer");
            },
            InterpretError::ArrayIndexOutOfBounds { name, index } => {
                out.append("Array ");
                out.append(name.as_str());
                out.append(" index out of bounds: ");
                push_decimal(&mut out, *index as u64);
            },
        }
        out
    }
}

/// The model of a result: the value as it is, a failure by its model.
pub open spec fn outcome<T>(result: Result<T, InterpretError>) -> Result<T, Failure> {
    match result {
        Ok(value) => Ok(value),
        Err(error) => Err(error@),
    }
}

} // verus!
