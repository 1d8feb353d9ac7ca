//! A tokenizer, tree builder and evaluator for lines of a small
//! line-numbered BASIC dialect, with machine-checked contracts.
//!
//! Text flows one way: [`lexer::lex`] cuts it into tokens,
//! [`parser::parse`] classifies the tokens and folds each line into a
//! tree, and [`interpreter::Interpreter`] evaluates expressions and
//! assignments against a variable store.
//!
//! Numbers are doubles, and the library holds them as bit patterns (see
//! [`number`]). It decides what is computed and in which order; the
//! arithmetic itself is handed in by the caller as two functions.

pub mod command;
pub mod error;
pub mod expressions;
pub mod interpreter;
pub mod let_statement;
pub mod lexer;
pub mod node_type;
pub mod number;
pub mod parse_node;
pub mod parser;
pub mod parsing;
pub mod program;
pub mod text;

pub use lexer::lex;
pub use node_type::NodeType;
pub use parse_node::{Node, ParseNode};
pub use parser::parse;
pub use program::interpret;
