//! A command that a line of the program stands for.

use crate::text::{decimal_of, push_decimal};
use vstd::prelude::*;
use vstd::string::*;

verus! {

/// The kinds of statement that a command can run.
#[derive(Debug, PartialEq, Eq, Clone, Copy, Structural)]
pub enum StatementKind {
    /// Write the arguments.
    Print,
}

/// A statement with its line number and its arguments.
pub struct Command {
    line_number: Option<u16>,
    kind: StatementKind,
    arguments: Vec<String>,
}

/// The mathematical model of a [`Command`].
pub ghost struct CommandModel {
    pub line_number: Option<u16>,
    pub kind: StatementKind,
    pub arguments: Seq<Seq<char>>,
}

impl View for Command {
    type V = CommandModel;

    closed spec fn view(&self) -> CommandModel {
        CommandModel {
            line_number: self.line_number,
            kind: self.kind,
            arguments: self.arguments.deep_view(),
        }
    }
}

/// A line number as it is written in a report: `Some(` and `)` around the
/// number in decimal notation, or `None`.
pub open spec fn label_of(line_number: Option<u16>) -> Seq<char> {
    match line_number {
        Some(n) => "Some("@ + decimal_of(n as nat) + ")"@,
        None => "None"@,
    }
}

/// The words with one space between each two of them.
pub open spec fn joined(words: Seq<Seq<char>>) -> Seq<char>
    decreases words.len(),
{
    if words.len() == 0 {
        Seq::empty()
    } else if words.len() == 1 {
        words[0]
    } else {
        joined(words.drop_last()) + " "@ + words.last()
    }
}

impl CommandModel {
    /// The report of the command.
    pub open spec fn report(self) -> Seq<char> {
        "Line "@ + label_of(self.line_number) + ": PRINT "@ + joined(self.arguments)
    }
}

impl Command {
    /// Makes a command from its parts.
    pub fn new(line_number: Option<u16>, kind: StatementKind, arguments: Vec<String>) -> (out: Self)
        ensures
            out@ == (CommandModel { line_number, kind, arguments: arguments.deep_view() }),
    {
        Self { line_number, kind, arguments }
    }

    /// Runs the command: returns its report, which names the line, the
    /// statement and the arguments.
    pub fn execute(&self) -> (out: String)
        ensures
            out@ == self@.report(),
    {
        let mut out = String::new();
        out.append("Line ");
        match self.line_number {
            Some(n) => {
                out.append("Some(");
                push_decimal(&mut out, n as u64);
                out.append(")");
            },
            None => {
                out.append("None");
            },
        }
        match self.kind {
            StatementKind::Print => {
                out.append(": PRINT ");
            },
        }
        let ghost head = out@;
        let ghost words = self.arguments.deep_view();
        let mut i: usize = 0;
        while i < self.arguments.len()
            invariant
                i <= self.arguments.len(),
                words == self.arguments.deep_view(),
                out@ == head + joined(words.take(i as int)),
            decreases self.arguments.len() - i,
        {
            proof {
                assert(words.take(i + 1).drop_last() =~= words.take(i as int));
            }
            if i > 0 {
                out.append(" ");
            }
            out.append(self.arguments[i].as_str());
            i += 1;
        }
        assert(words.take(i as int) =~= words);
        out
    }
}

} // verus!
