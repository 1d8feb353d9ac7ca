//! Running a program: its lines in order, each as an assignment.

use crate::error::{outcome, Failure, InterpretError};
use crate::interpreter::{accepts_all, Interpreter, Operator, Store};
use crate::let_statement::{assigns, let_statement};
use crate::parse_node::{lemma_view, Node, ParseNode};
use crate::text::{all_digits, decimal_value, digit_value, is_digit};
use vstd::prelude::*;
use vstd::std_specs::iter::IteratorSpec;
use vstd::string::*;

verus! {

/// The digits of a number that may be written with a `+` in front.
pub open spec fn unsigned_digits(text: Seq<char>) -> Seq<char> {
    if text.len() > 0 && text[0] == '+' {
        text.skip(1)
    } else {
        text
    }
}

/// The line number that a text stands for: one or more decimal digits,
/// with or without a `+` in front, that give a number of sixteen bits.
pub open spec fn line_number_of(text: Seq<char>) -> Option<u16> {
    let digits = unsigned_digits(text);
    if digits.len() > 0 && all_digits(digits) && decimal_value(digits) <= u16::MAX {
        Some(decimal_value(digits) as u16)
    } else {
        None
    }
}

/// Reads a line number.
pub fn read_line_number(text: &str) -> (out: Option<u16>)
    ensures
        out == line_number_of(text@),
{
    let ghost digits = unsigned_digits(text@);
    let ghost offset: int = text@.len() - digits.len();
    let ghost mut count: int = 0;
    let mut value: u32 = 0;
    let mut first = true;
    let mut any = false;
    let mut valid = true;
    let mut fits = true;
    for c in it: text.chars()
        invariant
            it.seq() == text@,
            digits == unsigned_digits(text@),
            offset == text@.len() - digits.len(),
            0 <= offset <= 1,
            first == (it.index() == 0),
            count == (if it.index() >= offset { it.index() - offset } else { 0 }),
            any == (count > 0),
            valid == all_digits(digits.take(count)),
            fits ==> value <= u16::MAX,
            valid && fits ==> value == decimal_value(digits.take(count)),
            valid && !fits ==> decimal_value(digits.take(count)) > u16::MAX,
    {
        proof {
            if it.index() >= offset {
                assert(digits.take(count + 1).drop_last() =~= digits.take(count));
                assert(digits.take(count + 1).last() == c);
            }
        }
        if !(first && c == '+') {
            if '0' <= c && c <= '9' {
                if fits {
                    let digit = (c as u32) - ('0' as u32);
                    value = value * 10 + digit;
                    if value > 0xffff {
                        fits = false;
                    }
                }
            } else {
                valid = false;
            }
            any = true;
            proof {
                count = count + 1;
            }
        }
        first = false;
    }
    proof {
        assert(digits.take(count) =~= digits);
    }
    if any && valid && fits {
        Some(value as u16)
    } else {
        None
    }
}

/// The number of a line: what its first node stands for, nothing for an
/// empty line, and a failure that holds the dump of the first node where
/// that is no line number of sixteen bits.
pub open spec fn number_of_line(line: Node) -> Result<Option<u16>, Failure> {
    if line.children.len() == 0 {
        Ok(None)
    } else {
        match line_number_of(line.children[0].text) {
            Some(number) => Ok(Some(number)),
            None => Err(Failure::LineNumberParseFailure(line.children[0].dump(0))),
        }
    }
}

/// Reads the number of a line.
pub fn line_number(line: &ParseNode) -> (out: Result<Option<u16>, InterpretError>)
    ensures
        outcome(out) == number_of_line(line@),
{
    let children = line.get_children();
    if children.len() == 0 {
        return Ok(None);
    }
    let first = &children[0];
    match read_line_number(first.get_value()) {
        Some(number) => Ok(Some(number)),
        None => Err(InterpretError::LineNumberParseFailure(first.to_string())),
    }
}

/// What is written before the first line runs.
pub open spec fn header() -> Seq<char> {
    "Interpreting...\n"@
}

/// What is written about a line whose number cannot be read: the failure
/// in words, on a line of its own.
pub open spec fn warning_of(line: Node) -> Seq<char> {
    match number_of_line(line) {
        Ok(_) => Seq::empty(),
        Err(failure) => failure.message() + "\n"@,
    }
}

/// The warnings about the first `count` lines, in order.
pub open spec fn warnings_of(lines: Seq<Node>, count: nat) -> Seq<char>
    decreases count,
{
    if count == 0 {
        Seq::empty()
    } else {
        warnings_of(lines, (count - 1) as nat) + warning_of(lines[count - 1])
    }
}

/// What is written when a line starts to run: the dump of the line.
pub open spec fn echo_of(line: Node) -> Seq<char> {
    "Line: "@ + line.dump(0) + "\n"@
}

/// The echoes of the first `count` lines, in order.
pub open spec fn echoes_of(lines: Seq<Node>, count: nat) -> Seq<char>
    decreases count,
{
    if count == 0 {
        Seq::empty()
    } else {
        echoes_of(lines, (count - 1) as nat) + echo_of(lines[count - 1])
    }
}

/// All that is written when `count` lines of the program start to run: the
/// header, the warnings about all lines, and the echoes of those that ran.
pub open spec fn transcript_of(lines: Seq<Node>, count: nat) -> Seq<char> {
    header() + warnings_of(lines, lines.len()) + echoes_of(lines, count)
}

/// Whether the first `count` lines can run without failure and take the
/// store from `before` to `after`.
pub open spec fn reaches<P: Fn(&str) -> Option<u64>, A: Fn(Operator, u64, u64) -> u64>(
    before: Store,
    lines: Seq<Node>,
    parse: P,
    apply: A,
    count: nat,
    after: Store,
) -> bool
    decreases count,
{
    if count == 0 {
        after == before
    } else {
        exists|middle: Store|
            reaches(before, lines, parse, apply, (count - 1) as nat, middle) && #[trigger] assigns(
                middle,
                lines[count - 1],
                parse,
                apply,
                after,
                Ok(()),
            )
    }
}

/// Whether the program can run like this: `count` lines start, all but the
/// last of them without failure, and the result `out` is the failure of the
/// last of them, or success where all lines of the program ran.
pub open spec fn interprets<P: Fn(&str) -> Option<u64>, A: Fn(Operator, u64, u64) -> u64>(
    lines: Seq<Node>,
    parse: P,
    apply: A,
    count: nat,
    out: Result<(), Failure>,
) -> bool {
    match out {
        Ok(_) => count == lines.len() && exists|after: Store| #[trigger]
            reaches(Store::empty(), lines, parse, apply, count, after),
        Err(failure) => 1 <= count <= lines.len() && exists|middle: Store, after: Store|
            reaches(Store::empty(), lines, parse, apply, (count - 1) as nat, middle)
                && #[trigger] assigns(
                middle,
                lines[count - 1],
                parse,
                apply,
                after,
                Err(failure),
            ),
    }
}

/// Runs a program with the arithmetic of `parse` and `apply`: every line in
/// order as an assignment, up to the first that fails. Returns what is to be
/// written, and the failure of the line that failed.
pub fn interpret<P: Fn(&str) -> Option<u64>, A: Fn(Operator, u64, u64) -> u64>(
    root: &ParseNode,
    parse: &P,
    apply: &A,
) -> (out: (String, Result<(), InterpretError>))
    requires
        accepts_all(*parse, *apply),
    ensures
        exists|count: nat|
            #![trigger transcript_of(root@.children, count)]
            {
                &&& interprets(root@.children, *parse, *apply, count, outcome(out.1))
                &&& out.0@ == transcript_of(root@.children, count)
            },
{
    let mut output = String::new();
    output.append("Interpreting...\n");
    let mut interpreter = Interpreter::new(root.clone());
    let lines = root.get_children();
    let ghost nodes = root@.children;

    let mut i: usize = 0;
    while i < lines.len()
        invariant
            i <= lines.len(),
            nodes.len() == lines.len(),
            forall|k: int| 0 <= k < lines.len() ==> nodes[k] == (#[trigger] lines@[k])@,
            output@ == header() + warnings_of(nodes, i as nat),
        decreases lines.len() - i,
    {
        match line_number(&lines[i]) {
            Ok(_) => {},
            Err(failure) => {
                output.append(failure.message().as_str());
                output.append("\n");
            },
        }
        i += 1;
    }

    let ghost preface = output@;
    let mut i: usize = 0;
    while i < lines.len()
        invariant
            i <= lines.len(),
            accepts_all(*parse, *apply),
            nodes == root@.children,
            nodes.len() == lines.len(),
            forall|k: int| 0 <= k < lines.len() ==> nodes[k] == (#[trigger] lines@[k])@,
            preface == header() + warnings_of(nodes, nodes.len()),
            output@ == preface + echoes_of(nodes, i as nat),
            reaches(Store::empty(), nodes, *parse, *apply, i as nat, interpreter@),
        decreases lines.len() - i,
    {
        output.append("Line: ");
        output.append(lines[i].to_string().as_str());
        output.append("\n");
        let result = let_statement(&mut interpreter, &lines[i], parse, apply);
        match result {
            Ok(_) => {},
            Err(error) => {
                assert(output@ == transcript_of(nodes, (i + 1) as nat));
                return (output, Err(error));
            },
        }
        i += 1;
    }
    assert(output@ == transcript_of(nodes, i as nat));
    (output, Ok(()))
}

} // verus!
