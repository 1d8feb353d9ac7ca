//! The assignment statement.

use crate::error::{outcome, Failure, InterpretError};
use crate::interpreter::{
    accepts_all, evaluates, is_functional, lemma_evaluates_one_result, Interpreter, Operator, Store,
    DEFAULT_ARRAY_LENGTH,
};
use crate::node_type::NodeType;
use crate::number::{index_of, to_index};
use crate::parse_node::{lemma_view, Node, ParseNode};
use crate::text::same_text;
use vstd::prelude::*;
use vstd::string::*;

verus! {

/// The nodes of the statement on a line: the children of the line without
/// the line number, if it starts with one.
pub open spec fn statement_of(line: Node) -> Seq<Node> {
    if line.children.len() > 0 && line.children[0].kind == NodeType::LineNumber {
        line.children.skip(1)
    } else {
        line.children
    }
}

/// Whether `node` is the keyword `LET`.
pub open spec fn is_let(node: Node) -> bool {
    node.kind == NodeType::StatementName && node.text == "LET"@
}

/// What an assignment assigns to, and the nodes it takes its numbers from.
pub ghost enum Assignment {
    /// A scalar, and the node of its value, if there is one.
    Scalar { name: Seq<char>, value: Option<Node> },
    /// An element of an array, the node of its index, and the node of its
    /// value, if there is one.
    Element { name: Seq<char>, index: Node, value: Option<Node> },
}

/// The node at `position`, if there is one.
pub open spec fn node_at(statement: Seq<Node>, position: int) -> Option<Node> {
    if 0 <= position < statement.len() {
        Some(statement[position])
    } else {
        None
    }
}

/// The shape of an assignment. The keyword `LET` comes first and an
/// identifier second. Where an expression is third, it is the index of an
/// element and the value follows it, behind an `=` if there is one. Where
/// `=` is third, the statement assigns to a scalar and the value follows.
pub open spec fn shape_of(statement: Seq<Node>) -> Result<Assignment, Failure> {
    if statement.len() < 1 || !is_let(statement[0]) {
        Err(Failure::MissingLetKeyword)
    } else if statement.len() < 2 || statement[1].kind != NodeType::Identifier {
        Err(Failure::MissingVariable)
    } else if statement.len() >= 3 && statement[2].kind == NodeType::Expression {
        Ok(
            Assignment::Element {
                name: statement[1].text,
                index: statement[2],
                value: if statement.len() > 3 && statement[3].is_symbol("="@) {
                    node_at(statement, 4)
                } else {
                    node_at(statement, 3)
                },
            },
        )
    } else if statement.len() >= 3 && statement[2].is_symbol("="@) {
        Ok(Assignment::Scalar { name: statement[1].text, value: node_at(statement, 3) })
    } else {
        Err(Failure::MissingEquals)
    }
}

/// Nothing is stored and the statement fails with `failure`.
pub open spec fn fails(before: Store, failure: Failure, after: Store, out: Result<(), Failure>) -> bool {
    after == before && out == Err::<(), Failure>(failure)
}

/// What a scalar assignment does once its value is evaluated: the failure
/// of the value is the failure of the statement, and a value is stored.
pub open spec fn scalar_gives(
    before: Store,
    name: Seq<char>,
    value: Result<u64, Failure>,
    after: Store,
    out: Result<(), Failure>,
) -> bool {
    match value {
        Err(failure) => fails(before, failure, after, out),
        Ok(bits) => after == before.with_scalar(name, bits) && out == Ok::<(), Failure>(()),
    }
}

/// What an element assignment does once its index and its value are
/// evaluated. In this order: a failure of the index, a missing value, a
/// failure of the value, and an index that is no whole number or is
/// negative end the statement with nothing stored. After that the array is
/// made if it does not exist, and the element is set if the index lies
/// inside the array.
pub open spec fn element_gives(
    before: Store,
    name: Seq<char>,
    index: Result<u64, Failure>,
    node: Option<Node>,
    value: Result<u64, Failure>,
    after: Store,
    out: Result<(), Failure>,
) -> bool {
    match index {
        Err(failure) => fails(before, failure, after, out),
        Ok(index_bits) => if node is None {
            fails(before, Failure::MissingValue, after, out)
        } else {
            match value {
                Err(failure) => fails(before, failure, after, out),
                Ok(bits) => match index_of(index_bits) {
                    None => fails(before, Failure::InvalidArrayIndex, after, out),
                    Some(i) => {
                        &&& after == before.touched(name).with_element(name, i, bits)
                        &&& out == match before.touched(name).element(name, i) {
                            Ok(_) => Ok::<(), Failure>(()),
                            Err(failure) => Err(failure),
                        }
                    },
                },
            }
        },
    }
}

/// Whether running the assignment on `line` can take the store from
/// `before` to `after` with the result `out`, with the arithmetic of
/// `parse` and `apply`.
pub open spec fn assigns<P: Fn(&str) -> Option<u64>, A: Fn(Operator, u64, u64) -> u64>(
    before: Store,
    line: Node,
    parse: P,
    apply: A,
    after: Store,
    out: Result<(), Failure>,
) -> bool {
    match shape_of(statement_of(line)) {
        Err(failure) => fails(before, failure, after, out),
        Ok(Assignment::Scalar { name, value }) => match value {
            None => fails(before, Failure::MissingValue, after, out),
            Some(node) => assigns_scalar(before, name, node, parse, apply, after, out),
        },
        Ok(Assignment::Element { name, index, value }) => assigns_element(
            before,
            name,
            index,
            value,
            parse,
            apply,
            after,
            out,
        ),
    }
}

/// Whether assigning the value of `node` to the scalar `name` can take the
/// store from `before` to `after` with the result `out`.
pub open spec fn assigns_scalar<P: Fn(&str) -> Option<u64>, A: Fn(Operator, u64, u64) -> u64>(
    before: Store,
    name: Seq<char>,
    node: Node,
    parse: P,
    apply: A,
    after: Store,
    out: Result<(), Failure>,
) -> bool {
    exists|value: Result<u64, Failure>|
        evaluates(before, node, parse, apply, value) && #[trigger] scalar_gives(
            before,
            name,
            value,
            after,
            out,
        )
}

/// Whether assigning the value of `node` to the element of the array `name`
/// that `index` gives can take the store from `before` to `after` with the
/// result `out`. The value is evaluated only where the index was.
pub open spec fn assigns_element<P: Fn(&str) -> Option<u64>, A: Fn(Operator, u64, u64) -> u64>(
    before: Store,
    name: Seq<char>,
    index: Node,
    node: Option<Node>,
    parse: P,
    apply: A,
    after: Store,
    out: Result<(), Failure>,
) -> bool {
    exists|i: Result<u64, Failure>, value: Result<u64, Failure>|
        {
            &&& evaluates(before, index, parse, apply, i)
            &&& i is Ok && node is Some ==> evaluates(before, node->0, parse, apply, value)
            &&& #[trigger] element_gives(before, name, i, node, value, after, out)
        }
}

/// An element assignment checks its index once index and value are
/// evaluated. An index that is no whole number, or is negative, fails as
/// invalid and stores nothing. A whole index at or beyond the length of the
/// array fails as out of bounds; for an array that the statement is the
/// first to use, that is every index from the default length on.
pub proof fn lemma_element_assignment_checks_index(
    before: Store,
    name: Seq<char>,
    index_bits: u64,
    node: Node,
    bits: u64,
    after: Store,
    out: Result<(), Failure>,
)
    requires
        element_gives(before, name, Ok(index_bits), Some(node), Ok(bits), after, out),
    ensures
        index_of(index_bits) is None ==> out == Err::<(), Failure>(Failure::InvalidArrayIndex)
            && after == before,
        index_of(index_bits) matches Some(index) ==> {
            &&& index >= before.touched(name).arrays[name].len() ==> out == Err::<(), Failure>(
                Failure::ArrayIndexOutOfBounds { name, index },
            )
            &&& index < before.touched(name).arrays[name].len() ==> out == Ok::<(), Failure>(())
            &&& !before.arrays.contains_key(name) ==> before.touched(name).arrays[name].len()
                == DEFAULT_ARRAY_LENGTH
        },
{
}

/// With arithmetic that is a function, an assignment has one outcome: the
/// store before it, the line and the arithmetic decide the store after it
/// and its result.
pub proof fn lemma_assigns_one_outcome<P: Fn(&str) -> Option<u64>, A: Fn(Operator, u64, u64) -> u64>(
    before: Store,
    line: Node,
    parse: P,
    apply: A,
    first: (Store, Result<(), Failure>),
    second: (Store, Result<(), Failure>),
)
    requires
        is_functional(parse, apply),
        assigns(before, line, parse, apply, first.0, first.1),
        assigns(before, line, parse, apply, second.0, second.1),
    ensures
        first == second,
{
    match shape_of(statement_of(line)) {
        Ok(Assignment::Scalar { name, value: Some(node) }) => {
            let a = choose|value: Result<u64, Failure>|
                evaluates(before, node, parse, apply, value) && #[trigger] scalar_gives(
                    before,
                    name,
                    value,
                    first.0,
                    first.1,
                );
            let b = choose|value: Result<u64, Failure>|
                evaluates(before, node, parse, apply, value) && #[trigger] scalar_gives(
                    before,
                    name,
                    value,
                    second.0,
                    second.1,
                );
            lemma_evaluates_one_result(before, node, parse, apply, a, b);
        },
        Ok(Assignment::Element { name, index, value: node }) => {
            let (i, a) = choose|i: Result<u64, Failure>, value: Result<u64, Failure>|
                {
                    &&& evaluates(before, index, parse, apply, i)
                    &&& i is Ok && node is Some ==> evaluates(before, node->0, parse, apply, value)
                    &&& #[trigger] element_gives(before, name, i, node, value, first.0, first.1)
                };
            let (j, b) = choose|i: Result<u64, Failure>, value: Result<u64, Failure>|
                {
                    &&& evaluates(before, index, parse, apply, i)
                    &&& i is Ok && node is Some ==> evaluates(before, node->0, parse, apply, value)
                    &&& #[trigger] element_gives(before, name, i, node, value, second.0, second.1)
                };
            lemma_evaluates_one_result(before, index, parse, apply, i, j);
            if i is Ok && node is Some {
                lemma_evaluates_one_result(before, node->0, parse, apply, a, b);
            }
        },
        _ => {},
    }
}

/// After an assignment to a scalar that did not fail, the scalar reads as
/// a value of the expression behind the `=`. The value is returned.
pub proof fn lemma_scalar_assignment_is_read_back<
    P: Fn(&str) -> Option<u64>,
    A: Fn(Operator, u64, u64) -> u64,
>(before: Store, line: Node, parse: P, apply: A, after: Store) -> (value: u64)
    requires
        shape_of(statement_of(line)) matches Ok(Assignment::Scalar { value: Some(_), .. }),
        assigns(before, line, parse, apply, after, Ok(())),
    ensures
        shape_of(statement_of(line)) matches Ok(Assignment::Scalar { name, value: Some(node) })
            && evaluates(before, node, parse, apply, Ok(value)) && after.scalar(name) == value,
{
    let name = shape_of(statement_of(line))->Ok_0->Scalar_name;
    let node = shape_of(statement_of(line))->Ok_0->Scalar_value->0;
    let value = choose|value: Result<u64, Failure>|
        evaluates(before, node, parse, apply, value) && #[trigger] scalar_gives(
            before,
            name,
            value,
            after,
            Ok(()),
        );
    value->Ok_0
}

/// After an assignment to an element that did not fail, the array exists
/// and the element reads as a value of the expression of the statement, at
/// the index that a value of the index expression stands for. The bit
/// patterns of the index and of the value are returned.
pub proof fn lemma_element_assignment_is_read_back<
    P: Fn(&str) -> Option<u64>,
    A: Fn(Operator, u64, u64) -> u64,
>(before: Store, line: Node, parse: P, apply: A, after: Store) -> (stored: (u64, u64))
    requires
        shape_of(statement_of(line)) is Ok,
        shape_of(statement_of(line))->Ok_0 is Element,
        assigns(before, line, parse, apply, after, Ok(())),
    ensures
        shape_of(statement_of(line)) matches Ok(Assignment::Element { name, index, value })
            && value is Some && evaluates(before, index, parse, apply, Ok(stored.0)) && evaluates(
            before,
            value->0,
            parse,
            apply,
            Ok(stored.1),
        ) && index_of(stored.0) is Some && after.arrays.contains_key(name) && after.element(
            name,
            index_of(stored.0)->0,
        ) == Ok::<u64, Failure>(stored.1),
{
    let name = shape_of(statement_of(line))->Ok_0->Element_name;
    let index = shape_of(statement_of(line))->Ok_0->Element_index;
    let node = shape_of(statement_of(line))->Ok_0->Element_value;
    let (i, value) = choose|i: Result<u64, Failure>, value: Result<u64, Failure>|
        {
            &&& evaluates(before, index, parse, apply, i)
            &&& i is Ok && node is Some ==> evaluates(before, node->0, parse, apply, value)
            &&& #[trigger] element_gives(before, name, i, node, value, after, Ok(()))
        };
    (i->Ok_0, value->Ok_0)
}

/// Whether `node` is the symbol `=`.
fn is_equals(node: &ParseNode) -> (r: bool)
    ensures
        r == node@.is_symbol("="@),
{
    node.node_type == NodeType::Symbol && same_text(node.value.as_str(), "=")
}

/// Runs the assignment on `node`, a line of the program: evaluates its index
/// and value with the arithmetic of `parse` and `apply`, and stores the
/// value.
pub fn let_statement<P: Fn(&str) -> Option<u64>, A: Fn(Operator, u64, u64) -> u64>(
    interpreter: &mut Interpreter,
    node: &ParseNode,
    parse: &P,
    apply: &A,
) -> (out: Result<(), InterpretError>)
    requires
        accepts_all(*parse, *apply),
    ensures
        assigns(old(interpreter)@, node@, *parse, *apply, final(interpreter)@, outcome(out)),
        final(interpreter).program() == old(interpreter).program(),
{
    let children = node.get_children();
    let ghost statement = statement_of(node@);
    let ghost before = interpreter@;
    let count = children.len();
    let start: usize = if count > 0 && children[0].node_type == NodeType::LineNumber {
        1
    } else {
        0
    };
    proof {
        assert forall|k: int| 0 <= k < statement.len() implies statement[k] == (
        #[trigger] children@[start + k])@ by {}
    }
    let length = count - start;
    if length < 1 || !(children[start].node_type == NodeType::StatementName && same_text(
        children[start].value.as_str(),
        "LET",
    )) {
        return Err(InterpretError::MissingLetKeyword);
    }
    if length < 2 || children[start + 1].node_type != NodeType::Identifier {
        return Err(InterpretError::MissingVariable);
    }
    let name = children[start + 1].value.as_str();
    if length >= 3 && children[start + 2].node_type == NodeType::Expression {
        let index = interpreter.evaluate_expression(&children[start + 2], parse, apply);
        let position: usize = if length > 3 && is_equals(&children[start + 3]) {
            4
        } else {
            3
        };
        let ghost value_node = node_at(statement, position as int);
        let index_bits = match index {
            Ok(bits) => bits,
            Err(error) => {
                assert(element_gives(
                    before,
                    name@,
                    Err(error@),
                    value_node,
                    Ok(0),
                    before,
                    Err(error@),
                ));
                return Err(error);
            },
        };
        if position >= length {
            assert(element_gives(
                before,
                name@,
                Ok(index_bits),
                value_node,
                Ok(0),
                before,
                Err(Failure::MissingValue),
            ));
            return Err(InterpretError::MissingValue);
        }
        let value = interpreter.evaluate_expression(&children[start + position], parse, apply);
        let bits = match value {
            Ok(bits) => bits,
            Err(error) => {
                assert(element_gives(
                    before,
                    name@,
                    Ok(index_bits),
                    value_node,
                    Err(error@),
                    before,
                    Err(error@),
                ));
                return Err(error);
            },
        };
        let i = match to_index(index_bits) {
            Some(i) => i,
            None => {
                assert(element_gives(
                    before,
                    name@,
                    Ok(index_bits),
                    value_node,
                    Ok(bits),
                    before,
                    Err(Failure::InvalidArrayIndex),
                ));
                return Err(InterpretError::InvalidArrayIndex);
            },
        };
        let out = interpreter.set_float_array(name, i, bits);
        assert(element_gives(
            before,
            name@,
            Ok(index_bits),
            value_node,
            Ok(bits),
            interpreter@,
            outcome(out),
        ));
        out
    } else if length >= 3 && is_equals(&children[start + 2]) {
        if length < 4 {
            return Err(InterpretError::MissingValue);
        }
        let value = interpreter.evaluate_expression(&children[start + 3], parse, apply);
        match value {
            Ok(bits) => {
                interpreter.set_float_scalar(name, bits);
                assert(scalar_gives(before, name@, Ok(bits), interpreter@, Ok(())));
                Ok(())
            },
            Err(error) => {
                assert(scalar_gives(before, name@, Err(error@), before, Err(error@)));
                Err(error)
            },
        }
    } else {
        Err(InterpretError::MissingEquals)
    }
}

} // verus!
