//! The variable store and the expression evaluator.
//!
//! The evaluator walks a tree and decides what is computed, in which order,
//! and which failure ends it. The arithmetic itself is done by the caller:
//! one function that reads a literal and one that applies an operator, both
//! on the bit patterns of doubles (see [`crate::number`]).

use crate::error::{outcome, Failure, InterpretError};
use crate::node_type::NodeType;
use crate::number::ZERO;
use crate::parse_node::{lemma_view, Node, ParseNode};
use crate::text::same_text;
use vstd::hash_map::StringHashMap;
use vstd::prelude::*;
use vstd::string::*;

verus! {

/// The length of an array that is made by its first use.
pub const DEFAULT_ARRAY_LENGTH: usize = 10;

/// The five arithmetic operators.
#[derive(Debug, PartialEq, Eq, Clone, Copy, Structural)]
pub enum Operator {
    /// `+`
    Add,
    /// `-`
    Subtract,
    /// `*`
    Multiply,
    /// `/`
    Divide,
    /// `^`
    Power,
}

/// The operator that a symbol stands for.
pub open spec fn operator_of(text: Seq<char>) -> Option<Operator> {
    if text == "+"@ {
        Some(Operator::Add)
    } else if text == "-"@ {
        Some(Operator::Subtract)
    } else if text == "*"@ {
        Some(Operator::Multiply)
    } else if text == "/"@ {
        Some(Operator::Divide)
    } else if text == "^"@ {
        Some(Operator::Power)
    } else {
        None
    }
}

/// The operator that a symbol stands for.
pub fn operator(text: &str) -> (out: Option<Operator>)
    ensures
        out == operator_of(text@),
{
    if same_text(text, "+") {
        Some(Operator::Add)
    } else if same_text(text, "-") {
        Some(Operator::Subtract)
    } else if same_text(text, "*") {
        Some(Operator::Multiply)
    } else if same_text(text, "/") {
        Some(Operator::Divide)
    } else if same_text(text, "^") {
        Some(Operator::Power)
    } else {
        None
    }
}

/// The mathematical model of the variable store: the scalars that were set
/// and the arrays that exist, each by its name.
pub ghost struct Store {
    pub scalars: Map<Seq<char>, u64>,
    pub arrays: Map<Seq<char>, Seq<u64>>,
}

impl Store {
    /// The store of a program that has not run yet.
    pub open spec fn empty() -> Store {
        Store { scalars: Map::empty(), arrays: Map::empty() }
    }

    /// The value of a scalar: zero until it is set.
    pub open spec fn scalar(self, name: Seq<char>) -> u64 {
        if self.scalars.contains_key(name) {
            self.scalars[name]
        } else {
            ZERO
        }
    }

    /// The store after a scalar is set.
    pub open spec fn with_scalar(self, name: Seq<char>, value: u64) -> Store {
        Store { scalars: self.scalars.insert(name, value), ..self }
    }

    /// The store after an array of `size` zeros is made under `name`, in
    /// place of any array of that name.
    pub open spec fn with_array(self, name: Seq<char>, size: nat) -> Store {
        Store { arrays: self.arrays.insert(name, Seq::new(size, |i: int| ZERO)), ..self }
    }

    /// The store after `name` is used as an array: where no array of that
    /// name exists, one of the default length is made.
    pub open spec fn touched(self, name: Seq<char>) -> Store {
        if self.arrays.contains_key(name) {
            self
        } else {
            self.with_array(name, DEFAULT_ARRAY_LENGTH as nat)
        }
    }

    /// What reading element `index` of the array `name` gives, once the
    /// array exists.
    pub open spec fn element(self, name: Seq<char>, index: usize) -> Result<u64, Failure> {
        if index < self.arrays[name].len() {
            Ok(self.arrays[name][index as int])
        } else {
            Err(Failure::ArrayIndexOutOfBounds { name, index })
        }
    }

    /// The store after element `index` of the array `name` is set; the same
    /// store where the index is outside the array.
    pub open spec fn with_element(self, name: Seq<char>, index: usize, value: u64) -> Store {
        if index < self.arrays[name].len() {
            Store {
                arrays: self.arrays.insert(name, self.arrays[name].update(index as int, value)),
                ..self
            }
        } else {
            self
        }
    }
}

/// A scalar that was never set reads as zero.
pub proof fn lemma_unset_scalar_is_zero(store: Store, name: Seq<char>)
    requires
        !store.scalars.contains_key(name),
    ensures
        store.scalar(name) == ZERO,
        Store::empty().scalar(name) == ZERO,
{
}

/// A scalar reads as what it was last set to, and setting it changes no
/// other scalar and no array.
pub proof fn lemma_scalar_round_trip(store: Store, name: Seq<char>, value: u64, other: Seq<char>)
    ensures
        store.with_scalar(name, value).scalar(name) == value,
        other != name ==> store.with_scalar(name, value).scalar(other) == store.scalar(other),
        store.with_scalar(name, value).arrays == store.arrays,
{
}

/// An array that is made by its first use has the default length and holds
/// zeros: its elements below that length read as zero, and at or beyond it
/// there is none.
pub proof fn lemma_first_use_makes_array(store: Store, name: Seq<char>, index: usize)
    requires
        !store.arrays.contains_key(name),
    ensures
        store.touched(name).arrays[name].len() == DEFAULT_ARRAY_LENGTH,
        index < DEFAULT_ARRAY_LENGTH ==> store.touched(name).element(name, index) == Ok::<
            u64,
            Failure,
        >(ZERO),
        index >= DEFAULT_ARRAY_LENGTH ==> store.touched(name).element(name, index) == Err::<
            u64,
            Failure,
        >(Failure::ArrayIndexOutOfBounds { name, index }),
{
}

/// An element inside its array reads as what it was last set to; setting it
/// changes the length of no array and no other element. An element outside
/// its array cannot be set: the store stays as it is.
pub proof fn lemma_element_round_trip(
    store: Store,
    name: Seq<char>,
    index: usize,
    value: u64,
    other: usize,
)
    requires
        store.arrays.contains_key(name),
    ensures
        store.element(name, index) is Ok ==> store.with_element(name, index, value).element(
            name,
            index,
        ) == Ok::<u64, Failure>(value),
        other != index ==> store.with_element(name, index, value).element(name, other)
            == store.element(name, other),
        store.with_element(name, index, value).arrays[name].len() == store.arrays[name].len(),
        store.element(name, index) is Err ==> store.with_element(name, index, value) == store,
{
}

/// The arithmetic that the caller brings can be asked anything: `parse`
/// takes every text and `apply` every operator and pair of operands.
pub open spec fn accepts_all<P: Fn(&str) -> Option<u64>, A: Fn(Operator, u64, u64) -> u64>(
    parse: P,
    apply: A,
) -> bool {
    &&& forall|text: &str| call_requires(parse, (text,))
    &&& forall|operator: Operator, left: u64, right: u64|
        call_requires(apply, (operator, left, right))
}

/// What a numeric leaf gives: what `parse` makes of its text, or a failure
/// where `parse` makes nothing of it.
pub open spec fn literal_gives<P: Fn(&str) -> Option<u64>>(
    parse: P,
    text: Seq<char>,
    out: Result<u64, Failure>,
) -> bool {
    exists|source: &str, parsed: Option<u64>|
        {
            &&& source@ == text
            &&& #[trigger] call_ensures(parse, (source,), parsed)
            &&& out == match parsed {
                Some(bits) => Ok::<u64, Failure>(bits),
                None => Err(Failure::MalformedNumericLiteral(text)),
            }
        }
}

/// The failure `failure` of an operand is the result.
pub open spec fn fails_with(failure: Failure, out: Result<u64, Failure>) -> bool {
    out == Err::<u64, Failure>(failure)
}

/// What two operands and the symbol between them give: the failure of the
/// right operand, else a failure for a symbol that is no operator, else what
/// `apply` makes of the three.
pub open spec fn operation_gives<A: Fn(Operator, u64, u64) -> u64>(
    apply: A,
    symbol: Seq<char>,
    left: u64,
    right: Result<u64, Failure>,
    out: Result<u64, Failure>,
) -> bool {
    match right {
        Err(failure) => out == Err::<u64, Failure>(failure),
        Ok(right) => match operator_of(symbol) {
            None => out == Err::<u64, Failure>(Failure::UnknownOperator(symbol)),
            Some(operator) => out is Ok && call_ensures(apply, (operator, left, right), out->Ok_0),
        },
    }
}

/// Whether the first of three children is `(` and the last is `)`.
pub open spec fn is_bracketed(children: Seq<Node>) -> bool {
    children.len() == 3 && children[0].is_symbol("("@) && children[2].is_symbol(")"@)
}

/// Whether `out` is a result of evaluating `node` with the scalars of
/// `store` and the arithmetic of `parse` and `apply`.
///
/// A numeric leaf gives what `parse` makes of its text. An identifier gives
/// its scalar. An expression of three children gives its middle child where
/// that stands in brackets; otherwise its left operand is evaluated, then
/// its right one, then the symbol between them is read, and the first of
/// these that fails is the result. Any other node is a failure.
pub open spec fn evaluates<P: Fn(&str) -> Option<u64>, A: Fn(Operator, u64, u64) -> u64>(
    store: Store,
    node: Node,
    parse: P,
    apply: A,
    out: Result<u64, Failure>,
) -> bool
    decreases node,
{
    if node.kind == NodeType::Number || node.kind == NodeType::Float {
        literal_gives(parse, node.text, out)
    } else if node.kind == NodeType::Identifier {
        out == Ok::<u64, Failure>(store.scalar(node.text))
    } else if node.kind == NodeType::Expression && node.children.len() == 3 {
        if is_bracketed(node.children) {
            evaluates(store, node.children[1], parse, apply, out)
        } else {
            ||| exists|failure: Failure|
                evaluates(store, node.children[0], parse, apply, Err(failure)) && #[trigger] fails_with(
                    failure,
                    out,
                )
            ||| exists|left: u64, right: Result<u64, Failure>|
                {
                    &&& evaluates(store, node.children[0], parse, apply, Ok(left))
                    &&& evaluates(store, node.children[2], parse, apply, right)
                    &&& #[trigger] operation_gives(apply, node.children[1].text, left, right, out)
                }
        }
    } else {
        out == Err::<u64, Failure>(Failure::UnexpectedNodeKind(node.kind))
    }
}

/// The arithmetic that the caller brings is a function: `parse` makes one
/// thing of a text, and `apply` one thing of an operator and two operands.
pub open spec fn is_functional<P: Fn(&str) -> Option<u64>, A: Fn(Operator, u64, u64) -> u64>(
    parse: P,
    apply: A,
) -> bool {
    &&& forall|a: &str, b: &str, x: Option<u64>, y: Option<u64>|
        a@ == b@ && #[trigger] call_ensures(parse, (a,), x) && #[trigger] call_ensures(
            parse,
            (b,),
            y,
        ) ==> x == y
    &&& forall|operator: Operator, left: u64, right: u64, x: u64, y: u64|
        #[trigger] call_ensures(apply, (operator, left, right), x) && #[trigger] call_ensures(
            apply,
            (operator, left, right),
            y,
        ) ==> x == y
}

/// With arithmetic that is a function, an expression has one result: the
/// store, the tree and the arithmetic decide what evaluation returns.
pub proof fn lemma_evaluates_one_result<
    P: Fn(&str) -> Option<u64>,
    A: Fn(Operator, u64, u64) -> u64,
>(
    store: Store,
    node: Node,
    parse: P,
    apply: A,
    first: Result<u64, Failure>,
    second: Result<u64, Failure>,
)
    requires
        is_functional(parse, apply),
        evaluates(store, node, parse, apply, first),
        evaluates(store, node, parse, apply, second),
    ensures
        first == second,
    decreases node,
{
    if node.kind == NodeType::Number || node.kind == NodeType::Float {
    } else if node.kind == NodeType::Identifier {
    } else if node.kind == NodeType::Expression && node.children.len() == 3 {
        let left = node.children[0];
        let right = node.children[2];
        if is_bracketed(node.children) {
            lemma_evaluates_one_result(store, node.children[1], parse, apply, first, second);
        } else {
            let first_left = lemma_operand_results(store, node, parse, apply, first);
            let second_left = lemma_operand_results(store, node, parse, apply, second);
            lemma_evaluates_one_result(store, left, parse, apply, first_left.0, second_left.0);
            if first_left.0 is Ok {
                lemma_evaluates_one_result(store, right, parse, apply, first_left.1, second_left.1);
            }
        }
    }
}

/// Behind every result of an operation stand a result of its left operand
/// and, where that is a value, a result of its right operand.
proof fn lemma_operand_results<P: Fn(&str) -> Option<u64>, A: Fn(Operator, u64, u64) -> u64>(
    store: Store,
    node: Node,
    parse: P,
    apply: A,
    out: Result<u64, Failure>,
) -> (operands: (Result<u64, Failure>, Result<u64, Failure>))
    requires
        node.kind == NodeType::Expression,
        node.children.len() == 3,
        !is_bracketed(node.children),
        evaluates(store, node, parse, apply, out),
    ensures
        evaluates(store, node.children[0], parse, apply, operands.0),
        match operands.0 {
            Err(failure) => out == Err::<u64, Failure>(failure),
            Ok(left) => {
                &&& evaluates(store, node.children[2], parse, apply, operands.1)
                &&& operation_gives(apply, node.children[1].text, left, operands.1, out)
            },
        },
{
    if exists|failure: Failure|
        evaluates(store, node.children[0], parse, apply, Err(failure)) && #[trigger] fails_with(
            failure,
            out,
        ) {
        let failure = choose|failure: Failure|
            evaluates(store, node.children[0], parse, apply, Err(failure)) && #[trigger] fails_with(
                failure,
                out,
            );
        (Err(failure), Err(failure))
    } else {
        let (left, right) = choose|left: u64, right: Result<u64, Failure>|
            {
                &&& evaluates(store, node.children[0], parse, apply, Ok(left))
                &&& evaluates(store, node.children[2], parse, apply, right)
                &&& #[trigger] operation_gives(apply, node.children[1].text, left, right, out)
            };
        (Ok(left), right)
    }
}

/// The state of a running program: its tree and its variables.
pub struct Interpreter {
    root: ParseNode,
    float_scalars: StringHashMap<u64>,
    float_arrays: StringHashMap<Vec<u64>>,
}

impl View for Interpreter {
    type V = Store;

    closed spec fn view(&self) -> Store {
        Store {
            scalars: self.float_scalars@,
            arrays: self.float_arrays@.map_values(|v: Vec<u64>| v@),
        }
    }
}

impl Interpreter {
    /// The program that the interpreter was made for.
    pub closed spec fn program(&self) -> Node {
        self.root@
    }

    /// The arrays of the model are the arrays that are held, name by name.
    proof fn lemma_arrays(&self)
        ensures
            self@.arrays.dom() == self.float_arrays@.dom(),
            forall|name: Seq<char>| #[trigger]
                self.float_arrays@.contains_key(name) ==> self@.arrays[name]
                    == self.float_arrays@[name]@,
    {
    }

    /// An interpreter for the program `root`, with nothing stored.
    pub fn new(root: ParseNode) -> (out: Self)
        ensures
            out@ == Store::empty(),
            out.program() == root@,
    {
        let out = Self {
            root,
            float_scalars: StringHashMap::new(),
            float_arrays: StringHashMap::new(),
        };
        assert(out@.arrays =~= Map::empty());
        out
    }

    /// The program that the interpreter was made for.
    pub fn root(&self) -> (out: &ParseNode)
        ensures
            out@ == self.program(),
    {
        &self.root
    }

    /// The value of a scalar: zero until it is set.
    pub fn get_float_scalar(&self, name: &str) -> (out: u64)
        ensures
            out == self@.scalar(name@),
    {
        match self.float_scalars.get(name) {
            Some(value) => *value,
            None => ZERO,
        }
    }

    /// Sets a scalar.
    pub fn set_float_scalar(&mut self, name: &str, value: u64)
        ensures
            final(self)@ == old(self)@.with_scalar(name@, value),
            final(self).program() == old(self).program(),
    {
        self.float_scalars.insert(name.to_owned(), value);
    }

    /// Makes an array of `size` zeros under `name`, in place of any array of
    /// that name.
    pub fn dim_float_array(&mut self, name: &str, size: usize)
        ensures
            final(self)@ == old(self)@.with_array(name@, size as nat),
            final(self).program() == old(self).program(),
    {
        let mut zeros: Vec<u64> = Vec::new();
        let mut i: usize = 0;
        while i < size
            invariant
                i <= size,
                zeros@ == Seq::new(i as nat, |j: int| ZERO),
            decreases size - i,
        {
            zeros.push(ZERO);
            i += 1;
        }
        self.float_arrays.insert(name.to_owned(), zeros);
        assert(self@.arrays =~= old(self)@.arrays.insert(name@, zeros@));
    }

    /// Reads an element of an array. An array that does not exist yet is
    /// made first, with the default length.
    pub fn get_float_array(&mut self, name: &str, index: usize) -> (out: Result<
        u64,
        InterpretError,
    >)
        ensures
            final(self)@ == old(self)@.touched(name@),
            final(self).program() == old(self).program(),
            outcome(out) == final(self)@.element(name@, index),
    {
        if !self.float_arrays.contains_key(name) {
            self.dim_float_array(name, DEFAULT_ARRAY_LENGTH);
        }
        proof {
            self.lemma_arrays();
            old(self).lemma_arrays();
        }
        match self.float_arrays.get(name) {
            Some(array) => {
                if index >= array.len() {
                    Err(InterpretError::ArrayIndexOutOfBounds { name: name.to_owned(), index })
                } else {
                    Ok(array[index])
                }
            },
            None => Err(InterpretError::ArrayIndexOutOfBounds { name: name.to_owned(), index }),
        }
    }

    /// Sets an element of an array. An array that does not exist yet is
    /// made first, with the default length.
    pub fn set_float_array(&mut self, name: &str, index: usize, value: u64) -> (out: Result<
        (),
        InterpretError,
    >)
        ensures
            final(self)@ == old(self)@.touched(name@).with_element(name@, index, value),
            final(self).program() == old(self).program(),
            outcome(out) == match old(self)@.touched(name@).element(name@, index) {
                Ok(_) => Ok(()),
                Err(failure) => Err(failure),
            },
    {
        if !self.float_arrays.contains_key(name) {
            self.dim_float_array(name, DEFAULT_ARRAY_LENGTH);
        }
        proof {
            self.lemma_arrays();
            old(self).lemma_arrays();
        }
        let ghost touched = self@;
        let updated = match self.float_arrays.get(name) {
            Some(array) => {
                if index >= array.len() {
                    return Err(
                        InterpretError::ArrayIndexOutOfBounds { name: name.to_owned(), index },
                    );
                }
                let mut copy = array.clone();
                copy.set(index, value);
                copy
            },
            None => {
                return Err(InterpretError::ArrayIndexOutOfBounds { name: name.to_owned(), index });
            },
        };
        self.float_arrays.insert(name.to_owned(), updated);
        assert(self@.arrays =~= touched.arrays.insert(name@, updated@));
        Ok(())
    }

    /// Evaluates an expression against the scalars, with the arithmetic of
    /// `parse` and `apply`.
    pub fn evaluate_expression<P: Fn(&str) -> Option<u64>, A: Fn(Operator, u64, u64) -> u64>(
        &self,
        node: &ParseNode,
        parse: &P,
        apply: &A,
    ) -> (out: Result<u64, InterpretError>)
        requires
            accepts_all(*parse, *apply),
        ensures
            evaluates(self@, node@, *parse, *apply, outcome(out)),
        decreases node,
    {
        proof {
            lemma_view(node);
        }
        match node.node_type {
            NodeType::Number | NodeType::Float => {
                let text = node.value.as_str();
                let parsed = parse(text);
                match parsed {
                    Some(bits) => Ok(bits),
                    None => Err(InterpretError::MalformedNumericLiteral(node.value.clone())),
                }
            },
            NodeType::Identifier => Ok(self.get_float_scalar(node.value.as_str())),
            NodeType::Expression => {
                if node.children.len() != 3 {
                    return Err(InterpretError::UnexpectedNodeKind(NodeType::Expression));
                }
                proof {
                    lemma_view(&node.children[0]);
                    lemma_view(&node.children[1]);
                    lemma_view(&node.children[2]);
                }
                let opens = &node.children[0];
                let closes = &node.children[2];
                if opens.node_type == NodeType::Symbol && same_text(opens.value.as_str(), "(")
                    && closes.node_type == NodeType::Symbol && same_text(
                    closes.value.as_str(),
                    ")",
                ) {
                    return self.evaluate_expression(&node.children[1], parse, apply);
                }
                let left = match self.evaluate_expression(&node.children[0], parse, apply) {
                    Ok(left) => left,
                    Err(error) => {
                        assert(fails_with(error@, Err(error@)));
                        return Err(error);
                    },
                };
                let right = self.evaluate_expression(&node.children[2], parse, apply);
                let symbol = node.children[1].value.as_str();
                let out = match right {
                    Err(error) => Err(error),
                    Ok(right) => match operator(symbol) {
                        Some(operator) => Ok(apply(operator, left, right)),
                        None => Err(InterpretError::UnknownOperator(node.children[1].value.clone())),
                    },
                };
                assert(operation_gives(*apply, node@.children[1].text, left, outcome(right), outcome(out)));
                out
            },
            kind => Err(InterpretError::UnexpectedNodeKind(kind)),
        }
    }
}

} // verus!
