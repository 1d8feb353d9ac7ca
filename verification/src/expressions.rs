//! The tree builder: folds a flat run of sibling nodes into nested
//! expressions, three nodes at a time, until nothing more can be folded.

use crate::node_type::NodeType;
use crate::parse_node::{lemma_view, Node, ParseNode};
use crate::text::same_text;
use vstd::prelude::*;
use vstd::string::*;

verus! {

/// The texts of a list of operators.
pub open spec fn texts_of(operators: Seq<&str>) -> Seq<Seq<char>> {
    operators.map_values(|s: &str| s@)
}

/// `*` and `/`.
pub open spec fn multiplicative() -> Seq<Seq<char>> {
    seq!["*"@, "/"@]
}

/// `+` and `-`.
pub open spec fn additive() -> Seq<Seq<char>> {
    seq!["+"@, "-"@]
}

/// `^`.
pub open spec fn exponential() -> Seq<Seq<char>> {
    seq!["^"@]
}

/// Whether `node` is a symbol and one of `operators`.
pub open spec fn is_operator(node: Node, operators: Seq<Seq<char>>) -> bool {
    node.kind == NodeType::Symbol && operators.contains(node.text)
}

/// A shape of three neighbours that can be folded.
pub ghost enum Window {
    /// An operand, one of the given operators, an operand.
    Binary(Seq<Seq<char>>),
    /// `(`, an operand, `)`.
    Brackets,
}

impl Window {
    /// Whether the three nodes that start at `i` have this shape.
    pub open spec fn matches_at(self, nodes: Seq<Node>, i: int) -> bool {
        &&& 0 <= i
        &&& i + 2 < nodes.len()
        &&& match self {
            Window::Binary(operators) => {
                &&& nodes[i].kind.is_operand()
                &&& is_operator(nodes[i + 1], operators)
                &&& nodes[i + 2].kind.is_operand()
            },
            Window::Brackets => {
                &&& nodes[i].is_symbol("("@)
                &&& nodes[i + 1].kind.is_operand()
                &&& nodes[i + 2].is_symbol(")"@)
            },
        }
    }
}

/// The first place at or after `from` where `window` matches, scanning from
/// the left.
pub open spec fn leftmost_from(nodes: Seq<Node>, window: Window, from: int) -> Option<int>
    decreases nodes.len() - from,
{
    if from < 0 || from + 2 >= nodes.len() {
        None
    } else if window.matches_at(nodes, from) {
        Some(from)
    } else {
        leftmost_from(nodes, window, from + 1)
    }
}

/// The first place where `window` matches.
pub open spec fn leftmost(nodes: Seq<Node>, window: Window) -> Option<int> {
    leftmost_from(nodes, window, 0)
}

/// The expression that wraps the three nodes that start at `i`.
pub open spec fn folded(nodes: Seq<Node>, i: int) -> Node {
    Node { kind: NodeType::Expression, text: Seq::empty(), children: nodes.subrange(i, i + 3) }
}

/// `nodes` with the three nodes that start at `i` replaced by the one
/// expression that wraps them.
pub open spec fn fold_at(nodes: Seq<Node>, i: int) -> Seq<Node> {
    nodes.subrange(0, i).push(folded(nodes, i)) + nodes.subrange(i + 3, nodes.len() as int)
}

/// One sub-pass: fold the leftmost match and scan again from the start,
/// until `window` matches nowhere.
pub open spec fn exhaust(nodes: Seq<Node>, window: Window) -> Seq<Node>
    decreases nodes.len(),
    via exhaust_decreases
{
    match leftmost(nodes, window) {
        Some(i) => exhaust(fold_at(nodes, i), window),
        None => nodes,
    }
}

#[via_fn]
proof fn exhaust_decreases(nodes: Seq<Node>, window: Window) {
    lemma_leftmost(nodes, window, 0);
}

/// One round: the four sub-passes in their fixed order.
pub open spec fn round(nodes: Seq<Node>) -> Seq<Node> {
    exhaust(
        exhaust(
            exhaust(exhaust(nodes, Window::Binary(multiplicative())), Window::Binary(additive())),
            Window::Binary(exponential()),
        ),
        Window::Brackets,
    )
}

/// Rounds repeated for as long as the last one folded anything.
pub open spec fn fixpoint(nodes: Seq<Node>) -> Seq<Node>
    decreases nodes.len(),
{
    let next = round(nodes);
    if next.len() < nodes.len() {
        fixpoint(next)
    } else {
        nodes
    }
}

/// `window` matches nowhere in `nodes`.
pub open spec fn matches_nowhere(nodes: Seq<Node>, window: Window) -> bool {
    forall|i: int| !window.matches_at(nodes, i)
}

/// Nothing is left to fold: none of the four shapes matches anywhere.
pub open spec fn is_folded(nodes: Seq<Node>) -> bool {
    &&& matches_nowhere(nodes, Window::Binary(multiplicative()))
    &&& matches_nowhere(nodes, Window::Binary(additive()))
    &&& matches_nowhere(nodes, Window::Binary(exponential()))
    &&& matches_nowhere(nodes, Window::Brackets)
}

/// Whether every node can stand in a line and is well formed.
pub open spec fn all_well_formed(nodes: Seq<Node>) -> bool {
    forall|i: int|
        0 <= i < nodes.len() ==> (#[trigger] nodes[i]).can_stand_in_line() && nodes[i].well_formed()
}

/// `leftmost_from` finds a match, none comes before it, and where it finds
/// none there is none.
pub proof fn lemma_leftmost(nodes: Seq<Node>, window: Window, from: int)
    requires
        0 <= from,
    ensures
        match leftmost_from(nodes, window, from) {
            Some(i) => {
                &&& from <= i
                &&& window.matches_at(nodes, i)
                &&& forall|j: int| from <= j < i ==> !window.matches_at(nodes, j)
            },
            None => forall|j: int| from <= j ==> !window.matches_at(nodes, j),
        },
    decreases nodes.len() - from,
{
    if from + 2 < nodes.len() && !window.matches_at(nodes, from) {
        lemma_leftmost(nodes, window, from + 1);
    }
}

/// A sub-pass never lengthens the list, leaves no match behind, and where
/// it keeps the length it changes nothing.
pub proof fn lemma_exhaust(nodes: Seq<Node>, window: Window)
    ensures
        exhaust(nodes, window).len() <= nodes.len(),
        leftmost(exhaust(nodes, window), window) is None,
        matches_nowhere(exhaust(nodes, window), window),
        exhaust(nodes, window).len() == nodes.len() ==> exhaust(nodes, window) == nodes,
    decreases nodes.len(),
{
    lemma_leftmost(nodes, window, 0);
    match leftmost(nodes, window) {
        Some(i) => {
            lemma_exhaust(fold_at(nodes, i), window);
        },
        None => {},
    }
    lemma_leftmost(exhaust(nodes, window), window, 0);
}

/// A fold of well-formed nodes where a shape matches gives well-formed
/// nodes: the new expression has the shape that matched.
pub proof fn lemma_fold_keeps_well_formed(nodes: Seq<Node>, window: Window, i: int)
    requires
        all_well_formed(nodes),
        window.matches_at(nodes, i),
    ensures
        all_well_formed(fold_at(nodes, i)),
{
    // the new expression: its children are the three nodes that matched
    let inner = nodes.subrange(i, i + 3);
    assert forall|k: int| 0 <= k < inner.len() implies (#[trigger] inner[k]).well_formed() by {}
    // every node behind the fold is the new expression or one of the old nodes
    let after = fold_at(nodes, i);
    assert forall|k: int| 0 <= k < after.len() implies (#[trigger] after[k]).can_stand_in_line()
        && after[k].well_formed() by {}
}

/// A sub-pass keeps well-formed nodes well formed.
pub proof fn lemma_exhaust_keeps_well_formed(nodes: Seq<Node>, window: Window)
    requires
        all_well_formed(nodes),
    ensures
        all_well_formed(exhaust(nodes, window)),
    decreases nodes.len(),
{
    lemma_leftmost(nodes, window, 0);
    match leftmost(nodes, window) {
        Some(i) => {
            lemma_fold_keeps_well_formed(nodes, window, i);
            lemma_exhaust_keeps_well_formed(fold_at(nodes, i), window);
        },
        None => {},
    }
}

/// Folding to the fixpoint keeps well-formed nodes well formed.
pub proof fn lemma_fixpoint_keeps_well_formed(nodes: Seq<Node>)
    requires
        all_well_formed(nodes),
    ensures
        all_well_formed(fixpoint(nodes)),
    decreases nodes.len(),
{
    let a = exhaust(nodes, Window::Binary(multiplicative()));
    let b = exhaust(a, Window::Binary(additive()));
    let c = exhaust(b, Window::Binary(exponential()));
    lemma_exhaust_keeps_well_formed(nodes, Window::Binary(multiplicative()));
    lemma_exhaust_keeps_well_formed(a, Window::Binary(additive()));
    lemma_exhaust_keeps_well_formed(b, Window::Binary(exponential()));
    lemma_exhaust_keeps_well_formed(c, Window::Brackets);
    if round(nodes).len() < nodes.len() {
        lemma_fixpoint_keeps_well_formed(round(nodes));
    }
}

/// A round never lengthens the list, and where it keeps the length it
/// changes nothing because there was nothing to fold.
pub proof fn lemma_round(nodes: Seq<Node>)
    ensures
        round(nodes).len() <= nodes.len(),
        round(nodes).len() == nodes.len() ==> round(nodes) == nodes && is_folded(nodes),
        is_folded(nodes) ==> round(nodes) == nodes,
{
    let a = exhaust(nodes, Window::Binary(multiplicative()));
    let b = exhaust(a, Window::Binary(additive()));
    let c = exhaust(b, Window::Binary(exponential()));
    lemma_exhaust(nodes, Window::Binary(multiplicative()));
    lemma_exhaust(a, Window::Binary(additive()));
    lemma_exhaust(b, Window::Binary(exponential()));
    lemma_exhaust(c, Window::Brackets);
    if is_folded(nodes) {
        lemma_folded_is_kept(nodes, Window::Binary(multiplicative()));
        lemma_folded_is_kept(nodes, Window::Binary(additive()));
        lemma_folded_is_kept(nodes, Window::Binary(exponential()));
        lemma_folded_is_kept(nodes, Window::Brackets);
    }
}

/// A sub-pass leaves a list alone where its shape matches nowhere.
pub proof fn lemma_folded_is_kept(nodes: Seq<Node>, window: Window)
    requires
        matches_nowhere(nodes, window),
    ensures
        exhaust(nodes, window) == nodes,
{
    lemma_leftmost(nodes, window, 0);
}

/// What the fixpoint returns is folded all the way, and no longer than
/// what it was given.
pub proof fn lemma_fixpoint_is_folded(nodes: Seq<Node>)
    ensures
        is_folded(fixpoint(nodes)),
        fixpoint(nodes).len() <= nodes.len(),
    decreases nodes.len(),
{
    lemma_round(nodes);
    if round(nodes).len() < nodes.len() {
        lemma_fixpoint_is_folded(round(nodes));
    }
}

/// Folding changes nothing where nothing is left to fold.
pub proof fn lemma_fixpoint_keeps_folded(nodes: Seq<Node>)
    requires
        is_folded(nodes),
    ensures
        fixpoint(nodes) == nodes,
{
    lemma_round(nodes);
}

/// Folding twice is folding once: a second run over a list that was
/// already folded to its fixpoint returns the same list.
pub proof fn lemma_fixpoint_idempotent(nodes: Seq<Node>)
    ensures
        fixpoint(fixpoint(nodes)) == fixpoint(nodes),
{
    lemma_fixpoint_is_folded(nodes);
    lemma_fixpoint_keeps_folded(fixpoint(nodes));
}

/// A sub-pass folds at the place where its shape matches first, and goes
/// on from there.
pub proof fn lemma_exhaust_folds_leftmost(nodes: Seq<Node>, window: Window, i: int)
    requires
        window.matches_at(nodes, i),
        forall|j: int| 0 <= j < i ==> !window.matches_at(nodes, j),
    ensures
        exhaust(nodes, window) == exhaust(fold_at(nodes, i), window),
{
    lemma_leftmost(nodes, window, 0);
}

/// The texts of the operators and brackets differ from one another.
proof fn lemma_symbols_differ()
    ensures
        "*"@ != "+"@,
        "*"@ != "-"@,
        "*"@ != "^"@,
        "+"@ != "/"@,
        "+"@ != "^"@,
        "*"@ != "("@,
        "+"@ != "("@,
        "*"@ != ")"@,
        "+"@ != ")"@,
{
    reveal_strlit("*");
    reveal_strlit("/");
    reveal_strlit("+");
    reveal_strlit("-");
    reveal_strlit("^");
    reveal_strlit("(");
    reveal_strlit(")");
    assert("*"@[0] == '*' && "/"@[0] == '/' && "+"@[0] == '+' && "-"@[0] == '-');
}

/// A product folds before a sum that follows it: operand `*` operand `+`
/// operand folds to one expression, the sum of the product and the last
/// operand.
pub proof fn lemma_product_folds_before_sum(a: Node, b: Node, c: Node)
    requires
        a.kind.is_operand(),
        b.kind.is_operand(),
        c.kind.is_operand(),
    ensures
        fixpoint(seq![a, Node::symbol("*"@), b, Node::symbol("+"@), c]) == seq![
            Node::expression(
                Node::expression(a, Node::symbol("*"@), b),
                Node::symbol("+"@),
                c,
            ),
        ],
{
    lemma_symbols_differ();
    let times = Node::symbol("*"@);
    let plus = Node::symbol("+"@);
    let product = Node::expression(a, times, b);
    let sum = Node::expression(product, plus, c);
    let start = seq![a, times, b, plus, c];
    let middle = seq![product, plus, c];
    let end = seq![sum];
    let multiply = Window::Binary(multiplicative());
    let add = Window::Binary(additive());
    let power = Window::Binary(exponential());

    // first round: the product folds, then the sum
    assert(start.subrange(0, 3) =~= seq![a, times, b]);
    assert(fold_at(start, 0) =~= middle);
    lemma_exhaust_folds_leftmost(start, multiply, 0);
    lemma_folded_is_kept(middle, multiply);
    assert(middle.subrange(0, 3) =~= seq![product, plus, c]);
    assert(fold_at(middle, 0) =~= end);
    lemma_exhaust_folds_leftmost(middle, add, 0);
    lemma_folded_is_kept(end, add);
    lemma_folded_is_kept(end, power);
    lemma_folded_is_kept(end, Window::Brackets);
    assert(round(start) == end);

    // second round: nothing is left
    lemma_folded_is_kept(end, multiply);
    assert(fixpoint(end) == end);
}

/// A product folds before a sum that comes first, too: operand `+` operand
/// `*` operand folds to one expression, the sum of the first operand and
/// the product.
pub proof fn lemma_product_folds_inside_sum(a: Node, b: Node, c: Node)
    requires
        a.kind.is_operand(),
        b.kind.is_operand(),
        c.kind.is_operand(),
    ensures
        fixpoint(seq![a, Node::symbol("+"@), b, Node::symbol("*"@), c]) == seq![
            Node::expression(
                a,
                Node::symbol("+"@),
                Node::expression(b, Node::symbol("*"@), c),
            ),
        ],
{
    lemma_symbols_differ();
    let times = Node::symbol("*"@);
    let plus = Node::symbol("+"@);
    let product = Node::expression(b, times, c);
    let sum = Node::expression(a, plus, product);
    let start = seq![a, plus, b, times, c];
    let middle = seq![a, plus, product];
    let end = seq![sum];
    let multiply = Window::Binary(multiplicative());
    let add = Window::Binary(additive());
    let power = Window::Binary(exponential());

    // first round: the product folds, then the sum
    assert(start.subrange(2, 5) =~= seq![b, times, c]);
    assert(fold_at(start, 2) =~= middle);
    lemma_exhaust_folds_leftmost(start, multiply, 2);
    lemma_folded_is_kept(middle, multiply);
    assert(middle.subrange(0, 3) =~= seq![a, plus, product]);
    assert(fold_at(middle, 0) =~= end);
    lemma_exhaust_folds_leftmost(middle, add, 0);
    lemma_folded_is_kept(end, add);
    lemma_folded_is_kept(end, power);
    lemma_folded_is_kept(end, Window::Brackets);
    assert(round(start) == end);

    // second round: nothing is left
    lemma_folded_is_kept(end, multiply);
    assert(fixpoint(end) == end);
}

/// Brackets fold before a product outside them: `(` operand `+` operand
/// `)` `*` operand folds to one expression, the product of the bracketed
/// sum and the last operand.
pub proof fn lemma_brackets_fold_before_product(a: Node, b: Node, c: Node)
    requires
        a.kind.is_operand(),
        b.kind.is_operand(),
        c.kind.is_operand(),
    ensures
        fixpoint(
            seq![
                Node::symbol("("@),
                a,
                Node::symbol("+"@),
                b,
                Node::symbol(")"@),
                Node::symbol("*"@),
                c,
            ],
        ) == seq![
            Node::expression(
                Node::expression(
                    Node::symbol("("@),
                    Node::expression(a, Node::symbol("+"@), b),
                    Node::symbol(")"@),
                ),
                Node::symbol("*"@),
                c,
            ),
        ],
{
    lemma_symbols_differ();
    let times = Node::symbol("*"@);
    let plus = Node::symbol("+"@);
    let opens = Node::symbol("("@);
    let closes = Node::symbol(")"@);
    let sum = Node::expression(a, plus, b);
    let bracket = Node::expression(opens, sum, closes);
    let product = Node::expression(bracket, times, c);
    let start = seq![opens, a, plus, b, closes, times, c];
    let second = seq![opens, sum, closes, times, c];
    let third = seq![bracket, times, c];
    let end = seq![product];
    let multiply = Window::Binary(multiplicative());
    let add = Window::Binary(additive());
    let power = Window::Binary(exponential());

    // first round: the sum folds, then the brackets around it
    lemma_folded_is_kept(start, multiply);
    assert(start.subrange(1, 4) =~= seq![a, plus, b]);
    assert(fold_at(start, 1) =~= second);
    lemma_exhaust_folds_leftmost(start, add, 1);
    lemma_folded_is_kept(second, add);
    lemma_folded_is_kept(second, power);
    assert(second.subrange(0, 3) =~= seq![opens, sum, closes]);
    assert(fold_at(second, 0) =~= third);
    lemma_exhaust_folds_leftmost(second, Window::Brackets, 0);
    lemma_folded_is_kept(third, Window::Brackets);
    assert(round(start) == third);

    // second round: the product folds
    assert(third.subrange(0, 3) =~= seq![bracket, times, c]);
    assert(fold_at(third, 0) =~= end);
    lemma_exhaust_folds_leftmost(third, multiply, 0);
    lemma_folded_is_kept(end, multiply);
    lemma_folded_is_kept(end, add);
    lemma_folded_is_kept(end, power);
    lemma_folded_is_kept(end, Window::Brackets);
    assert(round(third) == end);

    // third round: nothing is left
    assert(fixpoint(third) == fixpoint(end));
}

/// Whether a node of this kind can stand as an operand.
pub fn is_numerical(node_type: NodeType) -> (r: bool)
    ensures
        r == node_type.is_operand(),
{
    node_type == NodeType::Number || node_type == NodeType::Float || node_type
        == NodeType::Identifier || node_type == NodeType::Expression
}

/// Whether `node` is a symbol and one of `operators`.
pub fn is_arithmetic_operator(node: &ParseNode, operators: &[&str]) -> (r: bool)
    ensures
        r == is_operator(node@, texts_of(operators@)),
{
    proof {
        lemma_view(node);
    }
    if node.node_type != NodeType::Symbol {
        return false;
    }
    let ghost texts = texts_of(operators@);
    let mut k: usize = 0;
    while k < operators.len()
        invariant
            k <= operators.len(),
            texts == texts_of(operators@),
            node@.kind == NodeType::Symbol,
            forall|j: int| 0 <= j < k ==> texts[j] != node@.text,
        decreases operators.len() - k,
    {
        if same_text(node.value.as_str(), operators[k]) {
            assert(texts[k as int] == node@.text);
            return true;
        }
        k += 1;
    }
    false
}

/// Whether `node` is the symbol `text`.
fn is_symbol_text(node: &ParseNode, text: &str) -> (r: bool)
    ensures
        r == node@.is_symbol(text@),
{
    node.node_type == NodeType::Symbol && same_text(node.value.as_str(), text)
}

/// Replaces the three nodes that start at `i` by one expression that owns
/// them.
fn fold_window(children: &mut Vec<ParseNode>, i: usize)
    requires
        i + 2 < old(children).len(),
    ensures
        final(children).deep_view() == fold_at(old(children).deep_view(), i as int),
        final(children).len() == old(children).len() - 2,
{
    let left = children.remove(i);
    let middle = children.remove(i);
    let right = children.remove(i);
    let mut inner: Vec<ParseNode> = Vec::new();
    inner.push(left);
    inner.push(middle);
    inner.push(right);
    assert(inner.deep_view() =~= old(children).deep_view().subrange(i as int, i + 3));
    let node = ParseNode::new(NodeType::Expression, String::new(), inner);
    children.insert(i, node);
}

/// The first place where operand, operator, operand stand side by side.
fn find_binary(children: &Vec<ParseNode>, operators: &[&str]) -> (r: Option<usize>)
    ensures
        match r {
            Some(i) => leftmost(children.deep_view(), Window::Binary(texts_of(operators@)))
                == Some(i as int),
            None => leftmost(children.deep_view(), Window::Binary(texts_of(operators@))) is None,
        },
{
    let ghost nodes = children.deep_view();
    let ghost window = Window::Binary(texts_of(operators@));
    let count = children.len();
    if count < 3 {
        return None;
    }
    let mut i: usize = 0;
    while i < count - 2
        invariant
            3 <= count == children.len(),
            nodes == children.deep_view(),
            window == Window::Binary(texts_of(operators@)),
            leftmost(nodes, window) == leftmost_from(nodes, window, i as int),
        decreases count - i,
    {
        if is_numerical(children[i].node_type) && is_arithmetic_operator(
            &children[i + 1],
            operators,
        ) && is_numerical(children[i + 2].node_type) {
            return Some(i);
        }
        i += 1;
    }
    None
}

/// The first place where `(`, operand, `)` stand side by side.
fn find_brackets(children: &Vec<ParseNode>) -> (r: Option<usize>)
    ensures
        match r {
            Some(i) => leftmost(children.deep_view(), Window::Brackets) == Some(i as int),
            None => leftmost(children.deep_view(), Window::Brackets) is None,
        },
{
    let ghost nodes = children.deep_view();
    let count = children.len();
    if count < 3 {
        return None;
    }
    let mut i: usize = 0;
    while i < count - 2
        invariant
            3 <= count == children.len(),
            nodes == children.deep_view(),
            leftmost(nodes, Window::Brackets) == leftmost_from(nodes, Window::Brackets, i as int),
        decreases count - i,
    {
        if is_symbol_text(&children[i], "(") && is_numerical(children[i + 1].node_type)
            && is_symbol_text(&children[i + 2], ")") {
            return Some(i);
        }
        i += 1;
    }
    None
}

/// Folds every operand, operator, operand among the children of `node`,
/// leftmost first, for the given operators. Says whether it folded anything.
pub fn combine_arithmetic_expressions(node: &mut ParseNode, operators: &[&str]) -> (changed: bool)
    ensures
        final(node)@ == (Node {
            children: exhaust(old(node)@.children, Window::Binary(texts_of(operators@))),
            ..old(node)@
        }),
        changed == (final(node)@.children.len() < old(node)@.children.len()),
{
    let ghost window = Window::Binary(texts_of(operators@));
    let mut changed = false;
    proof {
        lemma_view(node);
    }
    loop
        invariant
            window == Window::Binary(texts_of(operators@)),
            node.node_type == old(node).node_type,
            node.value == old(node).value,
            exhaust(node.children.deep_view(), window) == exhaust(old(node)@.children, window),
            node.children.len() <= old(node).children.len(),
            changed == (node.children.len() < old(node).children.len()),
        decreases node.children.len(),
    {
        match find_binary(&node.children, operators) {
            Some(i) => {
                proof {
                    lemma_leftmost(node.children.deep_view(), window, 0);
                }
                fold_window(&mut node.children, i);
                changed = true;
            },
            None => {
                proof {
                    lemma_view(node);
                    lemma_view(old(node));
                }
                return changed;
            },
        }
    }
}

/// Folds every bracketed operand among the children of `node`, leftmost
/// first. Says whether it folded anything.
pub fn combine_parens(node: &mut ParseNode) -> (changed: bool)
    ensures
        final(node)@ == (Node {
            children: exhaust(old(node)@.children, Window::Brackets),
            ..old(node)@
        }),
        changed == (final(node)@.children.len() < old(node)@.children.len()),
{
    let mut changed = false;
    proof {
        lemma_view(node);
    }
    loop
        invariant
            node.node_type == old(node).node_type,
            node.value == old(node).value,
            exhaust(node.children.deep_view(), Window::Brackets) == exhaust(
                old(node)@.children,
                Window::Brackets,
            ),
            node.children.len() <= old(node).children.len(),
            changed == (node.children.len() < old(node).children.len()),
        decreases node.children.len(),
    {
        match find_brackets(&node.children) {
            Some(i) => {
                proof {
                    lemma_leftmost(node.children.deep_view(), Window::Brackets, 0);
                }
                fold_window(&mut node.children, i);
                changed = true;
            },
            None => {
                proof {
                    lemma_view(node);
                    lemma_view(old(node));
                }
                return changed;
            },
        }
    }
}

/// Folds the children of `node` as far as they can be folded: rounds of
/// the four sub-passes (`*` `/`, then `+` `-`, then `^`, then brackets),
/// repeated for as long as the last round folded anything.
pub fn combine(node: &mut ParseNode)
    ensures
        final(node)@ == (Node { children: fixpoint(old(node)@.children), ..old(node)@ }),
        is_folded(final(node)@.children),
{
    let multiplicative_operators = ["*", "/"];
    let additive_operators = ["+", "-"];
    let exponential_operators = ["^"];
    let mut did_something = true;
    while did_something
        invariant
            texts_of(multiplicative_operators@) == multiplicative(),
            texts_of(additive_operators@) == additive(),
            texts_of(exponential_operators@) == exponential(),
            node@.kind == old(node)@.kind,
            node@.text == old(node)@.text,
            fixpoint(node@.children) == fixpoint(old(node)@.children),
            !did_something ==> fixpoint(node@.children) == node@.children,
        decreases node@.children.len(), did_something as int,
    {
        proof {
            let before = node@.children;
            let first = exhaust(before, Window::Binary(multiplicative()));
            let second = exhaust(first, Window::Binary(additive()));
            let third = exhaust(second, Window::Binary(exponential()));
            lemma_round(before);
            lemma_exhaust(before, Window::Binary(multiplicative()));
            lemma_exhaust(first, Window::Binary(additive()));
            lemma_exhaust(second, Window::Binary(exponential()));
            lemma_exhaust(third, Window::Brackets);
        }
        let a = combine_arithmetic_expressions(node, multiplicative_operators.as_slice());
        let b = combine_arithmetic_expressions(node, additive_operators.as_slice());
        let c = combine_arithmetic_expressions(node, exponential_operators.as_slice());
        let d = combine_parens(node);
        did_something = a || b || c || d;
    }
    proof {
        lemma_fixpoint_is_folded(old(node)@.children);
    }
}

} // verus!
