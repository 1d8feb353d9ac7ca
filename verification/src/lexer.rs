//! The tokenizer: one forward scan that cuts source text into tokens.

use crate::text::{is_digit, is_letter};
use vstd::prelude::*;
use vstd::std_specs::iter::IteratorSpec;
use vstd::string::*;

verus! {

/// What the scanner is in the middle of.
#[derive(Debug, PartialEq, Eq, Clone, Copy, Structural)]
pub enum ParseState {
    /// Nothing in particular.
    Start,
    /// A numeric literal.
    Number,
    /// An identifier.
    Identifier,
    /// A quoted string, up to its closing quote.
    String,
}

/// The scanner after some prefix of the input: the tokens already cut, the
/// token still open, and the state.
pub ghost struct Scan {
    pub tokens: Seq<Seq<char>>,
    pub current: Seq<char>,
    pub state: ParseState,
}

/// The tokens with the open token closed, unless it is empty.
pub open spec fn flush(tokens: Seq<Seq<char>>, current: Seq<char>) -> Seq<Seq<char>> {
    if current.len() > 0 {
        tokens.push(current)
    } else {
        tokens
    }
}

/// Whether `c` is the `E` or `e` of an exponent.
pub open spec fn is_exponent_mark(c: char) -> bool {
    c == 'E' || c == 'e'
}

/// Whether `c` is a sign.
pub open spec fn is_sign(c: char) -> bool {
    c == '+' || c == '-'
}

/// Whether `c` is one of the marks that may close an identifier.
pub open spec fn is_suffix(c: char) -> bool {
    c == '$' || c == '%'
}

impl Scan {
    /// The scanner before any input.
    pub open spec fn initial() -> Scan {
        Scan { tokens: Seq::empty(), current: Seq::empty(), state: ParseState::Start }
    }

    /// `c` joins the open token.
    pub open spec fn append(self, c: char) -> Scan {
        Scan { current: self.current.push(c), ..self }
    }

    /// The open token is closed and `c` opens the next one.
    pub open spec fn begin(self, c: char, state: ParseState) -> Scan {
        Scan { tokens: flush(self.tokens, self.current), current: seq![c], state }
    }

    /// `c` joins the open token and closes it.
    pub open spec fn finish(self, c: char) -> Scan {
        Scan {
            tokens: self.tokens.push(self.current.push(c)),
            current: Seq::empty(),
            state: ParseState::Start,
        }
    }

    /// The open token is closed and nothing is opened.
    pub open spec fn separate(self) -> Scan {
        Scan {
            tokens: flush(self.tokens, self.current),
            current: Seq::empty(),
            state: ParseState::Start,
        }
    }

    /// The scanner after one more character. The rules are tried in this
    /// order, and the first that applies decides.
    pub open spec fn step(self, c: char) -> Scan {
        if c == '"' {
            if self.state == ParseState::String {
                self.finish(c)
            } else {
                self.begin(c, ParseState::String)
            }
        } else if self.state == ParseState::String {
            self.append(c)
        } else if c == ' ' {
            self.separate()
        } else if is_exponent_mark(c) && self.state == ParseState::Number {
            self.append(c)
        } else if is_sign(c) && self.state == ParseState::Number {
            if self.current.len() > 0 && is_exponent_mark(self.current.last()) {
                self.append(c)
            } else {
                self.begin(c, ParseState::Start)
            }
        } else if (is_digit(c) || is_letter(c)) && self.state == ParseState::Identifier {
            self.append(c)
        } else if is_suffix(c) && self.state == ParseState::Identifier {
            self.finish(c)
        } else if is_letter(c) {
            Scan { state: ParseState::Identifier, ..self.append(c) }
        } else if is_digit(c) || c == '.' {
            if self.state == ParseState::Number {
                self.append(c)
            } else {
                self.begin(c, ParseState::Number)
            }
        } else {
            self.begin(c, ParseState::Start)
        }
    }

    /// The scanner after all of `input`.
    pub open spec fn run(input: Seq<char>) -> Scan
        decreases input.len(),
    {
        if input.len() == 0 {
            Scan::initial()
        } else {
            Scan::run(input.drop_last()).step(input.last())
        }
    }

    /// No token, closed or open, holds a space.
    pub open spec fn spaceless(self) -> bool {
        &&& forall|i: int| 0 <= i < self.tokens.len() ==> !(#[trigger] self.tokens[i]).contains(' ')
        &&& !self.current.contains(' ')
    }

    /// No closed token is empty.
    pub open spec fn solid(self) -> bool {
        forall|i: int| 0 <= i < self.tokens.len() ==> (#[trigger] self.tokens[i]).len() > 0
    }
}

/// The tokens of `input`: what the scanner has cut at the end of the
/// input, with the token left open, if any, as the last one.
pub open spec fn tokens_of(input: Seq<char>) -> Seq<Seq<char>> {
    flush(Scan::run(input).tokens, Scan::run(input).current)
}

/// The predicate that holds of every character but the space.
pub open spec fn is_not_space() -> spec_fn(char) -> bool {
    |c: char| c != ' '
}

/// The characters of `text` without its spaces.
pub open spec fn without_spaces(text: Seq<char>) -> Seq<char> {
    text.filter(is_not_space())
}

/// No token is empty.
pub proof fn lemma_tokens_not_empty(input: Seq<char>)
    ensures
        Scan::run(input).solid(),
        forall|i: int| 0 <= i < tokens_of(input).len() ==> (#[trigger] tokens_of(input)[i]).len() > 0,
    decreases input.len(),
{
    if input.len() > 0 {
        lemma_tokens_not_empty(input.drop_last());
    }
}

/// Outside quoted strings a space only separates: where the input holds no
/// quote, no token holds a space.
pub proof fn lemma_tokens_without_space(input: Seq<char>)
    requires
        !input.contains('"'),
    ensures
        Scan::run(input).state != ParseState::String,
        Scan::run(input).spaceless(),
        forall|i: int| 0 <= i < tokens_of(input).len() ==> !(#[trigger] tokens_of(input)[i]).contains(' '),
    decreases input.len(),
{
    if input.len() > 0 {
        let front = input.drop_last();
        assert forall|i: int| 0 <= i < front.len() implies front[i] != '"' by {}
        lemma_tokens_without_space(front);
    }
}

/// The characters that the scanner holds, in order: those of the closed
/// tokens and those of the open one.
pub open spec fn held(scan: Scan) -> Seq<char> {
    scan.tokens.flatten() + scan.current
}

/// One character joins what the scanner holds, unless it is a space
/// outside a string: that one is dropped.
proof fn lemma_step_holds(before: Scan, c: char)
    ensures
        held(before.step(c)) == if c == ' ' && before.state != ParseState::String {
            held(before)
        } else {
            held(before).push(c)
        },
{
    let tokens = before.tokens;
    let current = before.current;
    tokens.lemma_flatten_push(current);
    tokens.lemma_flatten_push(current.push(c));
    assert(held(before.append(c)) =~= held(before).push(c));
    assert(held(before.finish(c)) =~= held(before).push(c));
    assert(held(before.separate()) =~= held(before));
    assert forall|state: ParseState| held(#[trigger] before.begin(c, state)) == held(before).push(
        c,
    ) by {
        assert(held(before.begin(c, state)) =~= held(before).push(c));
    }
    assert(held(Scan { state: ParseState::Identifier, ..before.append(c) }) =~= held(before).push(c));
}

/// Tokenizing loses and invents no character but spaces, and keeps the
/// order: the tokens put together, without their spaces, are the input
/// without its spaces. Where the input holds no quote, the tokens put
/// together are the input without its spaces.
pub proof fn lemma_tokens_keep_characters(input: Seq<char>)
    ensures
        without_spaces(held(Scan::run(input))) == without_spaces(input),
        without_spaces(tokens_of(input).flatten()) == without_spaces(input),
        !input.contains('"') ==> tokens_of(input).flatten() == without_spaces(input),
    decreases input.len(),
{
    let scan = Scan::run(input);
    scan.tokens.lemma_flatten_push(scan.current);
    assert(tokens_of(input).flatten() =~= held(scan));
    if input.len() == 0 {
        assert(held(scan) =~= input);
    } else {
        let front = input.drop_last();
        let c = input.last();
        lemma_tokens_keep_characters(front);
        lemma_step_holds(Scan::run(front), c);
        assert(input =~= front.push(c));
        front.lemma_filter_push(c, is_not_space());
        held(Scan::run(front)).lemma_filter_push(c, is_not_space());
    }
    if !input.contains('"') {
        lemma_tokens_without_space(input);
        lemma_spaceless_is_kept(scan);
    }
}

/// Where no token holds a space, taking the spaces out changes nothing.
proof fn lemma_spaceless_is_kept(scan: Scan)
    requires
        scan.spaceless(),
    ensures
        without_spaces(held(scan)) == held(scan),
    decreases scan.tokens.len(),
{
    if scan.tokens.len() == 0 {
        assert(held(scan) =~= scan.current);
        lemma_filter_keeps(scan.current);
    } else {
        let front = Scan { tokens: scan.tokens.drop_last(), current: scan.tokens.last(), ..scan };
        lemma_spaceless_is_kept(front);
        assert(scan.tokens =~= front.tokens.push(front.current));
        front.tokens.lemma_flatten_push(front.current);
        Seq::filter_distributes_over_add(held(front), scan.current, is_not_space());
        lemma_filter_keeps(scan.current);
    }
}

/// A text without a space is its own text without spaces.
proof fn lemma_filter_keeps(text: Seq<char>)
    requires
        !text.contains(' '),
    ensures
        without_spaces(text) == text,
    decreases text.len(),
{
    if text.len() == 0 {
        text.lemma_filter_len(is_not_space());
        assert(without_spaces(text) =~= text);
    } else {
        let front = text.drop_last();
        assert forall|i: int| 0 <= i < front.len() implies front[i] != ' ' by {
            assert(text.contains(text[i]));
        }
        lemma_filter_keeps(front);
        assert(text.contains(text.last()));
        assert(text =~= front.push(text.last()));
        front.lemma_filter_push(text.last(), is_not_space());
    }
}

/// What one character does to the open token.
enum Move {
    /// It joins the open token.
    Append,
    /// It closes the open token and opens the next one.
    Begin,
    /// It joins the open token and closes it.
    Finish,
    /// It closes the open token.
    Separate,
}

/// Cuts `input` into its tokens.
pub fn lex(input: &str) -> (tokens: Vec<String>)
    ensures
        tokens.deep_view() == tokens_of(input@),
        forall|i: int| 0 <= i < tokens.len() ==> (#[trigger] tokens[i])@.len() > 0,
        !input@.contains('"') ==> forall|i: int|
            0 <= i < tokens.len() ==> !(#[trigger] tokens[i])@.contains(' '),
        without_spaces(tokens.deep_view().flatten()) == without_spaces(input@),
        !input@.contains('"') ==> tokens.deep_view().flatten() == without_spaces(input@),
{
    let mut tokens: Vec<String> = Vec::new();
    let mut state = ParseState::Start;
    let mut current = String::new();
    let mut last: char = ' ';

    for c in it: input.chars()
        invariant
            it.seq() == input@,
            tokens.deep_view() == Scan::run(input@.take(it.index() as int)).tokens,
            current@ == Scan::run(input@.take(it.index() as int)).current,
            state == Scan::run(input@.take(it.index() as int)).state,
            current@.len() > 0 ==> last == current@.last(),
    {
        proof {
            let next = input@.take(it.index() + 1);
            assert(next.drop_last() =~= input@.take(it.index() as int));
        }
        let is_digit = '0' <= c && c <= '9';
        let is_letter = ('A' <= c && c <= 'Z') || ('a' <= c && c <= 'z');
        let in_number = state == ParseState::Number;
        let in_identifier = state == ParseState::Identifier;
        let (action, next_state) = if c == '"' {
            if state == ParseState::String {
                (Move::Finish, ParseState::Start)
            } else {
                (Move::Begin, ParseState::String)
            }
        } else if state == ParseState::String {
            (Move::Append, state)
        } else if c == ' ' {
            (Move::Separate, ParseState::Start)
        } else if (c == 'E' || c == 'e') && in_number {
            (Move::Append, state)
        } else if (c == '+' || c == '-') && in_number {
            if !current.as_str().is_empty() && (last == 'E' || last == 'e') {
                (Move::Append, state)
            } else {
                (Move::Begin, ParseState::Start)
            }
        } else if (is_digit || is_letter) && in_identifier {
            (Move::Append, state)
        } else if (c == '$' || c == '%') && in_identifier {
            (Move::Finish, ParseState::Start)
        } else if is_letter {
            (Move::Append, ParseState::Identifier)
        } else if is_digit || c == '.' {
            if in_number {
                (Move::Append, state)
            } else {
                (Move::Begin, ParseState::Number)
            }
        } else {
            (Move::Begin, ParseState::Start)
        };
        match action {
            Move::Append => {
                current.push(c);
            },
            Move::Finish => {
                current.push(c);
                tokens.push(current);
                current = String::new();
            },
            Move::Begin => {
                if !current.as_str().is_empty() {
                    tokens.push(current);
                    current = String::new();
                }
                current.push(c);
            },
            Move::Separate => {
                if !current.as_str().is_empty() {
                    tokens.push(current);
                    current = String::new();
                }
            },
        }
        last = c;
        state = next_state;
    }

    proof {
        assert(input@.take(input@.len() as int) =~= input@);
    }
    if !current.as_str().is_empty() {
        tokens.push(current);
    }
    proof {
        lemma_tokens_not_empty(input@);
        lemma_tokens_keep_characters(input@);
        if !input@.contains('"') {
            lemma_tokens_without_space(input@);
        }
        assert forall|i: int| 0 <= i < tokens.len() implies (#[trigger] tokens[i])@
            == tokens_of(input@)[i] by {}
    }
    tokens
}

} // verus!
