use lpi::command::{Command, StatementKind};
use lpi::error::InterpretError;
use lpi::expressions::{
    combine, combine_arithmetic_expressions, combine_parens, is_arithmetic_operator, is_numerical,
};
use lpi::interpreter::{operator, Operator};
use lpi::lexer::lex;
use lpi::node_type::NodeType;
use lpi::number::to_index;
use lpi::parse_node::ParseNode;
use lpi::parser::parse;
use lpi::parsing::{parse_identifier, parse_line_number, parse_numeric, parse_string};
use lpi::program::{line_number, read_line_number};
use lpi::text::{push_decimal, same_text};

fn leaf(node_type: NodeType, value: &str) -> ParseNode {
    ParseNode::new(node_type, value.to_owned(), vec![])
}

fn expression(children: Vec<ParseNode>) -> ParseNode {
    ParseNode::new(NodeType::Expression, String::new(), children)
}

fn line_of(source: &str) -> ParseNode {
    parse(&lex(source)).get_children()[0].clone()
}

fn index_of_float(x: f64) -> Option<usize> {
    if x.fract() != 0.0 || x < 0.0 {
        None
    } else {
        Some(x as usize)
    }
}

// ---- tokenizer ----

#[test]
fn no_token_holds_a_space_without_quotes() {
    for source in ["A = 1 + 2", "  10   PRINT  X ", "1 2 3", " ", "A$ B% C", "1E+5 - 2 e"] {
        for token in lex(source) {
            assert!(!token.contains(' '), "{token:?}");
            assert!(!token.is_empty());
        }
    }
}

#[test]
fn tokens_keep_every_character_but_spaces() {
    for source in [
        "A = 1 + 2",
        "  10   PRINT  X ",
        "10 PRINT \"HELLO,  WORLD!\" ; A$",
        "AL(0)=10\n20 B = 1.5E-10 ^ ( 2 )",
        "\"unterminated  text",
        "é ٣ λ",
    ] {
        let joined: String = lex(source).concat();
        let kept: String = joined.chars().filter(|c| *c != ' ').collect();
        let expected: String = source.chars().filter(|c| *c != ' ').collect();
        assert_eq!(kept, expected);
        if !source.contains('"') {
            assert_eq!(joined, expected);
        }
    }
}

#[test]
fn spaces_stay_inside_strings() {
    assert_eq!(lex("PRINT \"A  B\" C"), vec!["PRINT", "\"A  B\"", "C"]);
}

#[test]
fn empty_input_has_no_tokens() {
    assert_eq!(lex(""), Vec::<String>::new());
    assert_eq!(lex("   "), Vec::<String>::new());
}

#[test]
fn unterminated_string_runs_to_the_end() {
    assert_eq!(lex("PRINT \"HELLO 1+2"), vec!["PRINT", "\"HELLO 1+2"]);
}

#[test]
fn quote_begins_a_new_token() {
    assert_eq!(lex("PRINT\"HI\"X"), vec!["PRINT", "\"HI\"", "X"]);
    assert_eq!(lex("\"\"\"\""), vec!["\"\"", "\"\""]);
}

#[test]
fn signed_exponent_stays_in_the_number() {
    assert_eq!(lex("1E+5"), vec!["1E+5"]);
    assert_eq!(lex("1e-5+2"), vec!["1e-5", "+", "2"]);
    assert_eq!(lex("1+5"), vec!["1", "+", "5"]);
    assert_eq!(lex("1-5"), vec!["1", "-", "5"]);
    assert_eq!(lex("1E5"), vec!["1E5"]);
}

#[test]
fn letters_join_the_open_token() {
    assert_eq!(lex("1+A"), vec!["1", "+A"]);
    assert_eq!(lex("10A"), vec!["10A"]);
    assert_eq!(lex("(A)"), vec!["(A", ")"]);
}

#[test]
fn digits_open_a_number_outside_identifiers() {
    assert_eq!(lex("A1 1A"), vec!["A1", "1A"]);
    assert_eq!(lex("+1"), vec!["+", "1"]);
    assert_eq!(lex("A.5"), vec!["A", ".5"]);
    assert_eq!(lex("1.5.2"), vec!["1.5.2"]);
}

#[test]
fn symbols_stand_alone() {
    assert_eq!(lex("(1)*2"), vec!["(", "1", ")", "*", "2"]);
    assert_eq!(lex("1\n2"), vec!["1", "\n", "2"]);
    assert_eq!(lex("==$"), vec!["=", "=", "$"]);
}

#[test]
fn suffix_closes_an_identifier() {
    assert_eq!(lex("A% = B$"), vec!["A%", "=", "B$"]);
    assert_eq!(lex("A$1"), vec!["A$", "1"]);
    assert_eq!(lex("1$"), vec!["1", "$"]);
}

#[test]
fn non_ascii_characters_are_symbols() {
    assert_eq!(lex("é2"), vec!["é", "2"]);
    assert_eq!(lex("Aé"), vec!["A", "é"]);
}

// ---- classifier ----

#[test]
fn classifies_single_tokens() {
    assert_eq!(parse_string("\"A\""), Some(leaf(NodeType::String, "\"A\"")));
    assert_eq!(parse_string("\""), Some(leaf(NodeType::String, "\"")));
    assert_eq!(parse_string("\"A"), None);
    assert_eq!(parse_string(""), None);
    assert_eq!(parse_numeric("12"), Some(leaf(NodeType::Number, "12")));
    assert_eq!(parse_numeric("1.2"), Some(leaf(NodeType::Float, "1.2")));
    assert_eq!(parse_numeric("A1"), Some(leaf(NodeType::Number, "A1")));
    assert_eq!(parse_numeric("A"), None);
    assert_eq!(parse_numeric("."), None);
    assert_eq!(parse_identifier("A"), Some(leaf(NodeType::Identifier, "A")));
    assert_eq!(parse_identifier("PRINT"), Some(leaf(NodeType::StatementName, "PRINT")));
    assert_eq!(parse_identifier("LET"), Some(leaf(NodeType::StatementName, "LET")));
    assert_eq!(parse_identifier("let"), Some(leaf(NodeType::Identifier, "let")));
    assert_eq!(parse_identifier("+"), None);
    assert_eq!(parse_line_number("10"), Some(leaf(NodeType::LineNumber, "10")));
    assert_eq!(parse_line_number(""), Some(leaf(NodeType::LineNumber, "")));
    assert_eq!(parse_line_number("1A"), None);
}

#[test]
fn classifies_by_unicode_categories() {
    // an Arabic-Indic digit is numeric, a Greek letter is alphabetic
    assert_eq!(parse_numeric("٣"), Some(leaf(NodeType::Number, "٣")));
    assert_eq!(parse_line_number("٣"), Some(leaf(NodeType::LineNumber, "٣")));
    assert_eq!(parse_identifier("λ"), Some(leaf(NodeType::Identifier, "λ")));
    assert_eq!(parse_numeric("λ"), None);
    assert_eq!(parse_identifier("٣"), None);
}

#[test]
fn line_number_only_opens_a_line() {
    let tokens = vec!["10".to_owned(), "20".to_owned()];
    let program = parse(&tokens);
    let expected = ParseNode::new(
        NodeType::Line,
        String::new(),
        vec![leaf(NodeType::LineNumber, "10"), leaf(NodeType::Number, "20")],
    );
    assert_eq!(program.get_children()[0], expected);
}

#[test]
fn quoted_token_opens_a_line_as_string() {
    let line = line_of("\"10\" 5");
    assert_eq!(line.get_children()[0], leaf(NodeType::String, "\"10\""));
    assert_eq!(line.get_children()[1], leaf(NodeType::Number, "5"));
}

#[test]
fn line_breaks_close_lines() {
    let program = parse(&lex("10 A\n\n20 B\n"));
    assert_eq!(program.get_node_type(), NodeType::Program);
    assert_eq!(program.get_value(), "");
    let lines = program.get_children();
    assert_eq!(lines.len(), 3);
    assert_eq!(lines[0].get_children().len(), 3);
    assert_eq!(lines[1], ParseNode::new(NodeType::Line, String::new(), vec![]));
    assert_eq!(lines[2].get_children()[0], leaf(NodeType::LineNumber, "20"));
}

#[test]
fn no_tokens_make_an_empty_program() {
    assert_eq!(parse(&[]), ParseNode::new(NodeType::Program, String::new(), vec![]));
}

#[test]
fn implicit_let_needs_number_and_identifier() {
    let with = line_of("10 A = 1");
    assert_eq!(with.get_children()[1], leaf(NodeType::StatementName, "LET"));
    let explicit = line_of("10 LET A = 1");
    assert_eq!(explicit.get_children().len(), 5);
    let without_number = line_of("A = 1");
    assert_eq!(without_number.get_children()[0], leaf(NodeType::Identifier, "A"));
    assert_eq!(without_number.get_children().len(), 3);
    let statement = line_of("10 PRINT A");
    assert_eq!(statement.get_children().len(), 3);
}

#[test]
fn implicit_let_looks_at_the_folded_line() {
    // the line folds to a number and one expression: no identifier is second
    let line = line_of("10 A + 1");
    assert_eq!(line.get_children().len(), 2);
    assert_eq!(line.get_children()[1].get_node_type(), NodeType::Expression);
}

// ---- tree builder ----

#[test]
fn product_folds_before_sum() {
    let line = line_of("10 PRINT 3 * 4 + 5");
    let expected = expression(vec![
        expression(vec![
            leaf(NodeType::Number, "3"),
            leaf(NodeType::Symbol, "*"),
            leaf(NodeType::Number, "4"),
        ]),
        leaf(NodeType::Symbol, "+"),
        leaf(NodeType::Number, "5"),
    ]);
    assert_eq!(line.get_children()[2], expected);
    assert_eq!(line.get_children().len(), 3);
}

#[test]
fn brackets_fold_before_the_product_outside() {
    let line = line_of("10 PRINT ( 3 + 4 ) * 5");
    let expected = expression(vec![
        expression(vec![
            leaf(NodeType::Symbol, "("),
            expression(vec![
                leaf(NodeType::Number, "3"),
                leaf(NodeType::Symbol, "+"),
                leaf(NodeType::Number, "4"),
            ]),
            leaf(NodeType::Symbol, ")"),
        ]),
        leaf(NodeType::Symbol, "*"),
        leaf(NodeType::Number, "5"),
    ]);
    assert_eq!(line.get_children()[2], expected);
}

#[test]
fn sums_fold_from_the_left() {
    let line = line_of("10 PRINT 1 - 2 + 3");
    let expected = expression(vec![
        expression(vec![
            leaf(NodeType::Number, "1"),
            leaf(NodeType::Symbol, "-"),
            leaf(NodeType::Number, "2"),
        ]),
        leaf(NodeType::Symbol, "+"),
        leaf(NodeType::Number, "3"),
    ]);
    assert_eq!(line.get_children()[2], expected);
}

#[test]
fn power_groups_the_sum_before_it() {
    let line = line_of("10 PRINT 1 + 2 ^ 3");
    let expected = expression(vec![
        expression(vec![
            leaf(NodeType::Number, "1"),
            leaf(NodeType::Symbol, "+"),
            leaf(NodeType::Number, "2"),
        ]),
        leaf(NodeType::Symbol, "^"),
        leaf(NodeType::Number, "3"),
    ]);
    assert_eq!(line.get_children()[2], expected);
}

#[test]
fn folding_twice_changes_nothing() {
    for source in [
        "10 PRINT ( 3 + 4 ) * 5",
        "10 A = 1 + 2 * 3 ^ ( 4 - 1 )",
        "1 + + 2 ( )",
        "( ( 1 ) )",
        "10",
    ] {
        let mut line = line_of(source);
        let before = line.clone();
        combine(&mut line);
        assert_eq!(line, before);
        assert!(!combine_arithmetic_expressions(&mut line, &["*", "/"]));
        assert!(!combine_arithmetic_expressions(&mut line, &["+", "-"]));
        assert!(!combine_arithmetic_expressions(&mut line, &["^"]));
        assert!(!combine_parens(&mut line));
        assert_eq!(line, before);
    }
}

#[test]
fn malformed_lines_stay_flat() {
    let line = line_of("10 PRINT + * )");
    assert_eq!(line.get_children().len(), 5);
    let line = line_of("10 PRINT ( 1");
    assert_eq!(line.get_children().len(), 4);
    let mut empty = ParseNode::new(NodeType::Line, String::new(), vec![]);
    combine(&mut empty);
    assert_eq!(empty.get_children().len(), 0);
    assert!(!combine_parens(&mut empty));
}

#[test]
fn sub_passes_fold_only_their_own_shape() {
    let mut node = ParseNode::new(
        NodeType::Line,
        String::new(),
        vec![
            leaf(NodeType::Number, "1"),
            leaf(NodeType::Symbol, "+"),
            leaf(NodeType::Number, "2"),
            leaf(NodeType::Symbol, "*"),
            leaf(NodeType::Number, "3"),
        ],
    );
    assert!(!combine_arithmetic_expressions(&mut node, &["^"]));
    assert!(!combine_parens(&mut node));
    assert!(combine_arithmetic_expressions(&mut node, &["*", "/"]));
    assert_eq!(node.get_children().len(), 3);
    assert_eq!(
        node.get_children()[2],
        expression(vec![
            leaf(NodeType::Number, "2"),
            leaf(NodeType::Symbol, "*"),
            leaf(NodeType::Number, "3"),
        ])
    );
    assert_eq!(node.get_node_type(), NodeType::Line);
}

#[test]
fn operands_and_operators() {
    assert!(is_numerical(NodeType::Number));
    assert!(is_numerical(NodeType::Float));
    assert!(is_numerical(NodeType::Identifier));
    assert!(is_numerical(NodeType::Expression));
    assert!(!is_numerical(NodeType::Symbol));
    assert!(!is_numerical(NodeType::String));
    assert!(!is_numerical(NodeType::LineNumber));
    assert!(!is_numerical(NodeType::StatementName));
    assert!(is_arithmetic_operator(&leaf(NodeType::Symbol, "/"), &["*", "/"]));
    assert!(!is_arithmetic_operator(&leaf(NodeType::Symbol, "+"), &["*", "/"]));
    assert!(!is_arithmetic_operator(&leaf(NodeType::Identifier, "*"), &["*", "/"]));
    assert!(!is_arithmetic_operator(&leaf(NodeType::Symbol, "*"), &[]));
    assert_eq!(operator("^"), Some(Operator::Power));
    assert_eq!(operator("+"), Some(Operator::Add));
    assert_eq!(operator("-"), Some(Operator::Subtract));
    assert_eq!(operator("*"), Some(Operator::Multiply));
    assert_eq!(operator("/"), Some(Operator::Divide));
    assert_eq!(operator("**"), None);
    assert_eq!(operator(""), None);
}

// ---- tree dump ----

#[test]
fn dump_of_a_tree() {
    let line = line_of("10 PRINT 1 + 2");
    let expected = "Line ''\n  LineNumber '10'\n  StatementName 'PRINT'\n  Expression ''\n    Number '1'\n    Symbol '+'\n    Number '2'\n";
    assert_eq!(line.to_string(), expected);
    assert_eq!(leaf(NodeType::Float, "1.5").display_at_depth(2), "    Float '1.5'\n");
    assert_eq!(leaf(NodeType::String, "\"A\"").display_at_depth(0), "String '\"A\"'\n");
    let program = ParseNode::new(NodeType::Program, String::new(), vec![leaf(NodeType::Identifier, "A")]);
    assert_eq!(program.display_at_depth(1), "  Program ''\n    Identifier 'A'\n");
}

#[test]
fn names_of_kinds() {
    assert_eq!(NodeType::Program.name(), "Program");
    assert_eq!(NodeType::Line.name(), "Line");
    assert_eq!(NodeType::LineNumber.name(), "LineNumber");
    assert_eq!(NodeType::StatementName.name(), "StatementName");
    assert_eq!(NodeType::String.name(), "String");
    assert_eq!(NodeType::Number.name(), "Number");
    assert_eq!(NodeType::Float.name(), "Float");
    assert_eq!(NodeType::Identifier.name(), "Identifier");
    assert_eq!(NodeType::Symbol.name(), "Symbol");
    assert_eq!(NodeType::Expression.name(), "Expression");
    assert_eq!(NodeType::Symbol.name(), format!("{:?}", NodeType::Symbol));
}

#[test]
fn clone_copies_the_tree() {
    let line = line_of("10 A = ( 1 + 2 ) * 3");
    assert_eq!(line.clone(), line);
}

// ---- numbers ----

#[test]
fn index_of_whole_numbers() {
    assert_eq!(to_index(0.0f64.to_bits()), Some(0));
    assert_eq!(to_index((-0.0f64).to_bits()), Some(0));
    assert_eq!(to_index(1.0f64.to_bits()), Some(1));
    assert_eq!(to_index(10.0f64.to_bits()), Some(10));
    assert_eq!(to_index(4503599627370496.0f64.to_bits()), Some(4503599627370496));
    assert_eq!(to_index(9007199254740993.0f64.to_bits()), Some(9007199254740992));
    assert_eq!(to_index(1e300f64.to_bits()), Some(usize::MAX));
    assert_eq!(to_index(f64::MAX.to_bits()), Some(usize::MAX));
}

#[test]
fn index_of_other_numbers() {
    assert_eq!(to_index(2.5f64.to_bits()), None);
    assert_eq!(to_index(0.5f64.to_bits()), None);
    assert_eq!(to_index((-1.0f64).to_bits()), None);
    assert_eq!(to_index(f64::NAN.to_bits()), None);
    assert_eq!(to_index(f64::INFINITY.to_bits()), None);
    assert_eq!(to_index(f64::NEG_INFINITY.to_bits()), None);
    assert_eq!(to_index(f64::MIN_POSITIVE.to_bits()), None);
    assert_eq!(to_index(5e-324f64.to_bits()), None);
    assert_eq!(to_index(1u64), None);
}

#[test]
fn index_agrees_with_the_machine() {
    let mut samples: Vec<f64> = vec![
        0.0, -0.0, 0.25, 0.75, 0.999999, 1.0, 1.000001, 1.5, 2.0, 3.0, 9.0, 10.0, 10.5, 255.0,
        65535.0, 65536.5, 1e9, 1e15, 1e16, 1e19, 1.8446744073709552e19, 1.8446744073709550e19,
        1e20, 1e308, -1.0, -0.5, -1e300, 4294967295.0, 4294967296.0, 9007199254740991.0,
        4503599627370495.5, f64::EPSILON, f64::MIN_POSITIVE, f64::MAX, f64::MIN, f64::INFINITY,
        f64::NEG_INFINITY, f64::NAN,
    ];
    let mut x = 1.0f64;
    for _ in 0..70 {
        samples.push(x);
        samples.push(x + 1.0);
        samples.push(x - 0.5);
        samples.push(x * 1.5);
        x *= 2.0;
    }
    let mut seed: u64 = 0x9E37_79B9_7F4A_7C15;
    for _ in 0..20000 {
        seed ^= seed << 13;
        seed ^= seed >> 7;
        seed ^= seed << 17;
        samples.push(f64::from_bits(seed));
        samples.push((seed % 100_000) as f64 / 4.0);
    }
    for sample in samples {
        assert_eq!(to_index(sample.to_bits()), index_of_float(sample), "{sample:?}");
    }
}

#[test]
fn line_numbers() {
    assert_eq!(read_line_number("10"), Some(10));
    assert_eq!(read_line_number("0"), Some(0));
    assert_eq!(read_line_number("007"), Some(7));
    assert_eq!(read_line_number("+12"), Some(12));
    assert_eq!(read_line_number("65535"), Some(65535));
    assert_eq!(read_line_number("65536"), None);
    assert_eq!(read_line_number("70000"), None);
    assert_eq!(read_line_number("99999999999999999999999"), None);
    assert_eq!(read_line_number(""), None);
    assert_eq!(read_line_number("+"), None);
    assert_eq!(read_line_number("-1"), None);
    assert_eq!(read_line_number("1+"), None);
    assert_eq!(read_line_number("++1"), None);
    assert_eq!(read_line_number("1A"), None);
    assert_eq!(read_line_number("٣"), None);
    assert_eq!(read_line_number("PRINT"), None);
}

#[test]
fn line_numbers_agree_with_the_machine() {
    for text in [
        "", "+", "-", "0", "+0", "-0", "1", "12", "123", "1234", "12345", "65534", "65535",
        "65536", "65540", "99999", "100000", "000065535", "0000655350", "+65535", "+65536",
        " 1", "1 ", "1.0", "1e2", "0x10", "١٢", "4294967296", "4294967306",
        "18446744073709551616", "42949672960000000001",
    ] {
        assert_eq!(read_line_number(text), text.parse::<u16>().ok(), "{text:?}");
    }
    for n in 0..=70000u32 {
        let text = n.to_string();
        assert_eq!(read_line_number(&text), text.parse::<u16>().ok(), "{text:?}");
    }
}

#[test]
fn number_of_a_line() {
    assert_eq!(line_number(&line_of("10 PRINT 1")), Ok(Some(10)));
    assert_eq!(line_number(&ParseNode::new(NodeType::Line, String::new(), vec![])), Ok(None));
    assert_eq!(
        line_number(&line_of("70000 PRINT 1")),
        Err(InterpretError::LineNumberParseFailure("LineNumber '70000'\n".to_owned()))
    );
    assert_eq!(
        line_number(&line_of("PRINT 1")),
        Err(InterpretError::LineNumberParseFailure("StatementName 'PRINT'\n".to_owned()))
    );
}

// ---- text ----

#[test]
fn decimal_notation() {
    for n in [0u64, 1, 9, 10, 11, 99, 100, 12345, 65535, u64::MAX] {
        let mut out = String::from("n=");
        push_decimal(&mut out, n);
        assert_eq!(out, format!("n={n}"));
    }
}

#[test]
fn same_text_compares_characters() {
    assert!(same_text("", ""));
    assert!(same_text("LET", "LET"));
    assert!(!same_text("LET", "LE"));
    assert!(!same_text("LE", "LET"));
    assert!(!same_text("LET", "LEt"));
    assert!(!same_text("", "A"));
    assert!(same_text("é٣", "é٣"));
}

// ---- failures in words ----

#[test]
fn messages() {
    assert_eq!(
        InterpretError::LineNumberParseFailure("LineNumber '70000'\n".to_owned()).message(),
        "Error: bad Line number not found: LineNumber '70000'\n"
    );
    assert_eq!(
        InterpretError::UnexpectedNodeKind(NodeType::Symbol).message(),
        "Unexpected node type: Symbol"
    );
    assert_eq!(
        InterpretError::UnknownOperator("=".to_owned()).message(),
        "Unexpected operator: ="
    );
    assert_eq!(
        InterpretError::MalformedNumericLiteral("1.2.3".to_owned()).message(),
        "Malformed numeric literal: 1.2.3"
    );
    assert_eq!(InterpretError::MissingLetKeyword.message(), "error: LET statement missing 'LET'");
    assert_eq!(InterpretError::MissingVariable.message(), "error: LET statement missing variable");
    assert_eq!(InterpretError::MissingValue.message(), "error: LET statement missing value");
    assert_eq!(InterpretError::MissingEquals.message(), "error: LET statement missing '='");
    assert_eq!(
        InterpretError::InvalidArrayIndex.message(),
        "error: LET statement index must be a non-negative integer"
    );
    assert_eq!(
        InterpretError::ArrayIndexOutOfBounds { name: "AL".to_owned(), index: 10 }.message(),
        "Array AL index out of bounds: 10"
    );
}

// ---- commands ----

#[test]
fn command_report() {
    let command = Command::new(
        Some(10),
        StatementKind::Print,
        vec!["HELLO,".to_owned(), "WORLD!".to_owned()],
    );
    assert_eq!(command.execute(), "Line Some(10): PRINT HELLO, WORLD!");
    let command = Command::new(None, StatementKind::Print, vec![]);
    assert_eq!(command.execute(), "Line None: PRINT ");
    let command = Command::new(Some(65535), StatementKind::Print, vec!["X".to_owned()]);
    assert_eq!(command.execute(), format!("Line {:?}: PRINT {}", Some(65535u16), "X"));
}
