use lpi::error::InterpretError;
use lpi::interpreter::{Interpreter, Operator};
use lpi::let_statement::let_statement;
use lpi::lexer::lex;
use lpi::node_type::NodeType;
use lpi::parse_node::ParseNode;
use lpi::parser::parse;
use lpi::program::interpret;

fn read(text: &str) -> Option<u64> {
    text.parse::<f64>().ok().map(f64::to_bits)
}

fn apply(operator: Operator, left: u64, right: u64) -> u64 {
    let l = f64::from_bits(left);
    let r = f64::from_bits(right);
    let value = match operator {
        Operator::Add => l + r,
        Operator::Subtract => l - r,
        Operator::Multiply => l * r,
        Operator::Divide => l / r,
        Operator::Power => l.powf(r),
    };
    value.to_bits()
}

fn leaf(node_type: NodeType, value: &str) -> ParseNode {
    ParseNode::new(node_type, value.to_owned(), vec![])
}

fn empty_interpreter() -> Interpreter {
    Interpreter::new(ParseNode::new(NodeType::Program, String::new(), vec![]))
}

fn first_line(source: &str) -> ParseNode {
    let program = parse(&lex(source));
    program.get_children()[0].clone()
}

fn evaluate(source: &str) -> Result<f64, InterpretError> {
    let line = first_line(source);
    let node = line.get_children().last().unwrap();
    empty_interpreter().evaluate_expression(node, &read, &apply).map(f64::from_bits)
}

fn run(interpreter: &mut Interpreter, source: &str) -> Result<(), InterpretError> {
    let line = first_line(source);
    let_statement(interpreter, &line, &read, &apply)
}

#[test]
fn test_evaluate_expression() {
    let mut interpreter = Interpreter::new(ParseNode::new(
        NodeType::Program,
        String::new(),
        vec![ParseNode::new(
            NodeType::Line,
            String::new(),
            vec![ParseNode::new(
                NodeType::StatementName,
                "LET".to_owned(),
                vec![
                    ParseNode::new(NodeType::Identifier, "A".to_owned(), vec![]),
                    ParseNode::new(
                        NodeType::Expression,
                        String::new(),
                        vec![
                            ParseNode::new(NodeType::Number, "1".to_owned(), vec![]),
                            ParseNode::new(NodeType::Symbol, "+".to_owned(), vec![]),
                            ParseNode::new(NodeType::Number, "2".to_owned(), vec![]),
                        ],
                    ),
                ],
            )],
        )],
    ));

    let variable_node_value;
    let result;
    {
        let node = interpreter.root().get_children().first().unwrap();
        let let_node = node.get_children().first().unwrap();
        let variable_node = let_node.get_children().first().unwrap();
        let expression_node = let_node.get_children().last().unwrap();
        result = interpreter
            .evaluate_expression(expression_node, &read, &apply)
            .expect("Error evaluating expression");
        variable_node_value = variable_node.get_value().to_owned();
    }
    assert_eq!(f64::from_bits(result), 3.0);
    interpreter.set_float_scalar(&variable_node_value, result);
    assert_eq!(f64::from_bits(interpreter.get_float_scalar(&variable_node_value)), 3.0);
}

#[test]
fn test_evaluate_expression_with_parens() {
    let mut interpreter = Interpreter::new(ParseNode::new(
        NodeType::Program,
        String::new(),
        vec![ParseNode::new(
            NodeType::Line,
            String::new(),
            vec![ParseNode::new(
                NodeType::StatementName,
                "LET".to_owned(),
                vec![
                    ParseNode::new(NodeType::Identifier, "A".to_owned(), vec![]),
                    ParseNode::new(
                        NodeType::Expression,
                        String::new(),
                        vec![
                            ParseNode::new(NodeType::Number, "1".to_owned(), vec![]),
                            ParseNode::new(NodeType::Symbol, "+".to_owned(), vec![]),
                            ParseNode::new(
                                NodeType::Expression,
                                String::new(),
                                vec![
                                    ParseNode::new(NodeType::Number, "2".to_owned(), vec![]),
                                    ParseNode::new(NodeType::Symbol, "*".to_owned(), vec![]),
                                    ParseNode::new(NodeType::Number, "3".to_owned(), vec![]),
                                ],
                            ),
                        ],
                    ),
                ],
            )],
        )],
    ));

    let variable_node_value;
    let result;
    {
        let node = interpreter.root().get_children().first().unwrap();
        let let_node = node.get_children().first().unwrap();
        let variable_node = let_node.get_children().first().unwrap();
        let expression_node = let_node.get_children().last().unwrap();
        result = interpreter
            .evaluate_expression(expression_node, &read, &apply)
            .expect("Error evaluating expression");
        variable_node_value = variable_node.get_value().to_owned();
    }
    assert_eq!(f64::from_bits(result), 7.0);
    interpreter.set_float_scalar(&variable_node_value, result);
    assert_eq!(f64::from_bits(interpreter.get_float_scalar(&variable_node_value)), 7.0);
}

#[test]
fn evaluates_a_sum_from_source() {
    assert_eq!(evaluate("10 PRINT 1+2"), Ok(3.0));
}

#[test]
fn evaluates_brackets_from_source() {
    assert_eq!(evaluate("10 PRINT 1+(2*3)"), Ok(7.0));
}

#[test]
fn evaluates_each_operator() {
    assert_eq!(evaluate("10 PRINT 7 - 2"), Ok(5.0));
    assert_eq!(evaluate("10 PRINT 7 * 2"), Ok(14.0));
    assert_eq!(evaluate("10 PRINT 7 / 2"), Ok(3.5));
    assert_eq!(evaluate("10 PRINT 2 ^ 10"), Ok(1024.0));
    assert_eq!(evaluate("10 PRINT 1.5E2 + 0"), Ok(150.0));
}

#[test]
fn division_by_zero_is_no_failure() {
    assert_eq!(evaluate("10 PRINT 1 / 0"), Ok(f64::INFINITY));
    assert!(evaluate("10 PRINT 0 / 0").unwrap().is_nan());
}

#[test]
fn power_folds_after_sum() {
    // `^` is folded in a later pass than `+`, so the sum is the base.
    assert_eq!(evaluate("10 PRINT 1 + 2 ^ 2"), Ok(9.0));
}

#[test]
fn identifier_reads_its_scalar() {
    let mut interpreter = empty_interpreter();
    interpreter.set_float_scalar("B", 2.5f64.to_bits());
    let node = ParseNode::new(
        NodeType::Expression,
        String::new(),
        vec![
            leaf(NodeType::Identifier, "B"),
            leaf(NodeType::Symbol, "*"),
            leaf(NodeType::Identifier, "UNSET"),
        ],
    );
    let result = interpreter.evaluate_expression(&node, &read, &apply);
    assert_eq!(result.map(f64::from_bits), Ok(0.0));
    let result = interpreter.evaluate_expression(&leaf(NodeType::Identifier, "B"), &read, &apply);
    assert_eq!(result.map(f64::from_bits), Ok(2.5));
}

#[test]
fn unset_scalar_is_zero() {
    let interpreter = empty_interpreter();
    assert_eq!(interpreter.get_float_scalar("Z"), 0);
    assert_eq!(f64::from_bits(interpreter.get_float_scalar("Z")), 0.0);
}

#[test]
fn scalar_set_overwrites() {
    let mut interpreter = empty_interpreter();
    interpreter.set_float_scalar("A", 1.0f64.to_bits());
    interpreter.set_float_scalar("A", 2.0f64.to_bits());
    interpreter.set_float_scalar("B", 3.0f64.to_bits());
    assert_eq!(f64::from_bits(interpreter.get_float_scalar("A")), 2.0);
    assert_eq!(f64::from_bits(interpreter.get_float_scalar("B")), 3.0);
}

#[test]
fn unexpected_node_kind() {
    let interpreter = empty_interpreter();
    let result = interpreter.evaluate_expression(&leaf(NodeType::Symbol, "="), &read, &apply);
    assert_eq!(result, Err(InterpretError::UnexpectedNodeKind(NodeType::Symbol)));
    let result = interpreter.evaluate_expression(&leaf(NodeType::String, "\"A\""), &read, &apply);
    assert_eq!(result, Err(InterpretError::UnexpectedNodeKind(NodeType::String)));
    let short = ParseNode::new(
        NodeType::Expression,
        String::new(),
        vec![leaf(NodeType::Number, "1"), leaf(NodeType::Symbol, "+")],
    );
    let result = interpreter.evaluate_expression(&short, &read, &apply);
    assert_eq!(result, Err(InterpretError::UnexpectedNodeKind(NodeType::Expression)));
}

#[test]
fn unknown_operator() {
    let interpreter = empty_interpreter();
    let node = ParseNode::new(
        NodeType::Expression,
        String::new(),
        vec![leaf(NodeType::Number, "1"), leaf(NodeType::Symbol, "="), leaf(NodeType::Number, "2")],
    );
    let result = interpreter.evaluate_expression(&node, &read, &apply);
    assert_eq!(result, Err(InterpretError::UnknownOperator("=".to_owned())));
}

#[test]
fn malformed_numeric_literal() {
    assert_eq!(
        evaluate("10 PRINT 1.2.3"),
        Err(InterpretError::MalformedNumericLiteral("1.2.3".to_owned()))
    );
}

#[test]
fn left_operand_fails_first() {
    let interpreter = empty_interpreter();
    let node = ParseNode::new(
        NodeType::Expression,
        String::new(),
        vec![leaf(NodeType::Number, "1.2.3"), leaf(NodeType::Symbol, "?"), leaf(NodeType::Symbol, "x")],
    );
    let result = interpreter.evaluate_expression(&node, &read, &apply);
    assert_eq!(result, Err(InterpretError::MalformedNumericLiteral("1.2.3".to_owned())));
    let node = ParseNode::new(
        NodeType::Expression,
        String::new(),
        vec![leaf(NodeType::Number, "1"), leaf(NodeType::Symbol, "?"), leaf(NodeType::Symbol, "x")],
    );
    let result = interpreter.evaluate_expression(&node, &read, &apply);
    assert_eq!(result, Err(InterpretError::UnexpectedNodeKind(NodeType::Symbol)));
}

#[test]
fn let_stores_a_scalar() {
    let mut interpreter = empty_interpreter();
    assert_eq!(run(&mut interpreter, "10 A = 1 + 2"), Ok(()));
    assert_eq!(f64::from_bits(interpreter.get_float_scalar("A")), 3.0);
    assert_eq!(run(&mut interpreter, "LET B = A * 2"), Ok(()));
    assert_eq!(f64::from_bits(interpreter.get_float_scalar("B")), 6.0);
    assert_eq!(run(&mut interpreter, "LET C = 4"), Ok(()));
    assert_eq!(f64::from_bits(interpreter.get_float_scalar("C")), 4.0);
}

#[test]
fn let_stores_an_element() {
    let mut interpreter = empty_interpreter();
    assert_eq!(run(&mut interpreter, "10 AL(0) = 10"), Ok(()));
    assert_eq!(interpreter.get_float_array("AL", 0).map(f64::from_bits), Ok(10.0));
    assert_eq!(interpreter.get_float_array("AL", 1).map(f64::from_bits), Ok(0.0));
    assert_eq!(interpreter.get_float_array("AL", 9).map(f64::from_bits), Ok(0.0));
    assert_eq!(
        interpreter.get_float_array("AL", 10),
        Err(InterpretError::ArrayIndexOutOfBounds { name: "AL".to_owned(), index: 10 })
    );
    assert_eq!(run(&mut interpreter, "20 AL(1 + 2) = AL + 2.5"), Ok(()));
    assert_eq!(interpreter.get_float_array("AL", 3).map(f64::from_bits), Ok(2.5));
    assert_eq!(interpreter.get_float_array("AL", 0).map(f64::from_bits), Ok(10.0));
}

#[test]
fn let_index_outside_the_array() {
    let mut interpreter = empty_interpreter();
    assert_eq!(
        run(&mut interpreter, "10 AL(10) = 1"),
        Err(InterpretError::ArrayIndexOutOfBounds { name: "AL".to_owned(), index: 10 })
    );
    // the array was made all the same
    assert_eq!(interpreter.get_float_array("AL", 9).map(f64::from_bits), Ok(0.0));
}

#[test]
fn let_index_is_no_whole_number() {
    let mut interpreter = empty_interpreter();
    assert_eq!(run(&mut interpreter, "10 AL(2.5) = 1"), Err(InterpretError::InvalidArrayIndex));
    assert_eq!(run(&mut interpreter, "10 AL(0 - 1) = 1"), Err(InterpretError::InvalidArrayIndex));
    assert_eq!(run(&mut interpreter, "10 AL(1 / 0) = 1"), Err(InterpretError::InvalidArrayIndex));
}

#[test]
fn let_missing_parts() {
    let mut interpreter = empty_interpreter();
    assert_eq!(run(&mut interpreter, "10 PRINT 1"), Err(InterpretError::MissingLetKeyword));
    assert_eq!(run(&mut interpreter, "A = 1"), Err(InterpretError::MissingLetKeyword));
    assert_eq!(run(&mut interpreter, "10 LET"), Err(InterpretError::MissingVariable));
    assert_eq!(run(&mut interpreter, "10 LET 5 = 1"), Err(InterpretError::MissingVariable));
    assert_eq!(run(&mut interpreter, "10 LET A"), Err(InterpretError::MissingEquals));
    assert_eq!(run(&mut interpreter, "10 LET A 5"), Err(InterpretError::MissingEquals));
    assert_eq!(run(&mut interpreter, "10 LET A ="), Err(InterpretError::MissingValue));
    assert_eq!(run(&mut interpreter, "10 LET AL(1)"), Err(InterpretError::MissingValue));
    assert_eq!(run(&mut interpreter, "10 LET AL(1) ="), Err(InterpretError::MissingValue));
    let empty = ParseNode::new(NodeType::Line, String::new(), vec![]);
    assert_eq!(
        let_statement(&mut interpreter, &empty, &read, &apply),
        Err(InterpretError::MissingLetKeyword)
    );
}

#[test]
fn let_passes_on_the_failure_of_its_value() {
    let mut interpreter = empty_interpreter();
    assert_eq!(
        run(&mut interpreter, "10 LET A = 1.2.3"),
        Err(InterpretError::MalformedNumericLiteral("1.2.3".to_owned()))
    );
    assert_eq!(interpreter.get_float_scalar("A"), 0);
    assert_eq!(
        run(&mut interpreter, "10 LET A = \"X\""),
        Err(InterpretError::UnexpectedNodeKind(NodeType::String))
    );
}

#[test]
fn array_store() {
    let mut interpreter = empty_interpreter();
    interpreter.dim_float_array("B", 3);
    assert_eq!(interpreter.set_float_array("B", 2, 4.0f64.to_bits()), Ok(()));
    assert_eq!(interpreter.get_float_array("B", 2).map(f64::from_bits), Ok(4.0));
    assert_eq!(
        interpreter.set_float_array("B", 3, 4.0f64.to_bits()),
        Err(InterpretError::ArrayIndexOutOfBounds { name: "B".to_owned(), index: 3 })
    );
    assert_eq!(interpreter.get_float_array("FRESH", 9), Ok(0));
    assert_eq!(
        interpreter.get_float_array("FRESH", 10),
        Err(InterpretError::ArrayIndexOutOfBounds { name: "FRESH".to_owned(), index: 10 })
    );
}

#[test]
fn interpret_runs_every_line() {
    let program = parse(&lex("10 A = 1 + 2\n20 B(3) = 4"));
    let (output, result) = interpret(&program, &read, &apply);
    assert_eq!(result, Ok(()));
    let expected = "Interpreting...\n\
Line: Line ''\n  LineNumber '10'\n  StatementName 'LET'\n  Identifier 'A'\n  Symbol '='\n  Expression ''\n    Number '1'\n    Symbol '+'\n    Number '2'\n\n\
Line: Line ''\n  LineNumber '20'\n  StatementName 'LET'\n  Identifier 'B'\n  Expression ''\n    Symbol '('\n    Number '3'\n    Symbol ')'\n  Symbol '='\n  Number '4'\n\n";
    assert_eq!(output, expected);
}

#[test]
fn interpret_stops_at_the_first_failure() {
    let program = parse(&lex("10 A = 1\n70000 PRINT 2\n30 B = 3"));
    let (output, result) = interpret(&program, &read, &apply);
    assert_eq!(result, Err(InterpretError::MissingLetKeyword));
    let expected = "Interpreting...\n\
Error: bad Line number not found: LineNumber '70000'\n\n\
Line: Line ''\n  LineNumber '10'\n  StatementName 'LET'\n  Identifier 'A'\n  Symbol '='\n  Number '1'\n\n\
Line: Line ''\n  LineNumber '70000'\n  StatementName 'PRINT'\n  Number '2'\n\n";
    assert_eq!(output, expected);
}

#[test]
fn interpret_of_nothing() {
    let program = parse(&[]);
    let (output, result) = interpret(&program, &read, &apply);
    assert_eq!(result, Ok(()));
    assert_eq!(output, "Interpreting...\n");
}
