use lligne::expressions::Expr;
use lligne::leading_trailing_documentation;
use lligne::parser;
use lligne::parser::ParseError;
use lligne::scanner;

fn parse(source_code: &str) -> Box<Expr> {
    let mut scan_result = scanner::scan(source_code);
    scan_result = leading_trailing_documentation::filter(scan_result);
    parser::parse_expression(&scan_result).unwrap().model
}

fn parse_err(source_code: &str) -> ParseError {
    let mut scan_result = scanner::scan(source_code);
    scan_result = leading_trailing_documentation::filter(scan_result);
    match parser::parse_expression(&scan_result) {
        Err(error) => error,
        Ok(_) => panic!("expected a parse failure"),
    }
}

fn check(source_code: &str) {
    let model = parse(source_code);
    assert!(
        model.get_source_position().start_offset < model.get_source_position().end_offset
    );
}

#[test]
fn test_identifier_literals() {
    check("abc");
    check("\n  d  \n");
}

#[test]
fn test_integer_literals() {
    check("123");
    check("789");
}

#[test]
fn test_floating_point_literals() {
    check("1.23");
    check("78.9");
}

#[test]
fn test_multiline_string_literals() {
    check("` line one\n ` line two\n");
}

#[test]
fn test_string_literals() {
    check(r#""123""#);
    check(r#"'789'"#);
}

#[test]
fn test_leading_documentation() {
    check("// line one\n // line two\nq");
}

#[test]
fn test_trailing_documentation() {
    check("q // line one\n // line two\n")
}

#[test]
fn test_addition() {
    check("x + 1");
    check(" 3 + y");
    check("x + 1.7");
    check(" 3.666 + y");
}

#[test]
fn parser_test_built_in_types() {
    check("x: Int64");
    check("isWorking: Bool");
    check("amount: Float64");
    check("name: String");
}

#[test]
fn test_table_of_expressions() {
    let tests: Vec<&str> = vec![
        "x + 1",
        "q - 4",
        "a - b + 3",
        "a + b + 3",
        "1 * 2",
        "x + 3 * g",
        "a + b / 2 - c",
        "-a",
        "-2 * a - b * -r",
        "a.b.c",
        "x.y + z.q",
        "\"s\"",
        "\"string tied in a knot\"",
        "'c'",
        "(x + 5)",
        "((x + 5) / 3)",
        "()",
        "{}",
        "{x: int && 5}",
        "{x: int && 5, y: string && \"s\"}",
        "{x: int ?: 5, y: string ?: \"s\"}",
        "[]",
        "[1, 2, 3, 4, 5]",
        "true and false",
        "a and b",
        "a and b or c",
        "a and not b",
        "not a or b",
        "1 == 2",
        "1 + 1 == 2 / 1",
        "1 + 1 < 2 / 1",
        "1 + 1 <= 2 / 1",
        "1 + 1 >= 2 / 1",
        "x =~ y",
        "x !~ y",
        "int?",
        "float | int?",
        "float & 7.0",
        "f(x: 0)",
        "(a: f(x: 0))",
        "1..9",
        "x in 1..9",
        "x is Widget",
        "1 when n == 0\n| n * f(n - 1) when n > 0",
        "f: (n: int) -> int = 1 when n == 0\n| n * f(n-1) when n > 0",
        "x = y + z where {y: 3, z: 5}",
    ];

    tests.iter().for_each(|test| check(test));
}

#[test]
fn test_parenthesized_addition_tree() {
    // "(1+2)" parses to Parenthesized(Addition(Int64(1), Int64(2))) covering
    // the whole source.
    let model = parse("(1+2)");
    let pos = model.get_source_position();
    assert_eq!(0, pos.start_offset);
    assert_eq!(5, pos.end_offset);
    match *model {
        Expr::Parenthesized { inner_expr, .. } => match *inner_expr {
            Expr::Addition { lhs, rhs, source_position } => {
                assert!(matches!(*lhs, Expr::Int64Literal { value: 1, .. }));
                assert!(matches!(*rhs, Expr::Int64Literal { value: 2, .. }));
                assert_eq!(1, source_position.start_offset);
                assert_eq!(4, source_position.end_offset);
            }
            other => panic!("expected an addition, got {:?}", other),
        },
        other => panic!("expected a parenthesized expression, got {:?}", other),
    }
}

#[test]
fn test_unit() {
    let model = parse("()");
    let pos = model.get_source_position();
    assert_eq!(0, pos.start_offset);
    assert_eq!(2, pos.end_offset);
    assert!(matches!(*model, Expr::Unit { .. }));
}

#[test]
fn test_precedence_multiplication_over_addition() {
    // `*` binds tighter than `+`.
    let model = parse("1 + 2 * 3");
    match *model {
        Expr::Addition { lhs, rhs, .. } => {
            assert!(matches!(*lhs, Expr::Int64Literal { value: 1, .. }));
            assert!(matches!(*rhs, Expr::Multiplication { .. }));
        }
        other => panic!("expected an addition, got {:?}", other),
    }
}

#[test]
fn test_prefix_negation_binds_tighter_than_addition() {
    let model = parse("-a + b");
    match *model {
        Expr::Addition { lhs, rhs, .. } => {
            assert!(matches!(*lhs, Expr::NegationOperation { .. }));
            assert!(matches!(*rhs, Expr::Identifier { .. }));
        }
        other => panic!("expected an addition, got {:?}", other),
    }
}

#[test]
fn test_field_reference_left_associative() {
    let model = parse("a.b.c");
    match *model {
        Expr::FieldReference { parent, child, .. } => {
            assert!(matches!(*parent, Expr::FieldReference { .. }));
            assert!(matches!(*child, Expr::Identifier { .. }));
        }
        other => panic!("expected a field reference, got {:?}", other),
    }
}

#[test]
fn test_range_binds_tighter_than_in() {
    let model = parse("x in 1..9");
    match *model {
        Expr::In { lhs, rhs, .. } => {
            assert!(matches!(*lhs, Expr::Identifier { .. }));
            assert!(matches!(*rhs, Expr::Range { .. }));
        }
        other => panic!("expected an in-expression, got {:?}", other),
    }
}

#[test]
fn test_array_literal_elements() {
    let model = parse("[1, 2, 3]");
    match *model {
        Expr::ArrayLiteral { elements, .. } => {
            assert_eq!(3, elements.len());
            assert!(matches!(elements[0], Expr::Int64Literal { value: 1, .. }));
            assert!(matches!(elements[1], Expr::Int64Literal { value: 2, .. }));
            assert!(matches!(elements[2], Expr::Int64Literal { value: 3, .. }));
        }
        other => panic!("expected an array literal, got {:?}", other),
    }
}

#[test]
fn test_function_call() {
    let model = parse("f(x: 0)");
    match *model {
        Expr::FunctionCall { function_reference, argument, .. } => {
            assert!(matches!(*function_reference, Expr::Identifier { .. }));
            match *argument {
                Expr::FunctionArguments { items, .. } => {
                    assert_eq!(1, items.len());
                    assert!(matches!(items[0], Expr::Qualify { .. }));
                }
                other => panic!("expected function arguments, got {:?}", other),
            }
        }
        other => panic!("expected a function call, got {:?}", other),
    }
}

#[test]
fn test_leading_documentation_tree() {
    let model = parse("// doc\nx");
    match *model {
        Expr::Document { lhs, rhs, .. } => {
            assert!(matches!(*lhs, Expr::LeadingDocumentation { .. }));
            assert!(matches!(*rhs, Expr::Identifier { .. }));
        }
        other => panic!("expected a document expression, got {:?}", other),
    }
}

#[test]
fn test_binary_position_spans_operands() {
    // A binary expression starts where its left operand starts and ends
    // where its right operand ends.
    let model = parse("ab + cde");
    match *model {
        Expr::Addition { lhs, rhs, source_position } => {
            assert_eq!(lhs.get_source_position().start_offset, source_position.start_offset);
            assert_eq!(rhs.get_source_position().end_offset, source_position.end_offset);
            assert_eq!(0, source_position.start_offset);
            assert_eq!(8, source_position.end_offset);
        }
        other => panic!("expected an addition, got {:?}", other),
    }
}

#[test]
fn test_int64_literal_value() {
    let model = parse("9223372036854775807");
    assert!(matches!(*model, Expr::Int64Literal { value: 9223372036854775807, .. }));
}

#[test]
fn test_unexpected_token_error() {
    assert_eq!(
        ParseError::UnexpectedToken { token_type: lligne::token_types::RIGHT_PARENTHESIS },
        parse_err(")"),
    );
}

#[test]
fn test_missing_right_parenthesis_error() {
    assert_eq!(ParseError::MissingRightParenthesis, parse_err("(1"));
}

#[test]
fn test_missing_right_brace_error() {
    assert_eq!(ParseError::MissingRightBrace, parse_err("{1"));
}

#[test]
fn test_missing_right_bracket_error() {
    assert_eq!(ParseError::MissingRightBracket, parse_err("[1"));
}

#[test]
fn test_unknown_postfix_operator_error() {
    // `[` is registered as a postfix operator but has no construction rule.
    assert_eq!(
        ParseError::UnknownPostfixOperator { token_type: lligne::token_types::LEFT_BRACKET },
        parse_err("a[1]"),
    );
}

#[test]
fn test_invalid_integer_literal_error() {
    // One past the largest 64-bit signed integer.
    assert_eq!(ParseError::InvalidIntegerLiteral, parse_err("9223372036854775808"));
    // Unicode-numeric characters scan as an integer literal but do not
    // parse as one.
    assert_eq!(ParseError::InvalidIntegerLiteral, parse_err("\u{661}\u{662}"));
}

#[test]
fn test_invalid_floating_point_literal_error() {
    // A floating point literal with a Unicode-numeric character in it.
    assert_eq!(
        ParseError::InvalidFloatingPointLiteral,
        parse_err("12.3\u{664}"),
    );
}

#[test]
fn test_newline_offsets_survive_the_pipeline() {
    let source = "x\n+ y\n";
    let scanned = scanner::scan(source);
    let expected: Vec<u32> =
        (0..scanned.new_line_offsets.len()).map(|i| scanned.new_line_offsets.get(i).unwrap()).collect();
    let mut scan_result = scanner::scan(source);
    scan_result = leading_trailing_documentation::filter(scan_result);
    let outcome = parser::parse_expression(&scan_result).unwrap();
    assert_eq!(expected.len(), outcome.new_line_offsets.len());
    for (i, off) in expected.iter().enumerate() {
        assert_eq!(*off, outcome.new_line_offsets.get(i).unwrap());
    }
}

#[test]
fn test_parse_source_pipeline() {
    // The one-step pipeline entry gives the same tree as running the three
    // stages by hand.
    let outcome = parser::parse_source("(1+2)").unwrap();
    let pos = outcome.model.get_source_position();
    assert_eq!(0, pos.start_offset);
    assert_eq!(5, pos.end_offset);
    assert!(matches!(*outcome.model, Expr::Parenthesized { .. }));
    assert_eq!(
        ParseError::MissingRightParenthesis,
        match parser::parse_source("(1") {
            Err(error) => error,
            Ok(_) => panic!("expected a parse failure"),
        },
    );
}

#[test]
fn test_text_of_token_type() {
    assert_eq!("and", lligne::token_types::text_of_token_type(lligne::token_types::AND));
    assert_eq!("&&", lligne::token_types::text_of_token_type(lligne::token_types::AMPERSAND_AMPERSAND));
    assert_eq!("[identifier]", lligne::token_types::text_of_token_type(lligne::token_types::IDENTIFIER));
}
