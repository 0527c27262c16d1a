use lligne::scanner::{scan, Outcome};
use lligne::token_types;
use lligne::token_types::text_of_token_type;

fn expect_token(
    outcome: &Outcome,
    index: usize,
    expected_token_type: u16,
    expected_source_offset: u32,
    expected_length: u16,
) {
    let token = outcome.tokens.get(index).unwrap();
    assert_eq!(expected_token_type, token.token_type, "Wrong token type");
    assert_eq!(expected_source_offset, token.source_offset, "Wrong source offset");
    assert_eq!(expected_length, token.source_length, "Wrong source length")
}

#[test]
fn test_minimal_scan() {
    let outcome = scan("(1+2)");
    assert_eq!(0, outcome.new_line_offsets.len());
    assert_eq!(8, outcome.tokens.len());
    expect_token(&outcome, 0, token_types::LEFT_PARENTHESIS, 0, 1);
    expect_token(&outcome, 1, token_types::INTEGER_LITERAL, 1, 1);
    expect_token(&outcome, 2, token_types::PLUS, 2, 1);
    expect_token(&outcome, 3, token_types::INTEGER_LITERAL, 3, 1);
    expect_token(&outcome, 4, token_types::RIGHT_PARENTHESIS, 4, 1);
    expect_token(&outcome, 5, token_types::EOF, 5, 0);
    expect_token(&outcome, 6, token_types::EOF, 5, 0);
    expect_token(&outcome, 7, token_types::EOF, 5, 0);
}

#[test]
fn test_identifiers_and_keywords() {
    let outcome = scan("(one is two) where {one: 1, two:2}");
    assert_eq!(0, outcome.new_line_offsets.len());
    assert_eq!(18, outcome.tokens.len());
    expect_token(&outcome, 0, token_types::LEFT_PARENTHESIS, 0, 1);
    expect_token(&outcome, 1, token_types::IDENTIFIER, 1, 3);
    expect_token(&outcome, 2, token_types::IS, 5, 2);
    expect_token(&outcome, 3, token_types::IDENTIFIER, 8, 3);
    expect_token(&outcome, 4, token_types::RIGHT_PARENTHESIS, 11, 1);
    expect_token(&outcome, 5, token_types::WHERE, 13, 5);
    expect_token(&outcome, 6, token_types::LEFT_BRACE, 19, 1);
    expect_token(&outcome, 7, token_types::IDENTIFIER, 20, 3);
    expect_token(&outcome, 8, token_types::COLON, 23, 1);
    expect_token(&outcome, 9, token_types::INTEGER_LITERAL, 25, 1);
    expect_token(&outcome, 10, token_types::COMMA, 26, 1);
    expect_token(&outcome, 11, token_types::IDENTIFIER, 28, 3);
    expect_token(&outcome, 12, token_types::COLON, 31, 1);
    expect_token(&outcome, 13, token_types::INTEGER_LITERAL, 32, 1);
    expect_token(&outcome, 14, token_types::RIGHT_BRACE, 33, 1);
    expect_token(&outcome, 15, token_types::EOF, 34, 0);
    expect_token(&outcome, 16, token_types::EOF, 34, 0);
    expect_token(&outcome, 17, token_types::EOF, 34, 0);
}

#[test]
fn test_empty_string() {
    let outcome = scan("");
    assert_eq!(0, outcome.new_line_offsets.len());
    assert_eq!(3, outcome.tokens.len());
    expect_token(&outcome, 0, token_types::EOF, 0, 0);
    expect_token(&outcome, 1, token_types::EOF, 0, 0);
    expect_token(&outcome, 2, token_types::EOF, 0, 0);
}

#[test]
fn test_unrecognized_char() {
    let outcome = scan("‽");
    assert_eq!(0, outcome.new_line_offsets.len());
    assert_eq!(4, outcome.tokens.len());
    expect_token(&outcome, 0, token_types::UNRECOGNIZED_CHAR, 0, 3);
    expect_token(&outcome, 1, token_types::EOF, 3, 0);
    expect_token(&outcome, 2, token_types::EOF, 3, 0);
    expect_token(&outcome, 3, token_types::EOF, 3, 0);
}

#[test]
fn test_punctuation_tokens() {
    let outcome = scan("& &&\n *: , ");
    assert_eq!(1, outcome.new_line_offsets.len());
    assert_eq!(8, outcome.tokens.len());
    expect_token(&outcome, 0, token_types::AMPERSAND, 0, 1);
    expect_token(&outcome, 1, token_types::AMPERSAND_AMPERSAND, 2, 2);
    expect_token(&outcome, 2, token_types::ASTERISK, 6, 1);
    expect_token(&outcome, 3, token_types::COLON, 7, 1);
    expect_token(&outcome, 4, token_types::COMMA, 9, 1);
    expect_token(&outcome, 5, token_types::EOF, 11, 0);
    expect_token(&outcome, 6, token_types::EOF, 11, 0);
    expect_token(&outcome, 7, token_types::EOF, 11, 0);
}

#[test]
fn test_identifier_tokens() {
    let outcome = scan("a bb c23_f q-code _dfg");
    assert_eq!(0, outcome.new_line_offsets.len());
    assert_eq!(8, outcome.tokens.len());
    expect_token(&outcome, 0, token_types::IDENTIFIER, 0, 1);
    expect_token(&outcome, 1, token_types::IDENTIFIER, 2, 2);
    expect_token(&outcome, 2, token_types::IDENTIFIER, 5, 5);
    expect_token(&outcome, 3, token_types::IDENTIFIER, 11, 6);
    expect_token(&outcome, 4, token_types::IDENTIFIER, 18, 4);
    expect_token(&outcome, 5, token_types::EOF, 22, 0);
    expect_token(&outcome, 6, token_types::EOF, 22, 0);
    expect_token(&outcome, 7, token_types::EOF, 22, 0);
}

#[test]
fn test_integers() {
    let outcome = scan("123 4\n(99000) 5");
    assert_eq!(1, outcome.new_line_offsets.len());
    assert_eq!(9, outcome.tokens.len());
    expect_token(&outcome, 0, token_types::INTEGER_LITERAL, 0, 3);
    expect_token(&outcome, 1, token_types::INTEGER_LITERAL, 4, 1);
    expect_token(&outcome, 2, token_types::LEFT_PARENTHESIS, 6, 1);
    expect_token(&outcome, 3, token_types::INTEGER_LITERAL, 7, 5);
    expect_token(&outcome, 4, token_types::RIGHT_PARENTHESIS, 12, 1);
    expect_token(&outcome, 5, token_types::INTEGER_LITERAL, 14, 1);
    expect_token(&outcome, 6, token_types::EOF, 15, 0);
    expect_token(&outcome, 7, token_types::EOF, 15, 0);
    expect_token(&outcome, 8, token_types::EOF, 15, 0);
}

#[test]
fn test_numbers() {
    let outcome = scan("12.3 4\n(990.00) 5.1");
    assert_eq!(1, outcome.new_line_offsets.len());
    assert_eq!(9, outcome.tokens.len());
    expect_token(&outcome, 0, token_types::FLOATING_POINT_LITERAL, 0, 4);
    expect_token(&outcome, 1, token_types::INTEGER_LITERAL, 5, 1);
    expect_token(&outcome, 2, token_types::LEFT_PARENTHESIS, 7, 1);
    expect_token(&outcome, 3, token_types::FLOATING_POINT_LITERAL, 8, 6);
    expect_token(&outcome, 4, token_types::RIGHT_PARENTHESIS, 14, 1);
    expect_token(&outcome, 5, token_types::FLOATING_POINT_LITERAL, 16, 3);
    expect_token(&outcome, 6, token_types::EOF, 19, 0);
    expect_token(&outcome, 7, token_types::EOF, 19, 0);
    expect_token(&outcome, 8, token_types::EOF, 19, 0);
}

#[test]
fn test_double_quoted_strings() {
    let outcome = scan(
        r#""abc" "xyz" "bad
 "start over""#,
    );
    assert_eq!(1, outcome.new_line_offsets.len());
    assert_eq!(7, outcome.tokens.len());
    expect_token(&outcome, 0, token_types::DOUBLE_QUOTED_STRING, 0, 5);
    expect_token(&outcome, 1, token_types::DOUBLE_QUOTED_STRING, 6, 5);
    expect_token(&outcome, 2, token_types::UNCLOSED_DOUBLE_QUOTED_STRING, 12, 4);
    expect_token(&outcome, 3, token_types::DOUBLE_QUOTED_STRING, 18, 12);
    expect_token(&outcome, 4, token_types::EOF, 30, 0);
    expect_token(&outcome, 5, token_types::EOF, 30, 0);
    expect_token(&outcome, 6, token_types::EOF, 30, 0);
}

#[test]
fn test_single_quoted_strings() {
    let outcome = scan(
        r#"'abc' 'xyz' 'bad
 'start over'"#,
    );
    assert_eq!(1, outcome.new_line_offsets.len());
    assert_eq!(7, outcome.tokens.len());
    expect_token(&outcome, 0, token_types::SINGLE_QUOTED_STRING, 0, 5);
    expect_token(&outcome, 1, token_types::SINGLE_QUOTED_STRING, 6, 5);
    expect_token(&outcome, 2, token_types::UNCLOSED_SINGLE_QUOTED_STRING, 12, 4);
    expect_token(&outcome, 3, token_types::SINGLE_QUOTED_STRING, 18, 12);
    expect_token(&outcome, 4, token_types::EOF, 30, 0);
    expect_token(&outcome, 5, token_types::EOF, 30, 0);
    expect_token(&outcome, 6, token_types::EOF, 30, 0);
}

#[test]
fn test_each_fixed_text_token() {
    for token_type in 1..token_types::WHERE {
        let source_code = text_of_token_type(token_type);
        let sc_len = source_code.len();

        let outcome = scan(&source_code);
        assert_eq!(0, outcome.new_line_offsets.len());
        assert_eq!(4, outcome.tokens.len());
        expect_token(&outcome, 0, token_type, 0, sc_len as u16);
        expect_token(&outcome, 1, token_types::EOF, sc_len as u32, 0);
        expect_token(&outcome, 2, token_types::EOF, sc_len as u32, 0);
        expect_token(&outcome, 3, token_types::EOF, sc_len as u32, 0);
    }
}

#[test]
fn test_back_ticked_strings() {
    let outcome = scan("`abc 123\n`  - one\n  `  - two\n\n  `another\n\n  `one more\n `and the end");
    assert_eq!(7, outcome.new_line_offsets.len());
    assert_eq!(6, outcome.tokens.len());
    expect_token(&outcome, 0, token_types::BACK_TICKED_STRING, 0, 29);
    expect_token(&outcome, 1, token_types::BACK_TICKED_STRING, 32, 9);
    expect_token(&outcome, 2, token_types::BACK_TICKED_STRING, 44, 23);
    expect_token(&outcome, 3, token_types::EOF, 67, 0);
    expect_token(&outcome, 4, token_types::EOF, 67, 0);
    expect_token(&outcome, 5, token_types::EOF, 67, 0);
}

#[test]
fn test_documentation() {
    let outcome = scan("// abc 123\n//  - one\n//two\n\n//\n//");
    assert_eq!(5, outcome.new_line_offsets.len());
    assert_eq!(5, outcome.tokens.len());
    expect_token(&outcome, 0, token_types::DOCUMENTATION, 0, 27);
    expect_token(&outcome, 1, token_types::DOCUMENTATION, 28, 5);
    expect_token(&outcome, 2, token_types::EOF, 33, 0);
    expect_token(&outcome, 3, token_types::EOF, 33, 0);
    expect_token(&outcome, 4, token_types::EOF, 33, 0);
}

#[test]
fn test_boolean_literals() {
    let outcome = scan("true false");
    assert_eq!(0, outcome.new_line_offsets.len());
    assert_eq!(5, outcome.tokens.len());
    expect_token(&outcome, 0, token_types::TRUE, 0, 4);
    expect_token(&outcome, 1, token_types::FALSE, 5, 5);
    expect_token(&outcome, 2, token_types::EOF, 10, 0);
    expect_token(&outcome, 3, token_types::EOF, 10, 0);
    expect_token(&outcome, 4, token_types::EOF, 10, 0);
}

#[test]
fn scanner_test_built_in_types() {
    let outcome = scan("Bool Float64 Int64 String");
    assert_eq!(0, outcome.new_line_offsets.len());
    assert_eq!(7, outcome.tokens.len());
    expect_token(&outcome, 0, token_types::BUILT_IN_TYPE, 0, 4);
    expect_token(&outcome, 1, token_types::BUILT_IN_TYPE, 5, 7);
    expect_token(&outcome, 2, token_types::BUILT_IN_TYPE, 13, 5);
    expect_token(&outcome, 3, token_types::BUILT_IN_TYPE, 19, 6);
    expect_token(&outcome, 4, token_types::EOF, 25, 0);
    expect_token(&outcome, 5, token_types::EOF, 25, 0);
    expect_token(&outcome, 6, token_types::EOF, 25, 0);
}

#[test]
fn test_unicode_identifier() {
    // A non-ASCII letter opens an identifier; the token's length counts bytes.
    let outcome = scan("héllo");
    assert_eq!(4, outcome.tokens.len());
    expect_token(&outcome, 0, token_types::IDENTIFIER, 0, 6);
    expect_token(&outcome, 1, token_types::EOF, 6, 0);
}

#[test]
fn test_unicode_whitespace() {
    // A no-break space has the White_Space property and separates tokens.
    let outcome = scan("a\u{a0}b");
    assert_eq!(5, outcome.tokens.len());
    expect_token(&outcome, 0, token_types::IDENTIFIER, 0, 1);
    expect_token(&outcome, 1, token_types::IDENTIFIER, 3, 1);
}

#[test]
fn test_unicode_digits_scan_as_numbers() {
    // Arabic-Indic digits are Unicode-numeric, so they scan as one integer literal.
    let outcome = scan("\u{661}\u{662}");
    assert_eq!(4, outcome.tokens.len());
    expect_token(&outcome, 0, token_types::INTEGER_LITERAL, 0, 4);
}

#[test]
fn test_newline_offsets_match_newline_positions() {
    let source = "a\nbb\n\nc";
    let outcome = scan(source);
    let expected: Vec<u32> = source
        .bytes()
        .enumerate()
        .filter(|(_, b)| *b == b'\n')
        .map(|(i, _)| i as u32)
        .collect();
    assert_eq!(expected.len(), outcome.new_line_offsets.len());
    for (i, off) in expected.iter().enumerate() {
        assert_eq!(*off, outcome.new_line_offsets.get(i).unwrap());
    }
}

#[test]
fn test_tokens_stay_within_source() {
    let source = "when x in 1..9 { \"abc\n } `tail";
    let outcome = scan(source);
    let n = outcome.tokens.len();
    for i in 0..n {
        let t = outcome.tokens.get(i).unwrap();
        assert!(t.source_offset as usize + t.source_length as usize <= source.len());
    }
    // exactly three end-of-file tokens close the stream
    assert_eq!(outcome.tokens.get(n - 1).unwrap().token_type, token_types::EOF);
    assert_eq!(outcome.tokens.get(n - 2).unwrap().token_type, token_types::EOF);
    assert_eq!(outcome.tokens.get(n - 3).unwrap().token_type, token_types::EOF);
    for i in 0..n - 3 {
        assert_ne!(outcome.tokens.get(i).unwrap().token_type, token_types::EOF);
    }
}
