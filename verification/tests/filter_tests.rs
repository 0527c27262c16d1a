use lligne::leading_trailing_documentation;
use lligne::scanner;
use lligne::token_types;
use lligne::tokens::Token;

fn expect_token(token: Token, expected_token_type: u16, expected_source_offset: u32, expected_length: u16) {
    assert_eq!(expected_token_type, token.token_type);
    assert_eq!(expected_source_offset, token.source_offset);
    assert_eq!(expected_length, token.source_length);
}

#[test]
fn documentation_to_be_translated() {
    let source_code = r#"
// Leading documentation
  // with two lines
stuff {
    inner, // Trailing documentation 1
    more;  // Trailing documentation 2
    another  // Trailing 3
         // documentation

    // Leading documentation after trailing
    onemorevar

	gadget

	// Leading after non-doc
	junk
}
"#;

    let mut scan_result = scanner::scan(source_code);
    scan_result = leading_trailing_documentation::filter(scan_result);
    let tokens = scan_result.tokens;

    expect_token(tokens.get(0).unwrap(), token_types::LEADING_DOCUMENTATION, 1, 45);
    expect_token(tokens.get(1).unwrap(), token_types::SYNTH_DOCUMENT, 1, 0);
    expect_token(tokens.get(2).unwrap(), token_types::IDENTIFIER, 46, 5);
    expect_token(tokens.get(3).unwrap(), token_types::LEFT_BRACE, 52, 1);
    expect_token(tokens.get(4).unwrap(), token_types::IDENTIFIER, 58, 5);
    expect_token(tokens.get(5).unwrap(), token_types::SYNTH_DOCUMENT, 65, 0);
    expect_token(tokens.get(6).unwrap(), token_types::TRAILING_DOCUMENTATION, 65, 32);
    expect_token(tokens.get(7).unwrap(), token_types::COMMA, 63, 1);
    expect_token(tokens.get(8).unwrap(), token_types::IDENTIFIER, 97, 4);
    expect_token(tokens.get(9).unwrap(), token_types::SYNTH_DOCUMENT, 104, 0);
    expect_token(tokens.get(10).unwrap(), token_types::TRAILING_DOCUMENTATION, 104, 32);
    expect_token(tokens.get(11).unwrap(), token_types::SEMICOLON, 101, 1);
    expect_token(tokens.get(12).unwrap(), token_types::IDENTIFIER, 136, 7);
    expect_token(tokens.get(13).unwrap(), token_types::SYNTH_DOCUMENT, 145, 0);
    expect_token(tokens.get(14).unwrap(), token_types::TRAILING_DOCUMENTATION, 145, 40);
    expect_token(tokens.get(15).unwrap(), token_types::LEADING_DOCUMENTATION, 190, 44);
    expect_token(tokens.get(16).unwrap(), token_types::SYNTH_DOCUMENT, 190, 0);
    expect_token(tokens.get(17).unwrap(), token_types::IDENTIFIER, 234, 10);
    expect_token(tokens.get(18).unwrap(), token_types::IDENTIFIER, 247, 6);
    expect_token(tokens.get(19).unwrap(), token_types::LEADING_DOCUMENTATION, 256, 26);
    expect_token(tokens.get(20).unwrap(), token_types::SYNTH_DOCUMENT, 256, 0);
    expect_token(tokens.get(21).unwrap(), token_types::IDENTIFIER, 282, 4);
    expect_token(tokens.get(22).unwrap(), token_types::RIGHT_BRACE, 287, 1);
    expect_token(tokens.get(23).unwrap(), token_types::EOF, source_code.len() as u32, 0);
}

#[test]
fn filter_without_documentation_keeps_tokens() {
    // With no documentation tokens the filter hands the stream back
    // unchanged, the closing run of three end-of-file sentinels included.
    let source = "x + 1";
    let scanned = scanner::scan(source);
    let n = scanned.tokens.len();
    let expected: Vec<Token> = (0..n).map(|i| scanned.tokens.get(i).unwrap()).collect();
    let filtered = leading_trailing_documentation::filter(scanner::scan(source));
    assert_eq!(expected.len(), filtered.tokens.len());
    for (i, t) in expected.iter().enumerate() {
        assert_eq!(*t, filtered.tokens.get(i).unwrap());
    }
    assert_eq!(
        token_types::EOF,
        filtered.tokens.get(filtered.tokens.len() - 1).unwrap().token_type
    );
}

#[test]
fn test_tokens_on_same_line() {
    let source = "a b\nc";
    assert!(leading_trailing_documentation::tokens_on_same_line(source, 0, 2));
    assert!(!leading_trailing_documentation::tokens_on_same_line(source, 2, 4));
}
