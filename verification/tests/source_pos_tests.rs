use std::mem::size_of;
use lligne::source_pos::SourcePos;
use lligne::tokens::Token;

#[test]
fn test_source_pos_size() {
    assert_eq!(8, size_of::<SourcePos>());
}

#[test]
fn test_thru() {
    let s1 = SourcePos { start_offset: 3, end_offset: 8 };
    let s2 = SourcePos { start_offset: 5, end_offset: 10 };

    assert_ne!(s1, s2);
    assert!(s1 < s2);

    let s_thru = SourcePos { start_offset: 3, end_offset: 10 };

    assert_eq!(s_thru, s1.thru(s2));
}

#[test]
fn test_token_size() {
    assert_eq!(8, size_of::<Token>());
}

#[test]
fn test_new_source_pos() {
    let token = Token { source_offset: 7, source_length: 4, token_type: lligne::token_types::IDENTIFIER };
    let pos = lligne::source_pos::new_source_pos(token);
    assert_eq!(7, pos.start_offset);
    assert_eq!(11, pos.end_offset);
}

#[test]
fn test_get_text() {
    let source = "(1+2)";
    let pos = SourcePos { start_offset: 1, end_offset: 4 };
    assert_eq!("1+2", pos.get_text(source));
    let whole = SourcePos { start_offset: 0, end_offset: 5 };
    assert_eq!("(1+2)", whole.get_text(source));
}
