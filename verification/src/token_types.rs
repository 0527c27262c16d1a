//! Token type constants.
//!
//! A `u16` is used instead of an enum so that a token stays within a single
//! 64-bit record; the enumeration is rarely matched exhaustively.

use vstd::prelude::*;

verus! {

// End of file
pub const EOF: u16 = 0;

// Punctuation
pub const AMPERSAND: u16 = 1;
pub const AMPERSAND_AMPERSAND: u16 = 2;
pub const ASTERISK: u16 = 3;
pub const COLON: u16 = 4;
pub const COMMA: u16 = 5;
pub const DASH: u16 = 6;
pub const DOT: u16 = 7;
pub const DOT_DOT: u16 = 8;
pub const DOT_DOT_DOT: u16 = 9;
pub const EQUALS: u16 = 10;
pub const EQUALS_EQUALS: u16 = 11;
pub const EQUALS_EQUALS_EQUALS: u16 = 12;
pub const EQUALS_TILDE: u16 = 13;
pub const EXCLAMATION: u16 = 14;
pub const EXCLAMATION_EQUALS: u16 = 15;
pub const EXCLAMATION_TILDE: u16 = 16;
pub const GREATER_THAN: u16 = 17;
pub const GREATER_THAN_OR_EQUALS: u16 = 18;
pub const LEFT_BRACE: u16 = 19;
pub const LEFT_BRACKET: u16 = 20;
pub const LEFT_PARENTHESIS: u16 = 21;
pub const LESS_THAN: u16 = 22;
pub const LESS_THAN_OR_EQUALS: u16 = 23;
pub const PLUS: u16 = 24;
pub const QUESTION: u16 = 25;
pub const QUESTION_COLON: u16 = 26;
pub const RIGHT_ARROW: u16 = 27;
pub const RIGHT_BRACE: u16 = 28;
pub const RIGHT_BRACKET: u16 = 29;
pub const RIGHT_PARENTHESIS: u16 = 30;
pub const SEMICOLON: u16 = 31;
pub const SLASH: u16 = 32;
pub const VERTICAL_BAR: u16 = 33;

// Keywords
pub const AND: u16 = 34;
pub const AS: u16 = 35;
pub const FALSE: u16 = 36;
pub const IN: u16 = 37;
pub const IS: u16 = 38;
pub const NOT: u16 = 39;
pub const OR: u16 = 40;
pub const TRUE: u16 = 41;
pub const WHEN: u16 = 42;
pub const WHERE: u16 = 43;

// Literals
pub const BACK_TICKED_STRING: u16 = 44;
pub const BUILT_IN_TYPE: u16 = 45;
pub const DOCUMENTATION: u16 = 46;
pub const DOUBLE_QUOTED_STRING: u16 = 47;
pub const FLOATING_POINT_LITERAL: u16 = 48;
pub const INTEGER_LITERAL: u16 = 49;
pub const SINGLE_QUOTED_STRING: u16 = 50;

// Identifiers
pub const IDENTIFIER: u16 = 51;

// Errors
pub const UNCLOSED_DOUBLE_QUOTED_STRING: u16 = 52;
pub const UNCLOSED_SINGLE_QUOTED_STRING: u16 = 53;
pub const UNRECOGNIZED_CHAR: u16 = 54;

// Synthetic token types from postprocessing
pub const LEADING_DOCUMENTATION: u16 = 55;
pub const SYNTH_DOCUMENT: u16 = 56;
pub const TRAILING_DOCUMENTATION: u16 = 57;

pub const COUNT: u16 = 58;

/// The display text of each token type: the exact spelling for fixed-text
/// tokens (punctuation and keywords), a bracketed description otherwise.
pub open spec fn token_text(token_type: u16) -> Seq<char> {
    if token_type == EOF {
        "[end of file]"@
    } else if token_type == AMPERSAND {
        "&"@
    } else if token_type == AMPERSAND_AMPERSAND {
        "&&"@
    } else if token_type == ASTERISK {
        "*"@
    } else if token_type == COLON {
        ":"@
    } else if token_type == COMMA {
        ","@
    } else if token_type == DASH {
        "-"@
    } else if token_type == DOT {
        "."@
    } else if token_type == DOT_DOT {
        ".."@
    } else if token_type == DOT_DOT_DOT {
        "..."@
    } else if token_type == EQUALS {
        "="@
    } else if token_type == EQUALS_EQUALS {
        "=="@
    } else if token_type == EQUALS_EQUALS_EQUALS {
        "==="@
    } else if token_type == EQUALS_TILDE {
        "=~"@
    } else if token_type == EXCLAMATION {
        "!"@
    } else if token_type == EXCLAMATION_EQUALS {
        "!="@
    } else if token_type == EXCLAMATION_TILDE {
        "!~"@
    } else if token_type == GREATER_THAN {
        ">"@
    } else if token_type == GREATER_THAN_OR_EQUALS {
        ">="@
    } else if token_type == LEFT_BRACE {
        "{"@
    } else if token_type == LEFT_BRACKET {
        "["@
    } else if token_type == LEFT_PARENTHESIS {
        "("@
    } else if token_type == LESS_THAN {
        "<"@
    } else if token_type == LESS_THAN_OR_EQUALS {
        "<="@
    } else if token_type == PLUS {
        "+"@
    } else if token_type == QUESTION {
        "?"@
    } else if token_type == QUESTION_COLON {
        "?:"@
    } else if token_type == RIGHT_ARROW {
        "->"@
    } else if token_type == RIGHT_BRACE {
        "}"@
    } else if token_type == RIGHT_BRACKET {
        "]"@
    } else if token_type == RIGHT_PARENTHESIS {
        ")"@
    } else if token_type == SEMICOLON {
        ";"@
    } else if token_type == SLASH {
        "/"@
    } else if token_type == VERTICAL_BAR {
        "|"@
    } else if token_type == AND {
        "and"@
    } else if token_type == AS {
        "as"@
    } else if token_type == FALSE {
        "false"@
    } else if token_type == IN {
        "in"@
    } else if token_type == IS {
        "is"@
    } else if token_type == NOT {
        "not"@
    } else if token_type == OR {
        "or"@
    } else if token_type == TRUE {
        "true"@
    } else if token_type == WHEN {
        "when"@
    } else if token_type == WHERE {
        "where"@
    } else if token_type == BACK_TICKED_STRING {
        "[back-ticked string]"@
    } else if token_type == BUILT_IN_TYPE {
        "[built in type]"@
    } else if token_type == DOCUMENTATION {
        "[documentation]"@
    } else if token_type == DOUBLE_QUOTED_STRING {
        "[string literal]"@
    } else if token_type == FLOATING_POINT_LITERAL {
        "[floating point literal]"@
    } else if token_type == INTEGER_LITERAL {
        "[integer literal]"@
    } else if token_type == SINGLE_QUOTED_STRING {
        "[character literal]"@
    } else if token_type == IDENTIFIER {
        "[identifier]"@
    } else if token_type == UNCLOSED_DOUBLE_QUOTED_STRING {
        "[error - string extends past end of line]"@
    } else if token_type == UNCLOSED_SINGLE_QUOTED_STRING {
        "[error - literal extends past end of line]"@
    } else if token_type == UNRECOGNIZED_CHAR {
        "[error - unrecognized character]"@
    } else if token_type == LEADING_DOCUMENTATION {
        "[leading documentation]"@
    } else if token_type == SYNTH_DOCUMENT {
        "[synthetic documentation operator]"@
    } else {
        "[trailing documentation]"@
    }
}

/// The display text of the given token type.
pub fn text_of_token_type(token_type: u16) -> (r: &'static str)
    requires
        token_type < COUNT,
    ensures
        r@ == token_text(token_type),
{
    if token_type == EOF {
        "[end of file]"
    } else if token_type == AMPERSAND {
        "&"
    } else if token_type == AMPERSAND_AMPERSAND {
        "&&"
    } else if token_type == ASTERISK {
        "*"
    } else if token_type == COLON {
        ":"
    } else if token_type == COMMA {
        ","
    } else if token_type == DASH {
        "-"
    } else if token_type == DOT {
        "."
    } else if token_type == DOT_DOT {
        ".."
    } else if token_type == DOT_DOT_DOT {
        "..."
    } else if token_type == EQUALS {
        "="
    } else if token_type == EQUALS_EQUALS {
        "=="
    } else if token_type == EQUALS_EQUALS_EQUALS {
        "==="
    } else if token_type == EQUALS_TILDE {
        "=~"
    } else if token_type == EXCLAMATION {
        "!"
    } else if token_type == EXCLAMATION_EQUALS {
        "!="
    } else if token_type == EXCLAMATION_TILDE {
        "!~"
    } else if token_type == GREATER_THAN {
        ">"
    } else if token_type == GREATER_THAN_OR_EQUALS {
        ">="
    } else if token_type == LEFT_BRACE {
        "{"
    } else if token_type == LEFT_BRACKET {
        "["
    } else if token_type == LEFT_PARENTHESIS {
        "("
    } else if token_type == LESS_THAN {
        "<"
    } else if token_type == LESS_THAN_OR_EQUALS {
        "<="
    } else if token_type == PLUS {
        "+"
    } else if token_type == QUESTION {
        "?"
    } else if token_type == QUESTION_COLON {
        "?:"
    } else if token_type == RIGHT_ARROW {
        "->"
    } else if token_type == RIGHT_BRACE {
        "}"
    } else if token_type == RIGHT_BRACKET {
        "]"
    } else if token_type == RIGHT_PARENTHESIS {
        ")"
    } else if token_type == SEMICOLON {
        ";"
    } else if token_type == SLASH {
        "/"
    } else if token_type == VERTICAL_BAR {
        "|"
    } else if token_type == AND {
        "and"
    } else if token_type == AS {
        "as"
    } else if token_type == FALSE {
        "false"
    } else if token_type == IN {
        "in"
    } else if token_type == IS {
        "is"
    } else if token_type == NOT {
        "not"
    } else if token_type == OR {
        "or"
    } else if token_type == TRUE {
        "true"
    } else if token_type == WHEN {
        "when"
    } else if token_type == WHERE {
        "where"
    } else if token_type == BACK_TICKED_STRING {
        "[back-ticked string]"
    } else if token_type == BUILT_IN_TYPE {
        "[built in type]"
    } else if token_type == DOCUMENTATION {
        "[documentation]"
    } else if token_type == DOUBLE_QUOTED_STRING {
        "[string literal]"
    } else if token_type == FLOATING_POINT_LITERAL {
        "[floating point literal]"
    } else if token_type == INTEGER_LITERAL {
        "[integer literal]"
    } else if token_type == SINGLE_QUOTED_STRING {
        "[character literal]"
    } else if token_type == IDENTIFIER {
        "[identifier]"
    } else if token_type == UNCLOSED_DOUBLE_QUOTED_STRING {
        "[error - string extends past end of line]"
    } else if token_type == UNCLOSED_SINGLE_QUOTED_STRING {
        "[error - literal extends past end of line]"
    } else if token_type == UNRECOGNIZED_CHAR {
        "[error - unrecognized character]"
    } else if token_type == LEADING_DOCUMENTATION {
        "[leading documentation]"
    } else if token_type == SYNTH_DOCUMENT {
        "[synthetic documentation operator]"
    } else {
        "[trailing documentation]"
    }
}

} // verus!
