//! Scanner for Lligne tokens.
//!
//! `spec_scan` states, character by character, which token stream and which
//! newline offsets a source text scans to; `scan` is the executable scanner,
//! proved to produce exactly that.

use vstd::prelude::*;
use crate::shared_vec::{shared_offsets, shared_tokens, SharedOffsets, SharedTokens};
use crate::text::{
    byte_len, byte_off, char_is_whitespace, char_size, chars_vec, is_digit, is_digit_char,
    is_identifier_part, is_identifier_part_char, is_identifier_start, is_identifier_start_char,
    lemma_byte_off_at_ends, lemma_byte_off_mono, lemma_byte_off_step, lemma_char_size_bounds,
    spec_is_whitespace, utf8_len,
};
use crate::token_types;
use crate::token_types::token_text;
use crate::tokens::Token;

verus! {

broadcast use vstd::string::group_string_axioms;

/// The result of scanning a source text.
pub struct Outcome<'a> {
    pub source_code: &'a str,
    pub tokens: SharedTokens,
    pub new_line_offsets: SharedOffsets,
}

/// What the rest of a scan yields: the tokens and newline offsets from a
/// given character position onward.
pub struct ScanRest {
    pub tokens: Seq<Token>,
    pub new_lines: Seq<u32>,
}

/// The character at index `i`, with the scanner's end-of-input sentinel for
/// indices outside the sequence.
pub open spec fn char_at(s: Seq<char>, i: int) -> char {
    if 0 <= i < s.len() {
        s[i]
    } else {
        '\0'
    }
}

/// The first index at or after `i` holding a non-whitespace character.
pub open spec fn ws_end(s: Seq<char>, i: int) -> int
    decreases s.len() - i,
    when 0 <= i <= s.len()
{
    if i < s.len() && spec_is_whitespace(s[i]) {
        ws_end(s, i + 1)
    } else {
        i
    }
}

/// The index just past a maximal run of identifier-part characters starting
/// at `i`.
pub open spec fn ident_end(s: Seq<char>, i: int) -> int
    decreases s.len() - i,
    when 0 <= i <= s.len()
{
    if i < s.len() && is_identifier_part_char(s[i], char_at(s, i + 1)) {
        ident_end(s, i + 1)
    } else {
        i
    }
}

/// The index just past a maximal run of digits starting at `i`.
pub open spec fn digit_end(s: Seq<char>, i: int) -> int
    decreases s.len() - i,
    when 0 <= i <= s.len()
{
    if i < s.len() && is_digit_char(s[i]) {
        digit_end(s, i + 1)
    } else {
        i
    }
}

/// The index of the next line feed, NUL, or the end of input, at or after
/// `i`.
pub open spec fn line_end(s: Seq<char>, i: int) -> int
    decreases s.len() - i,
    when 0 <= i <= s.len()
{
    if i < s.len() && s[i] != '\n' && s[i] != '\0' {
        line_end(s, i + 1)
    } else {
        i
    }
}

/// The index just past a maximal run of non-newline whitespace starting at
/// `i`.
pub open spec fn inline_ws_end(s: Seq<char>, i: int) -> int
    decreases s.len() - i,
    when 0 <= i <= s.len()
{
    if i < s.len() && s[i] != '\n' && spec_is_whitespace(s[i]) {
        inline_ws_end(s, i + 1)
    } else {
        i
    }
}

/// The token type and end index of a double-quoted string whose opening
/// quote sits just before `i`. A backslash escapes the character after it; a
/// line feed, left unconsumed, or the end of input closes the token as
/// unclosed.
pub open spec fn dq_end(s: Seq<char>, i: int) -> (u16, int)
    decreases s.len() - i,
    when 0 <= i <= s.len()
{
    if i >= s.len() {
        (token_types::UNCLOSED_DOUBLE_QUOTED_STRING, i)
    } else if s[i] == '"' {
        (token_types::DOUBLE_QUOTED_STRING, i + 1)
    } else if s[i] == '\\' {
        dq_end(s, if i + 2 <= s.len() { i + 2 } else { s.len() as int })
    } else if s[i] == '\n' {
        (token_types::UNCLOSED_DOUBLE_QUOTED_STRING, i)
    } else {
        dq_end(s, i + 1)
    }
}

/// The token type and end index of a single-quoted string whose opening
/// quote sits just before `i`; the rules of `dq_end` apply.
pub open spec fn sq_end(s: Seq<char>, i: int) -> (u16, int)
    decreases s.len() - i,
    when 0 <= i <= s.len()
{
    if i >= s.len() {
        (token_types::UNCLOSED_SINGLE_QUOTED_STRING, i)
    } else if s[i] == '\'' {
        (token_types::SINGLE_QUOTED_STRING, i + 1)
    } else if s[i] == '\\' {
        sq_end(s, if i + 2 <= s.len() { i + 2 } else { s.len() as int })
    } else if s[i] == '\n' {
        (token_types::UNCLOSED_SINGLE_QUOTED_STRING, i)
    } else {
        sq_end(s, i + 1)
    }
}

/// The end index of a back-ticked string: the remainder of the current line,
/// plus every subsequent line whose first non-whitespace character is
/// another back-tick.
pub open spec fn backtick_end(s: Seq<char>, i: int) -> int
    decreases s.len() - i,
    when 0 <= i <= s.len()
    via backtick_end_decreases
{
    let j = line_end(s, i);
    if j >= s.len() || s[j] == '\0' {
        j
    } else {
        let k = inline_ws_end(s, j + 1);
        if k < s.len() && s[k] == '`' {
            backtick_end(s, k + 1)
        } else {
            k
        }
    }
}

/// The end index of a documentation comment: the remainder of the current
/// line, plus every subsequent line whose first non-whitespace characters
/// are another `//`.
pub open spec fn doc_end(s: Seq<char>, i: int) -> int
    decreases s.len() - i,
    when 0 <= i <= s.len()
    via doc_end_decreases
{
    let j = line_end(s, i);
    if j >= s.len() || s[j] == '\0' {
        j
    } else {
        let k = inline_ws_end(s, j + 1);
        if k + 1 < s.len() && s[k] == '/' && s[k + 1] == '/' {
            doc_end(s, k + 2)
        } else {
            k
        }
    }
}

/// The token type reached by looking an identifier's text up in the keyword
/// table and then in the built-in-type set.
pub open spec fn keyword_or_type(text: Seq<char>) -> u16 {
    if text == token_text(token_types::AND) {
        token_types::AND
    } else if text == token_text(token_types::AS) {
        token_types::AS
    } else if text == token_text(token_types::FALSE) {
        token_types::FALSE
    } else if text == token_text(token_types::IN) {
        token_types::IN
    } else if text == token_text(token_types::IS) {
        token_types::IS
    } else if text == token_text(token_types::NOT) {
        token_types::NOT
    } else if text == token_text(token_types::OR) {
        token_types::OR
    } else if text == token_text(token_types::TRUE) {
        token_types::TRUE
    } else if text == token_text(token_types::WHEN) {
        token_types::WHEN
    } else if text == token_text(token_types::WHERE) {
        token_types::WHERE
    } else if text == "Bool"@ || text == "Float64"@ || text == "Int64"@ || text == "String"@ {
        token_types::BUILT_IN_TYPE
    } else {
        token_types::IDENTIFIER
    }
}

/// The end index and token type of the token that starts at `i`, which must
/// hold a character that is neither whitespace nor the NUL sentinel.
pub open spec fn read_token_at(s: Seq<char>, i: int) -> (int, u16)
    recommends
        0 <= i < s.len(),
{
    let c = s[i];
    if is_identifier_start_char(c) {
        let e = ident_end(s, i + 1);
        (e, keyword_or_type(s.subrange(i, e)))
    } else if is_digit_char(c) {
        let d = digit_end(s, i + 1);
        if char_at(s, d) == '.' && is_digit_char(char_at(s, d + 1)) {
            (digit_end(s, d + 1), token_types::FLOATING_POINT_LITERAL)
        } else {
            (d, token_types::INTEGER_LITERAL)
        }
    } else if c == '&' {
        if char_at(s, i + 1) == '&' {
            (i + 2, token_types::AMPERSAND_AMPERSAND)
        } else {
            (i + 1, token_types::AMPERSAND)
        }
    } else if c == '*' {
        (i + 1, token_types::ASTERISK)
    } else if c == '`' {
        (backtick_end(s, i + 1), token_types::BACK_TICKED_STRING)
    } else if c == ':' {
        (i + 1, token_types::COLON)
    } else if c == ',' {
        (i + 1, token_types::COMMA)
    } else if c == '-' {
        if char_at(s, i + 1) == '>' {
            (i + 2, token_types::RIGHT_ARROW)
        } else {
            (i + 1, token_types::DASH)
        }
    } else if c == '.' {
        if char_at(s, i + 1) == '.' {
            if char_at(s, i + 2) == '.' {
                (i + 3, token_types::DOT_DOT_DOT)
            } else {
                (i + 2, token_types::DOT_DOT)
            }
        } else {
            (i + 1, token_types::DOT)
        }
    } else if c == '=' {
        if char_at(s, i + 1) == '=' {
            if char_at(s, i + 2) == '=' {
                (i + 3, token_types::EQUALS_EQUALS_EQUALS)
            } else {
                (i + 2, token_types::EQUALS_EQUALS)
            }
        } else if char_at(s, i + 1) == '~' {
            (i + 2, token_types::EQUALS_TILDE)
        } else {
            (i + 1, token_types::EQUALS)
        }
    } else if c == '!' {
        if char_at(s, i + 1) == '=' {
            (i + 2, token_types::EXCLAMATION_EQUALS)
        } else if char_at(s, i + 1) == '~' {
            (i + 2, token_types::EXCLAMATION_TILDE)
        } else {
            (i + 1, token_types::EXCLAMATION)
        }
    } else if c == '<' {
        if char_at(s, i + 1) == '=' {
            (i + 2, token_types::LESS_THAN_OR_EQUALS)
        } else {
            (i + 1, token_types::LESS_THAN)
        }
    } else if c == '>' {
        if char_at(s, i + 1) == '=' {
            (i + 2, token_types::GREATER_THAN_OR_EQUALS)
        } else {
            (i + 1, token_types::GREATER_THAN)
        }
    } else if c == '{' {
        (i + 1, token_types::LEFT_BRACE)
    } else if c == '[' {
        (i + 1, token_types::LEFT_BRACKET)
    } else if c == '(' {
        (i + 1, token_types::LEFT_PARENTHESIS)
    } else if c == '+' {
        (i + 1, token_types::PLUS)
    } else if c == '?' {
        if char_at(s, i + 1) == ':' {
            (i + 2, token_types::QUESTION_COLON)
        } else {
            (i + 1, token_types::QUESTION)
        }
    } else if c == '}' {
        (i + 1, token_types::RIGHT_BRACE)
    } else if c == ']' {
        (i + 1, token_types::RIGHT_BRACKET)
    } else if c == ')' {
        (i + 1, token_types::RIGHT_PARENTHESIS)
    } else if c == ';' {
        (i + 1, token_types::SEMICOLON)
    } else if c == '/' {
        if char_at(s, i + 1) == '/' {
            (doc_end(s, i + 2), token_types::DOCUMENTATION)
        } else {
            (i + 1, token_types::SLASH)
        }
    } else if c == '"' {
        let (t, e) = dq_end(s, i + 1);
        (e, t)
    } else if c == '\'' {
        let (t, e) = sq_end(s, i + 1);
        (e, t)
    } else if c == '|' {
        (i + 1, token_types::VERTICAL_BAR)
    } else {
        (i + 1, token_types::UNRECOGNIZED_CHAR)
    }
}

/// The token covering characters `mark..end` of the source.
pub open spec fn token_at(s: Seq<char>, mark: int, end: int, token_type: u16) -> Token {
    Token {
        source_offset: byte_off(s, mark) as u32,
        source_length: (byte_off(s, end) - byte_off(s, mark)) as u16,
        token_type,
    }
}

/// The byte offsets of the line feeds among characters `a..b`.
pub open spec fn nl_off(s: Seq<char>, a: int, b: int) -> Seq<u32>
    decreases b - a,
{
    if a >= b {
        seq![]
    } else {
        (if char_at(s, a) == '\n' {
            seq![byte_off(s, a) as u32]
        } else {
            seq![]
        }) + nl_off(s, a + 1, b)
    }
}

/// The tokens and newline offsets that scanning yields from character
/// position `i` onward: whitespace is skipped, one token is read at a time,
/// and the end of input — or a NUL at a token start — yields the closing
/// run of three end-of-file tokens.
pub open spec fn spec_scan(s: Seq<char>, i: int) -> ScanRest
    decreases s.len() - i,
    when 0 <= i <= s.len()
    via spec_scan_decreases
{
    let j = ws_end(s, i);
    if j >= s.len() || s[j] == '\0' {
        let eof = token_at(s, j, j, token_types::EOF);
        ScanRest { tokens: seq![eof, eof, eof], new_lines: nl_off(s, i, j) }
    } else {
        let (end, tt) = read_token_at(s, j);
        let rest = spec_scan(s, end);
        ScanRest {
            tokens: seq![token_at(s, j, end, tt)] + rest.tokens,
            new_lines: nl_off(s, i, end) + rest.new_lines,
        }
    }
}

pub proof fn lemma_ws_end_bounds(s: Seq<char>, i: int)
    requires
        0 <= i <= s.len(),
    ensures
        i <= ws_end(s, i) <= s.len(),
    decreases s.len() - i,
{
    if i < s.len() && spec_is_whitespace(s[i]) {
        lemma_ws_end_bounds(s, i + 1);
    }
}

pub proof fn lemma_ident_end_bounds(s: Seq<char>, i: int)
    requires
        0 <= i <= s.len(),
    ensures
        i <= ident_end(s, i) <= s.len(),
    decreases s.len() - i,
{
    if i < s.len() && is_identifier_part_char(s[i], char_at(s, i + 1)) {
        lemma_ident_end_bounds(s, i + 1);
    }
}

pub proof fn lemma_digit_end_bounds(s: Seq<char>, i: int)
    requires
        0 <= i <= s.len(),
    ensures
        i <= digit_end(s, i) <= s.len(),
    decreases s.len() - i,
{
    if i < s.len() && is_digit_char(s[i]) {
        lemma_digit_end_bounds(s, i + 1);
    }
}

pub proof fn lemma_line_end_bounds(s: Seq<char>, i: int)
    requires
        0 <= i <= s.len(),
    ensures
        i <= line_end(s, i) <= s.len(),
    decreases s.len() - i,
{
    if i < s.len() && s[i] != '\n' && s[i] != '\0' {
        lemma_line_end_bounds(s, i + 1);
    }
}

pub proof fn lemma_inline_ws_end_bounds(s: Seq<char>, i: int)
    requires
        0 <= i <= s.len(),
    ensures
        i <= inline_ws_end(s, i) <= s.len(),
    decreases s.len() - i,
{
    if i < s.len() && s[i] != '\n' && spec_is_whitespace(s[i]) {
        lemma_inline_ws_end_bounds(s, i + 1);
    }
}

pub proof fn lemma_dq_end_bounds(s: Seq<char>, i: int)
    requires
        0 <= i <= s.len(),
    ensures
        i <= dq_end(s, i).1 <= s.len(),
        dq_end(s, i).0 == token_types::DOUBLE_QUOTED_STRING || dq_end(s, i).0
            == token_types::UNCLOSED_DOUBLE_QUOTED_STRING,
    decreases s.len() - i,
{
    if i >= s.len() {
    } else if s[i] == '"' {
    } else if s[i] == '\\' {
        let j = if i + 2 <= s.len() {
            i + 2
        } else {
            s.len() as int
        };
        lemma_dq_end_bounds(s, j);
    } else if s[i] == '\n' {
    } else {
        lemma_dq_end_bounds(s, i + 1);
    }
}

pub proof fn lemma_sq_end_bounds(s: Seq<char>, i: int)
    requires
        0 <= i <= s.len(),
    ensures
        i <= sq_end(s, i).1 <= s.len(),
        sq_end(s, i).0 == token_types::SINGLE_QUOTED_STRING || sq_end(s, i).0
            == token_types::UNCLOSED_SINGLE_QUOTED_STRING,
    decreases s.len() - i,
{
    if i >= s.len() {
    } else if s[i] == '\'' {
    } else if s[i] == '\\' {
        let j = if i + 2 <= s.len() {
            i + 2
        } else {
            s.len() as int
        };
        lemma_sq_end_bounds(s, j);
    } else if s[i] == '\n' {
    } else {
        lemma_sq_end_bounds(s, i + 1);
    }
}

#[via_fn]
proof fn backtick_end_decreases(s: Seq<char>, i: int) {
    lemma_line_end_bounds(s, i);
    let j = line_end(s, i);
    if !(j >= s.len() || s[j] == '\0') {
        lemma_inline_ws_end_bounds(s, j + 1);
    }
}

#[via_fn]
proof fn doc_end_decreases(s: Seq<char>, i: int) {
    lemma_line_end_bounds(s, i);
    let j = line_end(s, i);
    if !(j >= s.len() || s[j] == '\0') {
        lemma_inline_ws_end_bounds(s, j + 1);
    }
}

pub proof fn lemma_backtick_end_bounds(s: Seq<char>, i: int)
    requires
        0 <= i <= s.len(),
    ensures
        i <= backtick_end(s, i) <= s.len(),
    decreases s.len() - i,
{
    lemma_line_end_bounds(s, i);
    let j = line_end(s, i);
    if !(j >= s.len() || s[j] == '\0') {
        lemma_inline_ws_end_bounds(s, j + 1);
        let k = inline_ws_end(s, j + 1);
        if k < s.len() && s[k] == '`' {
            lemma_backtick_end_bounds(s, k + 1);
        }
    }
}

pub proof fn lemma_doc_end_bounds(s: Seq<char>, i: int)
    requires
        0 <= i <= s.len(),
    ensures
        i <= doc_end(s, i) <= s.len(),
    decreases s.len() - i,
{
    lemma_line_end_bounds(s, i);
    let j = line_end(s, i);
    if !(j >= s.len() || s[j] == '\0') {
        lemma_inline_ws_end_bounds(s, j + 1);
        let k = inline_ws_end(s, j + 1);
        if k + 1 < s.len() && s[k] == '/' && s[k + 1] == '/' {
            lemma_doc_end_bounds(s, k + 2);
        }
    }
}

/// Every token read from a valid start position ends past that position and
/// within the input.
pub proof fn lemma_read_token_bounds(s: Seq<char>, i: int)
    requires
        0 <= i < s.len(),
    ensures
        i < read_token_at(s, i).0 <= s.len(),
{
    lemma_ident_end_bounds(s, i + 1);
    lemma_digit_end_bounds(s, i + 1);
    let d = digit_end(s, i + 1);
    if d + 1 <= s.len() {
        lemma_digit_end_bounds(s, d + 1);
    }
    lemma_backtick_end_bounds(s, i + 1);
    if i + 2 <= s.len() {
        lemma_doc_end_bounds(s, i + 2);
    }
    lemma_dq_end_bounds(s, i + 1);
    lemma_sq_end_bounds(s, i + 1);
    if s[i] == '.' && char_at(s, i + 1) == '.' && char_at(s, i + 2) == '.' {
        assert(i + 3 <= s.len());
    }
    if s[i] == '=' && char_at(s, i + 1) == '=' && char_at(s, i + 2) == '=' {
        assert(i + 3 <= s.len());
    }
    if s[i] == '/' && char_at(s, i + 1) == '/' {
        assert(i + 2 <= s.len());
    }
}

#[via_fn]
proof fn spec_scan_decreases(s: Seq<char>, i: int) {
    lemma_ws_end_bounds(s, i);
    let j = ws_end(s, i);
    if !(j >= s.len() || s[j] == '\0') {
        lemma_read_token_bounds(s, j);
    }
}

/// Newline offsets over `a..c` split at any `b` between them.
pub proof fn lemma_nl_off_split(s: Seq<char>, a: int, b: int, c: int)
    requires
        a <= b <= c,
    ensures
        nl_off(s, a, c) == nl_off(s, a, b) + nl_off(s, b, c),
    decreases b - a,
{
    if a >= b {
        assert(nl_off(s, a, b) =~= Seq::<u32>::empty());
        assert(nl_off(s, a, b) + nl_off(s, b, c) =~= nl_off(s, b, c));
    } else {
        lemma_nl_off_split(s, a + 1, b, c);
        assert(nl_off(s, a, c) =~= nl_off(s, a, b) + nl_off(s, b, c));
    }
}

/// Converts a string of Lligne source code into tokens.
struct Scanner {
    chars: Vec<char>,
    i: usize,
    pos: u32,
    mark: u32,
    mark_idx: Ghost<int>,
    tokens: Vec<Token>,
    new_lines: Vec<u32>,
}

impl Scanner {
    spec fn inv(&self) -> bool {
        &&& self.i <= self.chars@.len()
        &&& byte_len(self.chars@) <= u32::MAX
        &&& self.pos == byte_off(self.chars@, self.i as int)
        &&& 0 <= self.mark_idx@ <= self.i as int
        &&& self.mark == byte_off(self.chars@, self.mark_idx@)
    }

    /// Consumes one character, recording the byte offset of each line feed
    /// consumed.
    fn advance(&mut self)
        requires
            old(self).inv(),
            old(self).i < old(self).chars@.len(),
        ensures
            final(self).inv(),
            final(self).chars == old(self).chars,
            final(self).tokens == old(self).tokens,
            final(self).mark == old(self).mark,
            final(self).mark_idx == old(self).mark_idx,
            final(self).i == old(self).i + 1,
            final(self).new_lines@ == old(self).new_lines@ + nl_off(
                old(self).chars@,
                old(self).i as int,
                old(self).i + 1,
            ),
    {
        let ghost s = self.chars@;
        let ghost i0 = self.i as int;
        let n = self.chars.len();
        proof {
            lemma_byte_off_step(s, i0);
            lemma_byte_off_mono(s, i0 + 1, s.len() as int);
            lemma_byte_off_at_ends(s);
            lemma_char_size_bounds(s[i0]);
        }
        let c = self.chars[self.i];
        if c == '\n' {
            self.new_lines.push(self.pos);
        }
        self.pos = self.pos + utf8_len(c) as u32;
        self.i = self.i + 1;
        proof {
            reveal_with_fuel(nl_off, 3);
            assert(self.new_lines@ =~= old(self).new_lines@ + nl_off(s, i0, i0 + 1));
        }
    }

    /// Builds a new token of the given type with text from the marked
    /// position to the current position.
    fn token(&self, token_type: u16) -> (t: Token)
        requires
            self.inv(),
        ensures
            t == token_at(self.chars@, self.mark_idx@, self.i as int, token_type),
    {
        proof {
            lemma_byte_off_mono(self.chars@, self.mark_idx@, self.i as int);
        }
        Token {
            source_offset: self.mark,
            source_length: #[verifier::truncate] ((self.pos - self.mark) as u16),
            token_type,
        }
    }

    /// Builds a new end-of-file token for the marked position.
    fn eof_token(&self) -> (t: Token)
        requires
            self.inv(),
        ensures
            t == token_at(self.chars@, self.mark_idx@, self.mark_idx@, token_types::EOF),
    {
        Token { source_offset: self.mark, source_length: 0, token_type: token_types::EOF }
    }

    /// Scans a token that could be one or two characters in length.
    fn one_or_two_char_token(&mut self, one_char_type: u16, second_char: char, two_char_type: u16)
        -> (t: Token)
        requires
            old(self).inv(),
            second_char != '\0',
        ensures
            final(self).inv(),
            final(self).chars == old(self).chars,
            final(self).tokens == old(self).tokens,
            final(self).mark_idx == old(self).mark_idx,
            old(self).i <= final(self).i,
            ({
                let s = old(self).chars@;
                let i0 = old(self).i as int;
                if char_at(s, i0) == second_char {
                    &&& final(self).i == i0 + 1
                    &&& t == token_at(s, old(self).mark_idx@, i0 + 1, two_char_type)
                    &&& final(self).new_lines@ == old(self).new_lines@ + nl_off(s, i0, i0 + 1)
                } else {
                    &&& final(self).i == i0
                    &&& t == token_at(s, old(self).mark_idx@, i0, one_char_type)
                    &&& final(self).new_lines@ == old(self).new_lines@
                }
            }),
    {
        if self.i < self.chars.len() && self.chars[self.i] == second_char {
            self.advance();
            return self.token(two_char_type);
        }
        self.token(one_char_type)
    }

    /// Scans a token that could be one, two, or three characters in length.
    fn one_to_three_char_token(
        &mut self,
        one_char_type: u16,
        second_char: char,
        two_char_type: u16,
        third_char: char,
        three_char_type: u16,
    ) -> (t: Token)
        requires
            old(self).inv(),
            second_char != '\0',
            third_char != '\0',
        ensures
            final(self).inv(),
            final(self).chars == old(self).chars,
            final(self).tokens == old(self).tokens,
            final(self).mark_idx == old(self).mark_idx,
            old(self).i <= final(self).i,
            ({
                let s = old(self).chars@;
                let i0 = old(self).i as int;
                if char_at(s, i0) == second_char {
                    if char_at(s, i0 + 1) == third_char {
                        &&& final(self).i == i0 + 2
                        &&& t == token_at(s, old(self).mark_idx@, i0 + 2, three_char_type)
                        &&& final(self).new_lines@ == old(self).new_lines@ + nl_off(s, i0, i0 + 2)
                    } else {
                        &&& final(self).i == i0 + 1
                        &&& t == token_at(s, old(self).mark_idx@, i0 + 1, two_char_type)
                        &&& final(self).new_lines@ == old(self).new_lines@ + nl_off(s, i0, i0 + 1)
                    }
                } else {
                    &&& final(self).i == i0
                    &&& t == token_at(s, old(self).mark_idx@, i0, one_char_type)
                    &&& final(self).new_lines@ == old(self).new_lines@
                }
            }),
    {
        let ghost s = self.chars@;
        let ghost i0 = self.i as int;
        if self.i < self.chars.len() && self.chars[self.i] == second_char {
            self.advance();
            if self.i < self.chars.len() && self.chars[self.i] == third_char {
                self.advance();
                proof {
                    lemma_nl_off_split(s, i0, i0 + 1, i0 + 2);
                    assert(self.new_lines@ =~= old(self).new_lines@ + nl_off(s, i0, self.i as int));
                }
                return self.token(three_char_type);
            }
            return self.token(two_char_type);
        }
        self.token(one_char_type)
    }

    /// Scans the remainder of an identifier after the opening letter has
    /// been consumed, then resolves keywords and built-in type names.
    #[verifier::loop_isolation(false)]
    fn scan_identifier_or_keyword(&mut self, start: usize) -> (t: Token)
        requires
            old(self).inv(),
            old(self).mark_idx@ == start as int,
        ensures
            final(self).inv(),
            final(self).chars == old(self).chars,
            final(self).tokens == old(self).tokens,
            final(self).mark_idx == old(self).mark_idx,
            old(self).i <= final(self).i,
            ({
                let s = old(self).chars@;
                let e = ident_end(s, old(self).i as int);
                &&& old(self).i as int <= e
                &&& final(self).i as int == e
                &&& t == token_at(
                    s,
                    start as int,
                    e,
                    keyword_or_type(s.subrange(start as int, e)),
                )
                &&& final(self).new_lines@ == old(self).new_lines@ + nl_off(s, old(self).i as int, e)
            }),
    {
        let ghost s = self.chars@;
        let ghost i0 = self.i as int;
        while self.i < self.chars.len() && ident_part_at(&self.chars, self.i)
            invariant
                self.inv(),
                self.chars == old(self).chars,
                self.tokens == old(self).tokens,
                self.mark_idx == old(self).mark_idx,
                i0 <= self.i as int,
                ident_end(s, i0) == ident_end(s, self.i as int),
                self.new_lines@ == old(self).new_lines@ + nl_off(s, i0, self.i as int),
            decreases s.len() - self.i,
        {
            let ghost i_here = self.i as int;
            self.advance();
            proof {
                lemma_nl_off_split(s, i0, i_here, i_here + 1);
                assert(self.new_lines@ =~= old(self).new_lines@ + nl_off(s, i0, self.i as int));
            }
        }
        let t = keyword_or_builtin(&self.chars, start, self.i);
        self.token(t)
    }

    /// Scans the remainder of a numeric literal after the opening digit has
    /// been consumed.
    fn scan_number(&mut self) -> (t: Token)
        requires
            old(self).inv(),
        ensures
            final(self).inv(),
            final(self).chars == old(self).chars,
            final(self).tokens == old(self).tokens,
            final(self).mark_idx == old(self).mark_idx,
            old(self).i <= final(self).i,
            ({
                let s = old(self).chars@;
                let i0 = old(self).i as int;
                let d = digit_end(s, i0);
                if char_at(s, d) == '.' && is_digit_char(char_at(s, d + 1)) {
                    &&& final(self).i as int == digit_end(s, d + 1)
                    &&& t == token_at(
                        s,
                        old(self).mark_idx@,
                        digit_end(s, d + 1),
                        token_types::FLOATING_POINT_LITERAL,
                    )
                    &&& final(self).new_lines@ == old(self).new_lines@ + nl_off(s, i0, final(self).i as int)
                } else {
                    &&& final(self).i as int == d
                    &&& t == token_at(s, old(self).mark_idx@, d, token_types::INTEGER_LITERAL)
                    &&& final(self).new_lines@ == old(self).new_lines@ + nl_off(s, i0, d)
                }
            }),
    {
        let ghost s = self.chars@;
        let ghost i0 = self.i as int;
        self.run_of_digits();
        let ghost d = self.i as int;
        if self.i < self.chars.len() && self.chars[self.i] == '.' && self.i + 1
            < self.chars.len() && is_digit(self.chars[self.i + 1]) {
            self.advance();
            self.run_of_digits();
            proof {
                assert(digit_end(s, d + 1) == self.i as int);
                lemma_nl_off_split(s, i0, d, d + 1);
                lemma_nl_off_split(s, i0, d + 1, self.i as int);
            }
            return self.token(token_types::FLOATING_POINT_LITERAL);
        }
        self.token(token_types::INTEGER_LITERAL)
    }

    /// Consumes a maximal run of digits.
    #[verifier::loop_isolation(false)]
    fn run_of_digits(&mut self)
        requires
            old(self).inv(),
        ensures
            final(self).inv(),
            final(self).chars == old(self).chars,
            final(self).tokens == old(self).tokens,
            final(self).mark_idx == old(self).mark_idx,
            old(self).i <= final(self).i,
            final(self).i as int == digit_end(old(self).chars@, old(self).i as int),
            final(self).new_lines@ == old(self).new_lines@ + nl_off(
                old(self).chars@,
                old(self).i as int,
                final(self).i as int,
            ),
    {
        let ghost s = self.chars@;
        let ghost i0 = self.i as int;
        while self.i < self.chars.len() && is_digit(self.chars[self.i])
            invariant
                self.inv(),
                self.chars == old(self).chars,
                self.tokens == old(self).tokens,
                self.mark_idx == old(self).mark_idx,
                i0 <= self.i as int,
                digit_end(s, i0) == digit_end(s, self.i as int),
                self.new_lines@ == old(self).new_lines@ + nl_off(s, i0, self.i as int),
            decreases s.len() - self.i,
        {
            let ghost i_here = self.i as int;
            self.advance();
            proof {
                lemma_nl_off_split(s, i0, i_here, i_here + 1);
                assert(self.new_lines@ =~= old(self).new_lines@ + nl_off(s, i0, self.i as int));
            }
        }
    }

    /// Scans the remainder of a double-quoted string after the opening
    /// quote has been consumed.
    #[verifier::loop_isolation(false)]
    fn scan_double_quoted_string(&mut self) -> (t: Token)
        requires
            old(self).inv(),
        ensures
            final(self).inv(),
            final(self).chars == old(self).chars,
            final(self).tokens == old(self).tokens,
            final(self).mark_idx == old(self).mark_idx,
            old(self).i <= final(self).i,
            ({
                let s = old(self).chars@;
                let i0 = old(self).i as int;
                &&& i0 <= dq_end(s, i0).1
                &&& final(self).i as int == dq_end(s, i0).1
                &&& t == token_at(s, old(self).mark_idx@, dq_end(s, i0).1, dq_end(s, i0).0)
                &&& final(self).new_lines@ == old(self).new_lines@ + nl_off(s, i0, dq_end(s, i0).1)
            }),
    {
        let ghost s = self.chars@;
        let ghost i0 = self.i as int;
        loop
            invariant
                self.inv(),
                self.chars == old(self).chars,
                self.tokens == old(self).tokens,
                self.mark_idx == old(self).mark_idx,
                i0 <= self.i as int,
                dq_end(s, i0) == dq_end(s, self.i as int),
                self.new_lines@ == old(self).new_lines@ + nl_off(s, i0, self.i as int),
            decreases s.len() - self.i,
        {
            let ghost i_here = self.i as int;
            if self.i >= self.chars.len() {
                return self.token(token_types::UNCLOSED_DOUBLE_QUOTED_STRING);
            }
            let c = self.chars[self.i];
            if c == '"' {
                self.advance();
                proof {
                    lemma_nl_off_split(s, i0, i_here, i_here + 1);
                    assert(self.new_lines@ =~= old(self).new_lines@ + nl_off(s, i0, self.i as int));
                }
                return self.token(token_types::DOUBLE_QUOTED_STRING);
            } else if c == '\\' {
                self.advance();
                if self.i < self.chars.len() {
                    self.advance();
                    proof {
                        lemma_nl_off_split(s, i0, i_here, i_here + 1);
                        lemma_nl_off_split(s, i0, i_here + 1, i_here + 2);
                        assert(self.new_lines@ =~= old(self).new_lines@ + nl_off(s, i0, self.i as int));
                    }
                } else {
                    proof {
                        lemma_nl_off_split(s, i0, i_here, i_here + 1);
                        assert(self.new_lines@ =~= old(self).new_lines@ + nl_off(s, i0, self.i as int));
                    }
                }
            } else if c == '\n' {
                return self.token(token_types::UNCLOSED_DOUBLE_QUOTED_STRING);
            } else {
                self.advance();
                proof {
                    lemma_nl_off_split(s, i0, i_here, i_here + 1);
                    assert(self.new_lines@ =~= old(self).new_lines@ + nl_off(s, i0, self.i as int));
                }
            }
        }
    }

    /// Scans the remainder of a single-quoted string after the opening
    /// quote has been consumed.
    #[verifier::loop_isolation(false)]
    fn scan_single_quoted_string(&mut self) -> (t: Token)
        requires
            old(self).inv(),
        ensures
            final(self).inv(),
            final(self).chars == old(self).chars,
            final(self).tokens == old(self).tokens,
            final(self).mark_idx == old(self).mark_idx,
            old(self).i <= final(self).i,
            ({
                let s = old(self).chars@;
                let i0 = old(self).i as int;
                &&& i0 <= sq_end(s, i0).1
                &&& final(self).i as int == sq_end(s, i0).1
                &&& t == token_at(s, old(self).mark_idx@, sq_end(s, i0).1, sq_end(s, i0).0)
                &&& final(self).new_lines@ == old(self).new_lines@ + nl_off(s, i0, sq_end(s, i0).1)
            }),
    {
        let ghost s = self.chars@;
        let ghost i0 = self.i as int;
        loop
            invariant
                self.inv(),
                self.chars == old(self).chars,
                self.tokens == old(self).tokens,
                self.mark_idx == old(self).mark_idx,
                i0 <= self.i as int,
                sq_end(s, i0) == sq_end(s, self.i as int),
                self.new_lines@ == old(self).new_lines@ + nl_off(s, i0, self.i as int),
            decreases s.len() - self.i,
        {
            let ghost i_here = self.i as int;
            if self.i >= self.chars.len() {
                return self.token(token_types::UNCLOSED_SINGLE_QUOTED_STRING);
            }
            let c = self.chars[self.i];
            if c == '\'' {
                self.advance();
                proof {
                    lemma_nl_off_split(s, i0, i_here, i_here + 1);
                    assert(self.new_lines@ =~= old(self).new_lines@ + nl_off(s, i0, self.i as int));
                }
                return self.token(token_types::SINGLE_QUOTED_STRING);
            } else if c == '\\' {
                self.advance();
                if self.i < self.chars.len() {
                    self.advance();
                    proof {
                        lemma_nl_off_split(s, i0, i_here, i_here + 1);
                        lemma_nl_off_split(s, i0, i_here + 1, i_here + 2);
                        assert(self.new_lines@ =~= old(self).new_lines@ + nl_off(s, i0, self.i as int));
                    }
                } else {
                    proof {
                        lemma_nl_off_split(s, i0, i_here, i_here + 1);
                        assert(self.new_lines@ =~= old(self).new_lines@ + nl_off(s, i0, self.i as int));
                    }
                }
            } else if c == '\n' {
                return self.token(token_types::UNCLOSED_SINGLE_QUOTED_STRING);
            } else {
                self.advance();
                proof {
                    lemma_nl_off_split(s, i0, i_here, i_here + 1);
                    assert(self.new_lines@ =~= old(self).new_lines@ + nl_off(s, i0, self.i as int));
                }
            }
        }
    }

    /// Consumes characters up to the current line's end.
    #[verifier::loop_isolation(false)]
    fn run_to_line_end(&mut self)
        requires
            old(self).inv(),
        ensures
            final(self).inv(),
            final(self).chars == old(self).chars,
            final(self).tokens == old(self).tokens,
            final(self).mark_idx == old(self).mark_idx,
            old(self).i <= final(self).i,
            final(self).i as int == line_end(old(self).chars@, old(self).i as int),
            final(self).new_lines@ == old(self).new_lines@ + nl_off(
                old(self).chars@,
                old(self).i as int,
                final(self).i as int,
            ),
    {
        let ghost s = self.chars@;
        let ghost i0 = self.i as int;
        while self.i < self.chars.len() && self.chars[self.i] != '\n' && self.chars[self.i]
            != '\0'
            invariant
                self.inv(),
                self.chars == old(self).chars,
                self.tokens == old(self).tokens,
                self.mark_idx == old(self).mark_idx,
                i0 <= self.i as int,
                line_end(s, i0) == line_end(s, self.i as int),
                self.new_lines@ == old(self).new_lines@ + nl_off(s, i0, self.i as int),
            decreases s.len() - self.i,
        {
            let ghost i_here = self.i as int;
            self.advance();
            proof {
                lemma_nl_off_split(s, i0, i_here, i_here + 1);
                assert(self.new_lines@ =~= old(self).new_lines@ + nl_off(s, i0, self.i as int));
            }
        }
    }

    /// Consumes non-newline whitespace.
    #[verifier::loop_isolation(false)]
    fn run_of_inline_whitespace(&mut self)
        requires
            old(self).inv(),
        ensures
            final(self).inv(),
            final(self).chars == old(self).chars,
            final(self).tokens == old(self).tokens,
            final(self).mark_idx == old(self).mark_idx,
            old(self).i <= final(self).i,
            final(self).i as int == inline_ws_end(old(self).chars@, old(self).i as int),
            final(self).new_lines@ == old(self).new_lines@ + nl_off(
                old(self).chars@,
                old(self).i as int,
                final(self).i as int,
            ),
    {
        let ghost s = self.chars@;
        let ghost i0 = self.i as int;
        while self.i < self.chars.len() && self.chars[self.i] != '\n' && char_is_whitespace(
            self.chars[self.i],
        )
            invariant
                self.inv(),
                self.chars == old(self).chars,
                self.tokens == old(self).tokens,
                self.mark_idx == old(self).mark_idx,
                i0 <= self.i as int,
                inline_ws_end(s, i0) == inline_ws_end(s, self.i as int),
                self.new_lines@ == old(self).new_lines@ + nl_off(s, i0, self.i as int),
            decreases s.len() - self.i,
        {
            let ghost i_here = self.i as int;
            self.advance();
            proof {
                lemma_nl_off_split(s, i0, i_here, i_here + 1);
                assert(self.new_lines@ =~= old(self).new_lines@ + nl_off(s, i0, self.i as int));
            }
        }
    }

    /// Consumes a multi-line back-ticked string.
    #[verifier::loop_isolation(false)]
    #[verifier::rlimit(30)]
    fn scan_back_ticked_string(&mut self) -> (t: Token)
        requires
            old(self).inv(),
        ensures
            final(self).inv(),
            final(self).chars == old(self).chars,
            final(self).tokens == old(self).tokens,
            final(self).mark_idx == old(self).mark_idx,
            old(self).i <= final(self).i,
            ({
                let s = old(self).chars@;
                let i0 = old(self).i as int;
                &&& i0 <= backtick_end(s, i0)
                &&& final(self).i as int == backtick_end(s, i0)
                &&& t == token_at(
                    s,
                    old(self).mark_idx@,
                    backtick_end(s, i0),
                    token_types::BACK_TICKED_STRING,
                )
                &&& final(self).new_lines@ == old(self).new_lines@ + nl_off(s, i0, backtick_end(s, i0))
            }),
    {
        let ghost s = self.chars@;
        let ghost i0 = self.i as int;
        loop
            invariant
                self.inv(),
                self.chars == old(self).chars,
                self.tokens == old(self).tokens,
                self.mark_idx == old(self).mark_idx,
                i0 <= self.i as int,
                backtick_end(s, i0) == backtick_end(s, self.i as int),
                self.new_lines@ == old(self).new_lines@ + nl_off(s, i0, self.i as int),
            decreases s.len() - self.i,
        {
            let ghost i_top = self.i as int;
            self.run_to_line_end();
            let ghost j = self.i as int;
            proof {
                lemma_nl_off_split(s, i0, i_top, j);
                assert(self.new_lines@ =~= old(self).new_lines@ + nl_off(s, i0, self.i as int));
            }
            if self.i >= self.chars.len() || self.chars[self.i] == '\0' {
                return self.token(token_types::BACK_TICKED_STRING);
            }
            self.advance();
            self.run_of_inline_whitespace();
            let ghost k = self.i as int;
            proof {
                lemma_nl_off_split(s, i0, j, j + 1);
                lemma_nl_off_split(s, i0, j + 1, k);
                assert(self.new_lines@ =~= old(self).new_lines@ + nl_off(s, i0, self.i as int));
            }
            if !(self.i < self.chars.len() && self.chars[self.i] == '`') {
                return self.token(token_types::BACK_TICKED_STRING);
            }
            self.advance();
            proof {
                lemma_nl_off_split(s, i0, k, k + 1);
                assert(self.new_lines@ =~= old(self).new_lines@ + nl_off(s, i0, self.i as int));
            }
        }
    }

    /// Consumes a multi-line documentation comment.
    #[verifier::loop_isolation(false)]
    #[verifier::rlimit(30)]
    fn scan_documentation(&mut self) -> (t: Token)
        requires
            old(self).inv(),
        ensures
            final(self).inv(),
            final(self).chars == old(self).chars,
            final(self).tokens == old(self).tokens,
            final(self).mark_idx == old(self).mark_idx,
            old(self).i <= final(self).i,
            ({
                let s = old(self).chars@;
                let i0 = old(self).i as int;
                &&& i0 <= doc_end(s, i0)
                &&& final(self).i as int == doc_end(s, i0)
                &&& t == token_at(
                    s,
                    old(self).mark_idx@,
                    doc_end(s, i0),
                    token_types::DOCUMENTATION,
                )
                &&& final(self).new_lines@ == old(self).new_lines@ + nl_off(s, i0, doc_end(s, i0))
            }),
    {
        let ghost s = self.chars@;
        let ghost i0 = self.i as int;
        loop
            invariant
                self.inv(),
                self.chars == old(self).chars,
                self.tokens == old(self).tokens,
                self.mark_idx == old(self).mark_idx,
                i0 <= self.i as int,
                doc_end(s, i0) == doc_end(s, self.i as int),
                self.new_lines@ == old(self).new_lines@ + nl_off(s, i0, self.i as int),
            decreases s.len() - self.i,
        {
            let ghost i_top = self.i as int;
            self.run_to_line_end();
            let ghost j = self.i as int;
            proof {
                lemma_nl_off_split(s, i0, i_top, j);
                assert(self.new_lines@ =~= old(self).new_lines@ + nl_off(s, i0, self.i as int));
            }
            if self.i >= self.chars.len() || self.chars[self.i] == '\0' {
                return self.token(token_types::DOCUMENTATION);
            }
            self.advance();
            self.run_of_inline_whitespace();
            let ghost k = self.i as int;
            proof {
                lemma_nl_off_split(s, i0, j, j + 1);
                lemma_nl_off_split(s, i0, j + 1, k);
                assert(self.new_lines@ =~= old(self).new_lines@ + nl_off(s, i0, self.i as int));
            }
            let n = self.chars.len();
            if !(self.i < n && self.chars[self.i] == '/' && self.i + 1 < n && self.chars[self.i
                + 1] == '/') {
                return self.token(token_types::DOCUMENTATION);
            }
            self.advance();
            self.advance();
            proof {
                lemma_nl_off_split(s, i0, k, k + 1);
                lemma_nl_off_split(s, i0, k + 1, k + 2);
                assert(self.new_lines@ =~= old(self).new_lines@ + nl_off(s, i0, self.i as int));
            }
        }
    }

    /// Scans either just the slash or else a comment extending to the end
    /// of the line.
    fn scan_after_slash(&mut self) -> (t: Token)
        requires
            old(self).inv(),
        ensures
            final(self).inv(),
            final(self).chars == old(self).chars,
            final(self).tokens == old(self).tokens,
            final(self).mark_idx == old(self).mark_idx,
            old(self).i <= final(self).i,
            ({
                let s = old(self).chars@;
                let i0 = old(self).i as int;
                if char_at(s, i0) == '/' {
                    &&& final(self).i as int == doc_end(s, i0 + 1)
                    &&& t == token_at(
                        s,
                        old(self).mark_idx@,
                        doc_end(s, i0 + 1),
                        token_types::DOCUMENTATION,
                    )
                    &&& final(self).new_lines@ == old(self).new_lines@ + nl_off(
                        s,
                        i0,
                        doc_end(s, i0 + 1),
                    )
                } else {
                    &&& final(self).i == i0
                    &&& t == token_at(s, old(self).mark_idx@, i0, token_types::SLASH)
                    &&& final(self).new_lines@ == old(self).new_lines@
                }
            }),
    {
        let ghost s = self.chars@;
        let ghost i0 = self.i as int;
        if self.i < self.chars.len() && self.chars[self.i] == '/' {
            self.advance();
            let t = self.scan_documentation();
            proof {
                lemma_nl_off_split(s, i0, i0 + 1, self.i as int);
                assert(self.new_lines@ =~= old(self).new_lines@ + nl_off(s, i0, self.i as int));
            }
            return t;
        }
        self.token(token_types::SLASH)
    }

    /// Returns the next token from the scanner.
    #[verifier::loop_isolation(false)]
    fn read_token(&mut self) -> (t: Token)
        requires
            old(self).inv(),
        ensures
            final(self).inv(),
            final(self).chars == old(self).chars,
            final(self).tokens == old(self).tokens,
            ({
                let s = old(self).chars@;
                let i0 = old(self).i as int;
                let j = ws_end(s, i0);
                if j >= s.len() || s[j] == '\0' {
                    &&& t == token_at(s, j, j, token_types::EOF)
                    &&& t.token_type == token_types::EOF
                    &&& final(self).i as int == j
                    &&& final(self).new_lines@ == old(self).new_lines@ + nl_off(s, i0, j)
                } else {
                    &&& t == token_at(s, j, read_token_at(s, j).0, read_token_at(s, j).1)
                    &&& t.token_type == read_token_at(s, j).1
                    &&& final(self).i as int == read_token_at(s, j).0
                    &&& final(self).new_lines@ == old(self).new_lines@ + nl_off(
                        s,
                        i0,
                        read_token_at(s, j).0,
                    )
                }
            }),
    {
        let ghost s = self.chars@;
        let ghost i0 = self.i as int;

        // Ignore whitespace.
        while self.i < self.chars.len() && char_is_whitespace(self.chars[self.i])
            invariant
                self.inv(),
                self.chars == old(self).chars,
                self.tokens == old(self).tokens,
                i0 <= self.i as int,
                ws_end(s, i0) == ws_end(s, self.i as int),
                self.new_lines@ == old(self).new_lines@ + nl_off(s, i0, self.i as int),
            decreases s.len() - self.i,
        {
            let ghost i_here = self.i as int;
            self.advance();
            proof {
                lemma_nl_off_split(s, i0, i_here, i_here + 1);
                assert(self.new_lines@ =~= old(self).new_lines@ + nl_off(s, i0, self.i as int));
            }
        }
        let ghost j = self.i as int;

        // Mark the start of the token.
        self.mark = self.pos;
        self.mark_idx = Ghost(self.i as int);

        if self.i >= self.chars.len() {
            return self.eof_token();
        }
        let c = self.chars[self.i];
        if c == '\0' {
            return self.eof_token();
        }
        let start = self.i;
        self.advance();
        proof {
            lemma_nl_off_split(s, i0, j, j + 1);
            assert(self.new_lines@ =~= old(self).new_lines@ + nl_off(s, i0, self.i as int));
        }

        // Handle character ranges.
        let t = if is_identifier_start(c) {
            self.scan_identifier_or_keyword(start)
        } else if is_digit(c) {
            self.scan_number()
        } else if c == '&' {
            self.one_or_two_char_token(
                token_types::AMPERSAND,
                '&',
                token_types::AMPERSAND_AMPERSAND,
            )
        } else if c == '*' {
            self.token(token_types::ASTERISK)
        } else if c == '`' {
            self.scan_back_ticked_string()
        } else if c == ':' {
            self.token(token_types::COLON)
        } else if c == ',' {
            self.token(token_types::COMMA)
        } else if c == '-' {
            self.one_or_two_char_token(token_types::DASH, '>', token_types::RIGHT_ARROW)
        } else if c == '.' {
            self.one_to_three_char_token(
                token_types::DOT,
                '.',
                token_types::DOT_DOT,
                '.',
                token_types::DOT_DOT_DOT,
            )
        } else if c == '=' {
            self.scan_after_equals()
        } else if c == '!' {
            self.scan_after_exclamation_mark()
        } else if c == '<' {
            self.one_or_two_char_token(
                token_types::LESS_THAN,
                '=',
                token_types::LESS_THAN_OR_EQUALS,
            )
        } else if c == '>' {
            self.one_or_two_char_token(
                token_types::GREATER_THAN,
                '=',
                token_types::GREATER_THAN_OR_EQUALS,
            )
        } else if c == '{' {
            self.token(token_types::LEFT_BRACE)
        } else if c == '[' {
            self.token(token_types::LEFT_BRACKET)
        } else if c == '(' {
            self.token(token_types::LEFT_PARENTHESIS)
        } else if c == '+' {
            self.token(token_types::PLUS)
        } else if c == '?' {
            self.one_or_two_char_token(token_types::QUESTION, ':', token_types::QUESTION_COLON)
        } else if c == '}' {
            self.token(token_types::RIGHT_BRACE)
        } else if c == ']' {
            self.token(token_types::RIGHT_BRACKET)
        } else if c == ')' {
            self.token(token_types::RIGHT_PARENTHESIS)
        } else if c == ';' {
            self.token(token_types::SEMICOLON)
        } else if c == '/' {
            self.scan_after_slash()
        } else if c == '"' {
            self.scan_double_quoted_string()
        } else if c == '\'' {
            self.scan_single_quoted_string()
        } else if c == '|' {
            self.token(token_types::VERTICAL_BAR)
        } else {
            self.token(token_types::UNRECOGNIZED_CHAR)
        };
        proof {
            lemma_nl_off_split(s, i0, j, self.i as int);
            lemma_nl_off_split(s, j, j + 1, self.i as int);
            assert(self.new_lines@ =~= old(self).new_lines@ + nl_off(s, i0, self.i as int));
        }
        t
    }

    /// Scans one of `=`, `==`, `===`, `=~`.
    fn scan_after_equals(&mut self) -> (t: Token)
        requires
            old(self).inv(),
        ensures
            final(self).inv(),
            final(self).chars == old(self).chars,
            final(self).tokens == old(self).tokens,
            final(self).mark_idx == old(self).mark_idx,
            old(self).i <= final(self).i,
            ({
                let s = old(self).chars@;
                let i0 = old(self).i as int;
                if char_at(s, i0) == '=' {
                    if char_at(s, i0 + 1) == '=' {
                        &&& final(self).i == i0 + 2
                        &&& t == token_at(
                            s,
                            old(self).mark_idx@,
                            i0 + 2,
                            token_types::EQUALS_EQUALS_EQUALS,
                        )
                        &&& final(self).new_lines@ == old(self).new_lines@ + nl_off(s, i0, i0 + 2)
                    } else {
                        &&& final(self).i == i0 + 1
                        &&& t == token_at(
                            s,
                            old(self).mark_idx@,
                            i0 + 1,
                            token_types::EQUALS_EQUALS,
                        )
                        &&& final(self).new_lines@ == old(self).new_lines@ + nl_off(s, i0, i0 + 1)
                    }
                } else if char_at(s, i0) == '~' {
                    &&& final(self).i == i0 + 1
                    &&& t == token_at(s, old(self).mark_idx@, i0 + 1, token_types::EQUALS_TILDE)
                    &&& final(self).new_lines@ == old(self).new_lines@ + nl_off(s, i0, i0 + 1)
                } else {
                    &&& final(self).i == i0
                    &&& t == token_at(s, old(self).mark_idx@, i0, token_types::EQUALS)
                    &&& final(self).new_lines@ == old(self).new_lines@
                }
            }),
    {
        let ghost s = self.chars@;
        let ghost i0 = self.i as int;
        if self.i < self.chars.len() && self.chars[self.i] == '=' {
            self.advance();
            if self.i < self.chars.len() && self.chars[self.i] == '=' {
                self.advance();
                proof {
                    lemma_nl_off_split(s, i0, i0 + 1, i0 + 2);
                    assert(self.new_lines@ =~= old(self).new_lines@ + nl_off(s, i0, self.i as int));
                }
                return self.token(token_types::EQUALS_EQUALS_EQUALS);
            }
            return self.token(token_types::EQUALS_EQUALS);
        }
        if self.i < self.chars.len() && self.chars[self.i] == '~' {
            self.advance();
            return self.token(token_types::EQUALS_TILDE);
        }
        self.token(token_types::EQUALS)
    }

    /// Scans one of `!`, `!=`, `!~`.
    fn scan_after_exclamation_mark(&mut self) -> (t: Token)
        requires
            old(self).inv(),
        ensures
            final(self).inv(),
            final(self).chars == old(self).chars,
            final(self).tokens == old(self).tokens,
            final(self).mark_idx == old(self).mark_idx,
            old(self).i <= final(self).i,
            ({
                let s = old(self).chars@;
                let i0 = old(self).i as int;
                if char_at(s, i0) == '=' {
                    &&& final(self).i == i0 + 1
                    &&& t == token_at(
                        s,
                        old(self).mark_idx@,
                        i0 + 1,
                        token_types::EXCLAMATION_EQUALS,
                    )
                    &&& final(self).new_lines@ == old(self).new_lines@ + nl_off(s, i0, i0 + 1)
                } else if char_at(s, i0) == '~' {
                    &&& final(self).i == i0 + 1
                    &&& t == token_at(
                        s,
                        old(self).mark_idx@,
                        i0 + 1,
                        token_types::EXCLAMATION_TILDE,
                    )
                    &&& final(self).new_lines@ == old(self).new_lines@ + nl_off(s, i0, i0 + 1)
                } else {
                    &&& final(self).i == i0
                    &&& t == token_at(s, old(self).mark_idx@, i0, token_types::EXCLAMATION)
                    &&& final(self).new_lines@ == old(self).new_lines@
                }
            }),
    {
        if self.i < self.chars.len() && self.chars[self.i] == '=' {
            self.advance();
            return self.token(token_types::EXCLAMATION_EQUALS);
        }
        if self.i < self.chars.len() && self.chars[self.i] == '~' {
            self.advance();
            return self.token(token_types::EXCLAMATION_TILDE);
        }
        self.token(token_types::EXCLAMATION)
    }

    /// Converts the source code to an array of tokens.
    #[verifier::loop_isolation(false)]
    fn scan(&mut self)
        requires
            old(self).inv(),
        ensures
            final(self).inv(),
            final(self).chars == old(self).chars,
            final(self).tokens@ == old(self).tokens@ + spec_scan(
                old(self).chars@,
                old(self).i as int,
            ).tokens,
            final(self).new_lines@ == old(self).new_lines@ + spec_scan(
                old(self).chars@,
                old(self).i as int,
            ).new_lines,
    {
        let ghost s = self.chars@;
        let ghost i0 = old(self).i as int;
        let mut done = false;
        while !done
            invariant
                self.inv(),
                self.chars == old(self).chars,
                i0 <= self.i as int,
                !done ==> old(self).tokens@ + spec_scan(s, i0).tokens == self.tokens@ + spec_scan(
                    s,
                    self.i as int,
                ).tokens,
                !done ==> old(self).new_lines@ + spec_scan(s, i0).new_lines == self.new_lines@
                    + spec_scan(s, self.i as int).new_lines,
                done ==> self.tokens@ == old(self).tokens@ + spec_scan(s, i0).tokens,
                done ==> self.new_lines@ == old(self).new_lines@ + spec_scan(s, i0).new_lines,
            decreases s.len() - self.i + (if done { 0int } else { 1int }),
        {
            let ghost i_here = self.i as int;
            let ghost before_tokens = self.tokens@;
            let ghost before_nl = self.new_lines@;
            let token = self.read_token();
            proof {
                lemma_ws_end_bounds(s, i_here);
                if !(ws_end(s, i_here) >= s.len() || s[ws_end(s, i_here)] == '\0') {
                    lemma_read_token_bounds(s, ws_end(s, i_here));
                    lemma_read_token_type_not_eof(s, ws_end(s, i_here));
                }
            }
            if token.token_type == token_types::EOF {
                self.tokens.push(token.clone());
                self.tokens.push(token.clone());
                self.tokens.push(token);
                proof {
                    assert(self.tokens@ =~= before_tokens + spec_scan(s, i_here).tokens);
                    assert(old(self).tokens@ + spec_scan(s, i0).tokens =~= self.tokens@);
                    assert(old(self).new_lines@ + spec_scan(s, i0).new_lines =~= self.new_lines@);
                }
                done = true;
            } else {
                self.tokens.push(token);
                proof {
                    let j = ws_end(s, i_here);
                    let end = read_token_at(s, j).0;
                    assert(spec_scan(s, i_here).tokens =~= seq![token] + spec_scan(s, end).tokens);
                    assert(before_tokens + spec_scan(s, i_here).tokens =~= self.tokens@
                        + spec_scan(s, end).tokens);
                    assert(before_nl + spec_scan(s, i_here).new_lines =~= self.new_lines@
                        + spec_scan(s, end).new_lines);
                }
            }
        }
    }
}

/// Whether the character at `i` continues an identifier, looking one
/// character ahead.
fn ident_part_at(chars: &Vec<char>, i: usize) -> (r: bool)
    requires
        i < chars@.len(),
    ensures
        r == is_identifier_part_char(chars@[i as int], char_at(chars@, i as int + 1)),
{
    let n = chars.len();
    let c = chars[i];
    let c_next = if i + 1 < n {
        chars[i + 1]
    } else {
        '\0'
    };
    is_identifier_part(c, c_next)
}

/// No token read mid-input is an end-of-file token.
proof fn lemma_read_token_type_not_eof(s: Seq<char>, i: int)
    requires
        0 <= i < s.len(),
    ensures
        read_token_at(s, i).1 != token_types::EOF,
{
    lemma_dq_end_bounds(s, i + 1);
    lemma_sq_end_bounds(s, i + 1);
}

/// Compares a stretch of characters with a fixed spelling.
#[verifier::loop_isolation(false)]
fn text_is(chars: &Vec<char>, start: usize, end: usize, spelling: &str) -> (r: bool)
    requires
        start <= end <= chars@.len(),
    ensures
        r == (chars@.subrange(start as int, end as int) == spelling@),
{
    let ghost text = chars@.subrange(start as int, end as int);
    let n = spelling.unicode_len();
    if n != end - start {
        return false;
    }
    let mut k: usize = 0;
    while k < n
        invariant
            k <= n,
            n == spelling@.len(),
            n == end - start,
            start <= end <= chars@.len(),
            forall|j: int| 0 <= j < k ==> text[j] == spelling@[j],
        decreases n - k,
    {
        if chars[start + k] != spelling.get_char(k) {
            proof {
                assert(text[k as int] != spelling@[k as int]);
            }
            return false;
        }
        k = k + 1;
    }
    proof {
        assert(text =~= spelling@);
    }
    true
}

/// Looks an identifier's text up in the keyword table, then in the set of
/// built-in type names.
fn keyword_or_builtin(chars: &Vec<char>, start: usize, end: usize) -> (t: u16)
    requires
        start <= end <= chars@.len(),
    ensures
        t == keyword_or_type(chars@.subrange(start as int, end as int)),
{
    if text_is(chars, start, end, "and") {
        token_types::AND
    } else if text_is(chars, start, end, "as") {
        token_types::AS
    } else if text_is(chars, start, end, "false") {
        token_types::FALSE
    } else if text_is(chars, start, end, "in") {
        token_types::IN
    } else if text_is(chars, start, end, "is") {
        token_types::IS
    } else if text_is(chars, start, end, "not") {
        token_types::NOT
    } else if text_is(chars, start, end, "or") {
        token_types::OR
    } else if text_is(chars, start, end, "true") {
        token_types::TRUE
    } else if text_is(chars, start, end, "when") {
        token_types::WHEN
    } else if text_is(chars, start, end, "where") {
        token_types::WHERE
    } else if text_is(chars, start, end, "Bool") || text_is(chars, start, end, "Float64")
        || text_is(chars, start, end, "Int64") || text_is(chars, start, end, "String") {
        token_types::BUILT_IN_TYPE
    } else {
        token_types::IDENTIFIER
    }
}

/// The token stream from any position ends with exactly three end-of-file
/// tokens: the last three tokens are equal end-of-file sentinels, and no
/// earlier token is an end-of-file token.
pub proof fn lemma_scan_eof_tail(s: Seq<char>, i: int)
    requires
        0 <= i <= s.len(),
    ensures
        spec_scan(s, i).tokens.len() >= 3,
        forall|k: int|
            spec_scan(s, i).tokens.len() - 3 <= k < spec_scan(s, i).tokens.len()
                ==> #[trigger] spec_scan(s, i).tokens[k] == spec_scan(s, i).tokens[spec_scan(
                s,
                i,
            ).tokens.len() - 1],
        forall|k: int|
            spec_scan(s, i).tokens.len() - 3 <= k < spec_scan(s, i).tokens.len()
                ==> #[trigger] spec_scan(s, i).tokens[k].token_type == token_types::EOF,
        forall|k: int|
            0 <= k < spec_scan(s, i).tokens.len() - 3
                ==> #[trigger] spec_scan(s, i).tokens[k].token_type != token_types::EOF,
    decreases s.len() - i,
{
    lemma_ws_end_bounds(s, i);
    let j = ws_end(s, i);
    if j >= s.len() || s[j] == '\0' {
    } else {
        lemma_read_token_bounds(s, j);
        lemma_read_token_type_not_eof(s, j);
        lemma_scan_eof_tail(s, read_token_at(s, j).0);
    }
}

/// A reported newline offset is exactly the byte offset of a line-feed
/// character with index in `a..b`.
pub proof fn lemma_nl_off_members(s: Seq<char>, a: int, b: int)
    requires
        0 <= a,
        b <= s.len(),
        byte_len(s) <= u32::MAX,
    ensures
        forall|o: u32|
            #[trigger] nl_off(s, a, b).contains(o) <==> exists|p: int|
                a <= p < b && #[trigger] char_at(s, p) == '\n' && byte_off(s, p) == o,
    decreases b - a,
{
    if a >= b {
        assert forall|o: u32| !nl_off(s, a, b).contains(o) by {
            assert(nl_off(s, a, b) =~= Seq::<u32>::empty());
        }
    } else {
        lemma_nl_off_members(s, a + 1, b);
        assert forall|o: u32| #[trigger] nl_off(s, a, b).contains(o) implies exists|p: int|
            a <= p < b && #[trigger] char_at(s, p) == '\n' && byte_off(s, p) == o by {
            let head = if char_at(s, a) == '\n' {
                seq![byte_off(s, a) as u32]
            } else {
                seq![]
            };
            let k = choose|k: int| 0 <= k < nl_off(s, a, b).len() && #[trigger] nl_off(s, a, b)[k] == o;
            if k < head.len() {
                assert(char_at(s, a) == '\n' && byte_off(s, a) as u32 == o);
                lemma_byte_off_mono(s, 0, a);
                lemma_byte_off_mono(s, a, s.len() as int);
                lemma_byte_off_at_ends(s);
                assert(byte_off(s, a) == byte_off(s, a) as u32);
            } else {
                assert(nl_off(s, a + 1, b)[k - head.len()] == o);
                assert(nl_off(s, a + 1, b).contains(o));
            }
        }
        assert forall|o: u32|
            (exists|p: int| a <= p < b && #[trigger] char_at(s, p) == '\n' && byte_off(s, p) == o) implies #[trigger] nl_off(
            s,
            a,
            b,
        ).contains(o) by {
            let p = choose|p: int| a <= p < b && #[trigger] char_at(s, p) == '\n' && byte_off(s, p) == o;
            if p == a {
                assert(nl_off(s, a, b)[0] == o);
            } else {
                assert(nl_off(s, a + 1, b).contains(o));
                let k = choose|k: int|
                    0 <= k < nl_off(s, a + 1, b).len() && #[trigger] nl_off(s, a + 1, b)[k] == o;
                let head = if char_at(s, a) == '\n' {
                    seq![byte_off(s, a) as u32]
                } else {
                    seq![]
                };
                assert(nl_off(s, a, b)[k + head.len()] == o);
            }
        }
    }
}

/// On a source without NUL characters, the scan reports newline offsets for
/// the whole input: the reported offsets are exactly the byte offsets of the
/// line-feed characters of the source.
pub proof fn lemma_scan_newline_offsets(s: Seq<char>, i: int)
    requires
        0 <= i <= s.len(),
        byte_len(s) <= u32::MAX,
        forall|k: int| 0 <= k < s.len() ==> s[k] != '\0',
    ensures
        spec_scan(s, i).new_lines == nl_off(s, i, s.len() as int),
        forall|o: u32|
            #[trigger] spec_scan(s, i).new_lines.contains(o) <==> exists|p: int|
                i <= p < s.len() && #[trigger] char_at(s, p) == '\n' && byte_off(s, p) == o,
    decreases s.len() - i,
{
    lemma_ws_end_bounds(s, i);
    let j = ws_end(s, i);
    if j >= s.len() || s[j] == '\0' {
        assert(j == s.len());
        assert(spec_scan(s, i).new_lines == nl_off(s, i, s.len() as int));
    } else {
        lemma_read_token_bounds(s, j);
        let end = read_token_at(s, j).0;
        lemma_scan_newline_offsets(s, end);
        lemma_nl_off_split(s, i, end, s.len() as int);
        assert(spec_scan(s, i).new_lines =~= nl_off(s, i, s.len() as int));
    }
    lemma_nl_off_members(s, i, s.len() as int);
}

/// Every token of a scan lies within the source: its byte offset plus its
/// byte length never passes the end of the source text.
pub proof fn lemma_scan_tokens_in_bounds(s: Seq<char>, i: int)
    requires
        0 <= i <= s.len(),
        byte_len(s) <= u32::MAX,
    ensures
        forall|k: int|
            0 <= k < spec_scan(s, i).tokens.len() ==> #[trigger] spec_scan(
                s,
                i,
            ).tokens[k].source_offset + spec_scan(s, i).tokens[k].source_length <= byte_len(s),
    decreases s.len() - i,
{
    lemma_ws_end_bounds(s, i);
    lemma_byte_off_at_ends(s);
    let j = ws_end(s, i);
    if j >= s.len() || s[j] == '\0' {
        lemma_byte_off_mono(s, j, s.len() as int);
        lemma_byte_off_mono(s, 0, j);
    } else {
        lemma_read_token_bounds(s, j);
        let end = read_token_at(s, j).0;
        lemma_scan_tokens_in_bounds(s, end);
        lemma_byte_off_mono(s, 0, j);
        lemma_byte_off_mono(s, j, end);
        lemma_byte_off_mono(s, end, s.len() as int);
        let tok = token_at(s, j, end, read_token_at(s, j).1);
        assert(tok.source_offset + tok.source_length <= byte_len(s)) by {
            let l = byte_off(s, end) - byte_off(s, j);
            assert(tok.source_length == l as u16);
            assert(0 <= l <= u32::MAX);
            let lu = l as u32;
            assert(lu as u16 <= lu) by (bit_vector);
            assert(l as u16 == lu as u16);
        }
        assert forall|k: int| 0 <= k < spec_scan(s, i).tokens.len() implies #[trigger] spec_scan(
            s,
            i,
        ).tokens[k].source_offset + spec_scan(s, i).tokens[k].source_length <= byte_len(s) by {
            if k == 0 {
                assert(spec_scan(s, i).tokens[0] == tok);
            } else {
                assert(spec_scan(s, i).tokens[k] == spec_scan(s, end).tokens[k - 1]);
            }
        }
    }
}

/// Converts the given source code to an array of tokens plus an array of
/// newline character offsets.
pub fn scan(source_code: &str) -> (outcome: Outcome)
    requires
        byte_len(source_code@) + 3 <= u32::MAX,
    ensures
        outcome.source_code == source_code,
        shared_tokens(outcome.tokens) == spec_scan(source_code@, 0).tokens,
        shared_offsets(outcome.new_line_offsets) == spec_scan(source_code@, 0).new_lines,
{
    let chars = chars_vec(source_code);
    proof {
        lemma_byte_off_at_ends(chars@);
    }
    let mut scanner = Scanner {
        chars,
        i: 0,
        pos: 0,
        mark: 0,
        mark_idx: Ghost(0int),
        tokens: Vec::new(),
        new_lines: Vec::new(),
    };
    scanner.scan();
    proof {
        assert(scanner.tokens@ =~= spec_scan(source_code@, 0).tokens);
        assert(scanner.new_lines@ =~= spec_scan(source_code@, 0).new_lines);
        lemma_scan_token_count(source_code@, 0);
        lemma_scan_newline_count(source_code@, 0);
        crate::text::lemma_byte_off_mono(source_code@, 0, source_code@.len() as int);
        lemma_byte_off_at_ends(source_code@);
        assert(source_code@.len() <= byte_len(source_code@));
    }
    Outcome {
        source_code,
        tokens: SharedTokens::from_vec(&scanner.tokens),
        new_line_offsets: SharedOffsets::from_vec(&scanner.new_lines),
    }
}


/// There are at most as many newline offsets as characters looked at.
pub proof fn lemma_nl_off_count(s: Seq<char>, a: int, b: int)
    requires
        a <= b,
    ensures
        nl_off(s, a, b).len() <= b - a,
    decreases b - a,
{
    if a < b {
        lemma_nl_off_count(s, a + 1, b);
    }
}

/// A scan reports at most one newline offset per character.
pub proof fn lemma_scan_newline_count(s: Seq<char>, i: int)
    requires
        0 <= i <= s.len(),
    ensures
        spec_scan(s, i).new_lines.len() <= s.len() - i,
    decreases s.len() - i,
{
    lemma_ws_end_bounds(s, i);
    let j = ws_end(s, i);
    if j >= s.len() || s[j] == '\0' {
        lemma_nl_off_count(s, i, j);
    } else {
        lemma_read_token_bounds(s, j);
        let end = read_token_at(s, j).0;
        lemma_nl_off_count(s, i, end);
        lemma_scan_newline_count(s, end);
    }
}

/// A scan yields at most one token per character, plus the three
/// end-of-file sentinels.
pub proof fn lemma_scan_token_count(s: Seq<char>, i: int)
    requires
        0 <= i <= s.len(),
    ensures
        spec_scan(s, i).tokens.len() <= s.len() - i + 3,
    decreases s.len() - i,
{
    lemma_ws_end_bounds(s, i);
    let j = ws_end(s, i);
    if j >= s.len() || s[j] == '\0' {
    } else {
        lemma_read_token_bounds(s, j);
        lemma_scan_token_count(s, read_token_at(s, j).0);
    }
}

/// Token streams as the scanner emits them: every token's bounds fall on
/// character boundaries within the source, offsets never decrease from
/// token to token, and every token but the end-of-file sentinels covers at
/// least one byte.
pub open spec fn scan_stream_wf(tokens: Seq<Token>, s: Seq<char>) -> bool {
    &&& forall|k: int|
        0 <= k < tokens.len() ==> crate::text::is_byte_boundary(
            s,
            (#[trigger] tokens[k]).source_offset as int,
        )
    &&& forall|k: int|
        0 <= k < tokens.len() ==> crate::text::is_byte_boundary(
            s,
            (#[trigger] tokens[k]).source_offset + tokens[k].source_length,
        )
    &&& forall|k: int|
        0 <= k < tokens.len() ==> (#[trigger] tokens[k]).source_offset + tokens[k].source_length
            <= byte_len(s)
    &&& forall|k: int|
        0 <= k < tokens.len() - 1 ==> (#[trigger] tokens[k]).source_offset <= tokens[k
            + 1].source_offset
    &&& forall|k: int|
        0 <= k < tokens.len() && (#[trigger] tokens[k]).token_type != token_types::EOF
            ==> tokens[k].source_length >= 1
}

/// On sources of fewer than 65536 bytes — where no token length is
/// truncated — the scan's token stream is well-formed, and no token starts
/// before the position the scan started from.
pub proof fn lemma_scan_stream_wf(s: Seq<char>, i: int)
    requires
        0 <= i <= s.len(),
        byte_len(s) < 0x10000,
    ensures
        scan_stream_wf(spec_scan(s, i).tokens, s),
        forall|k: int|
            0 <= k < spec_scan(s, i).tokens.len() ==> #[trigger] spec_scan(
                s,
                i,
            ).tokens[k].source_offset >= byte_off(s, i),
    decreases s.len() - i,
{
    lemma_ws_end_bounds(s, i);
    lemma_byte_off_at_ends(s);
    let j = ws_end(s, i);
    lemma_byte_off_mono(s, i, j);
    let toks = spec_scan(s, i).tokens;
    if j >= s.len() || s[j] == '\0' {
        lemma_byte_off_mono(s, j, s.len() as int);
        assert forall|k: int| 0 <= k < toks.len() implies crate::text::is_byte_boundary(
            s,
            (#[trigger] toks[k]).source_offset as int,
        ) && crate::text::is_byte_boundary(
            s,
            (#[trigger] toks[k]).source_offset + toks[k].source_length,
        ) by {
            assert(toks[k] == token_at(s, j, j, token_types::EOF));
            assert(byte_off(s, j) == toks[k].source_offset as int);
        }
    } else {
        lemma_read_token_bounds(s, j);
        lemma_read_token_type_not_eof(s, j);
        let end = read_token_at(s, j).0;
        lemma_scan_stream_wf(s, end);
        lemma_byte_off_mono(s, j, end);
        lemma_byte_off_mono(s, end, s.len() as int);
        let head = token_at(s, j, end, read_token_at(s, j).1);
        let rest = spec_scan(s, end).tokens;
        assert(head.source_offset == byte_off(s, j));
        assert(head.source_length == (byte_off(s, end) - byte_off(s, j)) as u16);
        assert(byte_off(s, end) - byte_off(s, j) < 0x10000);
        assert(head.source_length == byte_off(s, end) - byte_off(s, j));
        assert(head.source_offset + head.source_length == byte_off(s, end));
        assert(crate::text::is_byte_boundary(s, byte_off(s, j) as int));
        assert(crate::text::is_byte_boundary(s, byte_off(s, end) as int));
        assert forall|k: int| 0 <= k < toks.len() implies #[trigger] toks[k].source_offset
            >= byte_off(s, i) by {
            if k == 0 {
                assert(toks[k] == head);
            } else {
                assert(toks[k] == rest[k - 1]);
                assert(rest[k - 1].source_offset >= byte_off(s, end));
            }
        }
        assert forall|k: int| 0 <= k < toks.len() implies crate::text::is_byte_boundary(
            s,
            (#[trigger] toks[k]).source_offset as int,
        ) && crate::text::is_byte_boundary(
            s,
            (#[trigger] toks[k]).source_offset + toks[k].source_length,
        ) && toks[k].source_offset + toks[k].source_length <= byte_len(s) && (toks[k].token_type
            != token_types::EOF ==> toks[k].source_length >= 1) by {
            if k == 0 {
                assert(toks[k] == head);
            } else {
                assert(toks[k] == rest[k - 1]);
            }
        }
        assert forall|k: int| 0 <= k < toks.len() - 1 implies (#[trigger] toks[k]).source_offset
            <= toks[k + 1].source_offset by {
            if k == 0 {
                assert(toks[0] == head);
                assert(toks[1] == rest[0]);
                assert(rest[0].source_offset >= byte_off(s, end));
            } else {
                assert(toks[k] == rest[k - 1]);
                assert(toks[k + 1] == rest[k]);
            }
        }
    }
}


/// The byte offset of each character of an ASCII-only sequence is its
/// index.
pub proof fn lemma_ascii_byte_off(s: Seq<char>, i: int)
    requires
        0 <= i <= s.len(),
        forall|k: int| 0 <= k < s.len() ==> #[trigger] (s[k] as u32) < 0x80,
    ensures
        byte_off(s, i) == i,
    decreases i,
{
    if i == 0 {
        lemma_byte_off_at_ends(s);
        assert(s.take(0) =~= Seq::<char>::empty());
    } else {
        lemma_ascii_byte_off(s, i - 1);
        lemma_byte_off_step(s, i - 1);
        lemma_char_size_bounds(s[i - 1]);
    }
}

/// Scanning a source made of one token's worth of printable ASCII yields
/// exactly that token and the three end-of-file sentinels.
pub proof fn lemma_single_token_scan(s: Seq<char>, t: u16)
    requires
        1 <= s.len() < 0x10000,
        forall|k: int| 0 <= k < s.len() ==> 0x21 <= #[trigger] (s[k] as u32) < 0x7f,
        read_token_at(s, 0) == (s.len() as int, t),
    ensures
        spec_scan(s, 0).tokens =~= seq![
            Token { source_offset: 0, source_length: s.len() as u16, token_type: t },
            Token {
                source_offset: s.len() as u32,
                source_length: 0,
                token_type: token_types::EOF,
            },
            Token {
                source_offset: s.len() as u32,
                source_length: 0,
                token_type: token_types::EOF,
            },
            Token {
                source_offset: s.len() as u32,
                source_length: 0,
                token_type: token_types::EOF,
            },
        ],
{
    lemma_ascii_byte_off(s, 0);
    lemma_ascii_byte_off(s, s.len() as int);
    assert(!spec_is_whitespace(s[0]));
    assert(ws_end(s, 0) == 0);
    assert(ws_end(s, s.len() as int) == s.len() as int);
    assert(spec_scan(s, s.len() as int).tokens =~= seq![
        token_at(s, s.len() as int, s.len() as int, token_types::EOF),
        token_at(s, s.len() as int, s.len() as int, token_types::EOF),
        token_at(s, s.len() as int, s.len() as int, token_types::EOF),
    ]);
    assert(token_at(s, 0, s.len() as int, t) == Token {
        source_offset: 0,
        source_length: s.len() as u16,
        token_type: t,
    });
}

/// Scanning the exact textual form of any fixed punctuation token yields
/// that token at offset zero with the text's byte length, followed by the
/// three end-of-file sentinels.
#[verifier::rlimit(100)]
pub proof fn lemma_fixed_punctuation_scan(t: u16)
    requires
        token_types::AMPERSAND <= t <= token_types::VERTICAL_BAR,
    ensures
        spec_scan(token_text(t), 0).tokens =~= seq![
            Token {
                source_offset: 0,
                source_length: token_text(t).len() as u16,
                token_type: t,
            },
            Token {
                source_offset: token_text(t).len() as u32,
                source_length: 0,
                token_type: token_types::EOF,
            },
            Token {
                source_offset: token_text(t).len() as u32,
                source_length: 0,
                token_type: token_types::EOF,
            },
            Token {
                source_offset: token_text(t).len() as u32,
                source_length: 0,
                token_type: token_types::EOF,
            },
        ],
{
    if t == token_types::AMPERSAND {
        reveal_strlit("&");
        let s = token_text(t);
        assert(s.len() == 1);
        assert(s[0] == '&');
        assert(forall|k: int| 0 <= k < s.len() ==> 0x21 <= #[trigger] (s[k] as u32) < 0x7f);
        assert(read_token_at(s, 0) == (1int, t));
        lemma_single_token_scan(s, t);
    }
    if t == token_types::AMPERSAND_AMPERSAND {
        reveal_strlit("&&");
        let s = token_text(t);
        assert(s.len() == 2);
        assert(s[0] == '&');
        assert(s[1] == '&');
        assert(forall|k: int| 0 <= k < s.len() ==> 0x21 <= #[trigger] (s[k] as u32) < 0x7f);
        assert(read_token_at(s, 0) == (2int, t));
        lemma_single_token_scan(s, t);
    }
    if t == token_types::ASTERISK {
        reveal_strlit("*");
        let s = token_text(t);
        assert(s.len() == 1);
        assert(s[0] == '*');
        assert(forall|k: int| 0 <= k < s.len() ==> 0x21 <= #[trigger] (s[k] as u32) < 0x7f);
        assert(read_token_at(s, 0) == (1int, t));
        lemma_single_token_scan(s, t);
    }
    if t == token_types::COLON {
        reveal_strlit(":");
        let s = token_text(t);
        assert(s.len() == 1);
        assert(s[0] == ':');
        assert(forall|k: int| 0 <= k < s.len() ==> 0x21 <= #[trigger] (s[k] as u32) < 0x7f);
        assert(read_token_at(s, 0) == (1int, t));
        lemma_single_token_scan(s, t);
    }
    if t == token_types::COMMA {
        reveal_strlit(",");
        let s = token_text(t);
        assert(s.len() == 1);
        assert(s[0] == ',');
        assert(forall|k: int| 0 <= k < s.len() ==> 0x21 <= #[trigger] (s[k] as u32) < 0x7f);
        assert(read_token_at(s, 0) == (1int, t));
        lemma_single_token_scan(s, t);
    }
    if t == token_types::DASH {
        reveal_strlit("-");
        let s = token_text(t);
        assert(s.len() == 1);
        assert(s[0] == '-');
        assert(forall|k: int| 0 <= k < s.len() ==> 0x21 <= #[trigger] (s[k] as u32) < 0x7f);
        assert(read_token_at(s, 0) == (1int, t));
        lemma_single_token_scan(s, t);
    }
    if t == token_types::DOT {
        reveal_strlit(".");
        let s = token_text(t);
        assert(s.len() == 1);
        assert(s[0] == '.');
        assert(forall|k: int| 0 <= k < s.len() ==> 0x21 <= #[trigger] (s[k] as u32) < 0x7f);
        assert(read_token_at(s, 0) == (1int, t));
        lemma_single_token_scan(s, t);
    }
    if t == token_types::DOT_DOT {
        reveal_strlit("..");
        let s = token_text(t);
        assert(s.len() == 2);
        assert(s[0] == '.');
        assert(s[1] == '.');
        assert(forall|k: int| 0 <= k < s.len() ==> 0x21 <= #[trigger] (s[k] as u32) < 0x7f);
        assert(read_token_at(s, 0) == (2int, t));
        lemma_single_token_scan(s, t);
    }
    if t == token_types::DOT_DOT_DOT {
        reveal_strlit("...");
        let s = token_text(t);
        assert(s.len() == 3);
        assert(s[0] == '.');
        assert(s[1] == '.');
        assert(s[2] == '.');
        assert(forall|k: int| 0 <= k < s.len() ==> 0x21 <= #[trigger] (s[k] as u32) < 0x7f);
        assert(read_token_at(s, 0) == (3int, t));
        lemma_single_token_scan(s, t);
    }
    if t == token_types::EQUALS {
        reveal_strlit("=");
        let s = token_text(t);
        assert(s.len() == 1);
        assert(s[0] == '=');
        assert(forall|k: int| 0 <= k < s.len() ==> 0x21 <= #[trigger] (s[k] as u32) < 0x7f);
        assert(read_token_at(s, 0) == (1int, t));
        lemma_single_token_scan(s, t);
    }
    if t == token_types::EQUALS_EQUALS {
        reveal_strlit("==");
        let s = token_text(t);
        assert(s.len() == 2);
        assert(s[0] == '=');
        assert(s[1] == '=');
        assert(forall|k: int| 0 <= k < s.len() ==> 0x21 <= #[trigger] (s[k] as u32) < 0x7f);
        assert(read_token_at(s, 0) == (2int, t));
        lemma_single_token_scan(s, t);
    }
    if t == token_types::EQUALS_EQUALS_EQUALS {
        reveal_strlit("===");
        let s = token_text(t);
        assert(s.len() == 3);
        assert(s[0] == '=');
        assert(s[1] == '=');
        assert(s[2] == '=');
        assert(forall|k: int| 0 <= k < s.len() ==> 0x21 <= #[trigger] (s[k] as u32) < 0x7f);
        assert(read_token_at(s, 0) == (3int, t));
        lemma_single_token_scan(s, t);
    }
    if t == token_types::EQUALS_TILDE {
        reveal_strlit("=~");
        let s = token_text(t);
        assert(s.len() == 2);
        assert(s[0] == '=');
        assert(s[1] == '~');
        assert(forall|k: int| 0 <= k < s.len() ==> 0x21 <= #[trigger] (s[k] as u32) < 0x7f);
        assert(read_token_at(s, 0) == (2int, t));
        lemma_single_token_scan(s, t);
    }
    if t == token_types::EXCLAMATION {
        reveal_strlit("!");
        let s = token_text(t);
        assert(s.len() == 1);
        assert(s[0] == '!');
        assert(forall|k: int| 0 <= k < s.len() ==> 0x21 <= #[trigger] (s[k] as u32) < 0x7f);
        assert(read_token_at(s, 0) == (1int, t));
        lemma_single_token_scan(s, t);
    }
    if t == token_types::EXCLAMATION_EQUALS {
        reveal_strlit("!=");
        let s = token_text(t);
        assert(s.len() == 2);
        assert(s[0] == '!');
        assert(s[1] == '=');
        assert(forall|k: int| 0 <= k < s.len() ==> 0x21 <= #[trigger] (s[k] as u32) < 0x7f);
        assert(read_token_at(s, 0) == (2int, t));
        lemma_single_token_scan(s, t);
    }
    if t == token_types::EXCLAMATION_TILDE {
        reveal_strlit("!~");
        let s = token_text(t);
        assert(s.len() == 2);
        assert(s[0] == '!');
        assert(s[1] == '~');
        assert(forall|k: int| 0 <= k < s.len() ==> 0x21 <= #[trigger] (s[k] as u32) < 0x7f);
        assert(read_token_at(s, 0) == (2int, t));
        lemma_single_token_scan(s, t);
    }
    if t == token_types::GREATER_THAN {
        reveal_strlit(">");
        let s = token_text(t);
        assert(s.len() == 1);
        assert(s[0] == '>');
        assert(forall|k: int| 0 <= k < s.len() ==> 0x21 <= #[trigger] (s[k] as u32) < 0x7f);
        assert(read_token_at(s, 0) == (1int, t));
        lemma_single_token_scan(s, t);
    }
    if t == token_types::GREATER_THAN_OR_EQUALS {
        reveal_strlit(">=");
        let s = token_text(t);
        assert(s.len() == 2);
        assert(s[0] == '>');
        assert(s[1] == '=');
        assert(forall|k: int| 0 <= k < s.len() ==> 0x21 <= #[trigger] (s[k] as u32) < 0x7f);
        assert(read_token_at(s, 0) == (2int, t));
        lemma_single_token_scan(s, t);
    }
    if t == token_types::LEFT_BRACE {
        reveal_strlit("{");
        let s = token_text(t);
        assert(s.len() == 1);
        assert(s[0] == '{');
        assert(forall|k: int| 0 <= k < s.len() ==> 0x21 <= #[trigger] (s[k] as u32) < 0x7f);
        assert(read_token_at(s, 0) == (1int, t));
        lemma_single_token_scan(s, t);
    }
    if t == token_types::LEFT_BRACKET {
        reveal_strlit("[");
        let s = token_text(t);
        assert(s.len() == 1);
        assert(s[0] == '[');
        assert(forall|k: int| 0 <= k < s.len() ==> 0x21 <= #[trigger] (s[k] as u32) < 0x7f);
        assert(read_token_at(s, 0) == (1int, t));
        lemma_single_token_scan(s, t);
    }
    if t == token_types::LEFT_PARENTHESIS {
        reveal_strlit("(");
        let s = token_text(t);
        assert(s.len() == 1);
        assert(s[0] == '(');
        assert(forall|k: int| 0 <= k < s.len() ==> 0x21 <= #[trigger] (s[k] as u32) < 0x7f);
        assert(read_token_at(s, 0) == (1int, t));
        lemma_single_token_scan(s, t);
    }
    if t == token_types::LESS_THAN {
        reveal_strlit("<");
        let s = token_text(t);
        assert(s.len() == 1);
        assert(s[0] == '<');
        assert(forall|k: int| 0 <= k < s.len() ==> 0x21 <= #[trigger] (s[k] as u32) < 0x7f);
        assert(read_token_at(s, 0) == (1int, t));
        lemma_single_token_scan(s, t);
    }
    if t == token_types::LESS_THAN_OR_EQUALS {
        reveal_strlit("<=");
        let s = token_text(t);
        assert(s.len() == 2);
        assert(s[0] == '<');
        assert(s[1] == '=');
        assert(forall|k: int| 0 <= k < s.len() ==> 0x21 <= #[trigger] (s[k] as u32) < 0x7f);
        assert(read_token_at(s, 0) == (2int, t));
        lemma_single_token_scan(s, t);
    }
    if t == token_types::PLUS {
        reveal_strlit("+");
        let s = token_text(t);
        assert(s.len() == 1);
        assert(s[0] == '+');
        assert(forall|k: int| 0 <= k < s.len() ==> 0x21 <= #[trigger] (s[k] as u32) < 0x7f);
        assert(read_token_at(s, 0) == (1int, t));
        lemma_single_token_scan(s, t);
    }
    if t == token_types::QUESTION {
        reveal_strlit("?");
        let s = token_text(t);
        assert(s.len() == 1);
        assert(s[0] == '?');
        assert(forall|k: int| 0 <= k < s.len() ==> 0x21 <= #[trigger] (s[k] as u32) < 0x7f);
        assert(read_token_at(s, 0) == (1int, t));
        lemma_single_token_scan(s, t);
    }
    if t == token_types::QUESTION_COLON {
        reveal_strlit("?:");
        let s = token_text(t);
        assert(s.len() == 2);
        assert(s[0] == '?');
        assert(s[1] == ':');
        assert(forall|k: int| 0 <= k < s.len() ==> 0x21 <= #[trigger] (s[k] as u32) < 0x7f);
        assert(read_token_at(s, 0) == (2int, t));
        lemma_single_token_scan(s, t);
    }
    if t == token_types::RIGHT_ARROW {
        reveal_strlit("->");
        let s = token_text(t);
        assert(s.len() == 2);
        assert(s[0] == '-');
        assert(s[1] == '>');
        assert(forall|k: int| 0 <= k < s.len() ==> 0x21 <= #[trigger] (s[k] as u32) < 0x7f);
        assert(read_token_at(s, 0) == (2int, t));
        lemma_single_token_scan(s, t);
    }
    if t == token_types::RIGHT_BRACE {
        reveal_strlit("}");
        let s = token_text(t);
        assert(s.len() == 1);
        assert(s[0] == '}');
        assert(forall|k: int| 0 <= k < s.len() ==> 0x21 <= #[trigger] (s[k] as u32) < 0x7f);
        assert(read_token_at(s, 0) == (1int, t));
        lemma_single_token_scan(s, t);
    }
    if t == token_types::RIGHT_BRACKET {
        reveal_strlit("]");
        let s = token_text(t);
        assert(s.len() == 1);
        assert(s[0] == ']');
        assert(forall|k: int| 0 <= k < s.len() ==> 0x21 <= #[trigger] (s[k] as u32) < 0x7f);
        assert(read_token_at(s, 0) == (1int, t));
        lemma_single_token_scan(s, t);
    }
    if t == token_types::RIGHT_PARENTHESIS {
        reveal_strlit(")");
        let s = token_text(t);
        assert(s.len() == 1);
        assert(s[0] == ')');
        assert(forall|k: int| 0 <= k < s.len() ==> 0x21 <= #[trigger] (s[k] as u32) < 0x7f);
        assert(read_token_at(s, 0) == (1int, t));
        lemma_single_token_scan(s, t);
    }
    if t == token_types::SEMICOLON {
        reveal_strlit(";");
        let s = token_text(t);
        assert(s.len() == 1);
        assert(s[0] == ';');
        assert(forall|k: int| 0 <= k < s.len() ==> 0x21 <= #[trigger] (s[k] as u32) < 0x7f);
        assert(read_token_at(s, 0) == (1int, t));
        lemma_single_token_scan(s, t);
    }
    if t == token_types::SLASH {
        reveal_strlit("/");
        let s = token_text(t);
        assert(s.len() == 1);
        assert(s[0] == '/');
        assert(forall|k: int| 0 <= k < s.len() ==> 0x21 <= #[trigger] (s[k] as u32) < 0x7f);
        assert(read_token_at(s, 0) == (1int, t));
        lemma_single_token_scan(s, t);
    }
    if t == token_types::VERTICAL_BAR {
        reveal_strlit("|");
        let s = token_text(t);
        assert(s.len() == 1);
        assert(s[0] == '|');
        assert(forall|k: int| 0 <= k < s.len() ==> 0x21 <= #[trigger] (s[k] as u32) < 0x7f);
        assert(read_token_at(s, 0) == (1int, t));
        lemma_single_token_scan(s, t);
    }
}

/// Scanning the exact textual form of any keyword yields that keyword
/// token at offset zero with the text's byte length, followed by the three
/// end-of-file sentinels.
#[verifier::rlimit(100)]
pub proof fn lemma_keyword_scan(t: u16)
    requires
        token_types::AND <= t <= token_types::WHERE,
    ensures
        spec_scan(token_text(t), 0).tokens =~= seq![
            Token {
                source_offset: 0,
                source_length: token_text(t).len() as u16,
                token_type: t,
            },
            Token {
                source_offset: token_text(t).len() as u32,
                source_length: 0,
                token_type: token_types::EOF,
            },
            Token {
                source_offset: token_text(t).len() as u32,
                source_length: 0,
                token_type: token_types::EOF,
            },
            Token {
                source_offset: token_text(t).len() as u32,
                source_length: 0,
                token_type: token_types::EOF,
            },
        ],
{
    if t == token_types::AND {
        reveal_strlit("and");
        reveal_strlit("as");
        reveal_strlit("false");
        reveal_strlit("in");
        reveal_strlit("is");
        reveal_strlit("not");
        reveal_strlit("or");
        reveal_strlit("true");
        reveal_strlit("when");
        reveal_strlit("where");
        reveal_strlit("Bool");
        reveal_strlit("Float64");
        reveal_strlit("Int64");
        reveal_strlit("String");
        let s = token_text(t);
        assert(s.len() == 3);
        assert(s[0] == 'a');
        assert(s[1] == 'n');
        assert(s[2] == 'd');
        assert(forall|k: int| 0 <= k < s.len() ==> 0x21 <= #[trigger] (s[k] as u32) < 0x7f);
        assert(ident_end(s, 1) == 3) by {
            reveal_with_fuel(ident_end, 5);
        }
        assert(s.subrange(0, 3) =~= s);
        assert(keyword_or_type(s.subrange(0, 3)) == t);
        assert(read_token_at(s, 0) == (3int, t));
        lemma_single_token_scan(s, t);
    }
    if t == token_types::AS {
        reveal_strlit("as");
        reveal_strlit("and");
        reveal_strlit("false");
        reveal_strlit("in");
        reveal_strlit("is");
        reveal_strlit("not");
        reveal_strlit("or");
        reveal_strlit("true");
        reveal_strlit("when");
        reveal_strlit("where");
        reveal_strlit("Bool");
        reveal_strlit("Float64");
        reveal_strlit("Int64");
        reveal_strlit("String");
        let s = token_text(t);
        assert(s.len() == 2);
        assert(s[0] == 'a');
        assert(s[1] == 's');
        assert(forall|k: int| 0 <= k < s.len() ==> 0x21 <= #[trigger] (s[k] as u32) < 0x7f);
        assert(ident_end(s, 1) == 2) by {
            reveal_with_fuel(ident_end, 4);
        }
        assert(s.subrange(0, 2) =~= s);
        assert(keyword_or_type(s.subrange(0, 2)) == t);
        assert(read_token_at(s, 0) == (2int, t));
        lemma_single_token_scan(s, t);
    }
    if t == token_types::FALSE {
        reveal_strlit("false");
        reveal_strlit("and");
        reveal_strlit("as");
        reveal_strlit("in");
        reveal_strlit("is");
        reveal_strlit("not");
        reveal_strlit("or");
        reveal_strlit("true");
        reveal_strlit("when");
        reveal_strlit("where");
        reveal_strlit("Bool");
        reveal_strlit("Float64");
        reveal_strlit("Int64");
        reveal_strlit("String");
        let s = token_text(t);
        assert(s.len() == 5);
        assert(s[0] == 'f');
        assert(s[1] == 'a');
        assert(s[2] == 'l');
        assert(s[3] == 's');
        assert(s[4] == 'e');
        assert(forall|k: int| 0 <= k < s.len() ==> 0x21 <= #[trigger] (s[k] as u32) < 0x7f);
        assert(ident_end(s, 1) == 5) by {
            reveal_with_fuel(ident_end, 7);
        }
        assert(s.subrange(0, 5) =~= s);
        assert(keyword_or_type(s.subrange(0, 5)) == t);
        assert(read_token_at(s, 0) == (5int, t));
        lemma_single_token_scan(s, t);
    }
    if t == token_types::IN {
        reveal_strlit("in");
        reveal_strlit("and");
        reveal_strlit("as");
        reveal_strlit("false");
        reveal_strlit("is");
        reveal_strlit("not");
        reveal_strlit("or");
        reveal_strlit("true");
        reveal_strlit("when");
        reveal_strlit("where");
        reveal_strlit("Bool");
        reveal_strlit("Float64");
        reveal_strlit("Int64");
        reveal_strlit("String");
        let s = token_text(t);
        assert(s.len() == 2);
        assert(s[0] == 'i');
        assert(s[1] == 'n');
        assert(forall|k: int| 0 <= k < s.len() ==> 0x21 <= #[trigger] (s[k] as u32) < 0x7f);
        assert(ident_end(s, 1) == 2) by {
            reveal_with_fuel(ident_end, 4);
        }
        assert(s.subrange(0, 2) =~= s);
        assert(keyword_or_type(s.subrange(0, 2)) == t);
        assert(read_token_at(s, 0) == (2int, t));
        lemma_single_token_scan(s, t);
    }
    if t == token_types::IS {
        reveal_strlit("is");
        reveal_strlit("and");
        reveal_strlit("as");
        reveal_strlit("false");
        reveal_strlit("in");
        reveal_strlit("not");
        reveal_strlit("or");
        reveal_strlit("true");
        reveal_strlit("when");
        reveal_strlit("where");
        reveal_strlit("Bool");
        reveal_strlit("Float64");
        reveal_strlit("Int64");
        reveal_strlit("String");
        let s = token_text(t);
        assert(s.len() == 2);
        assert(s[0] == 'i');
        assert(s[1] == 's');
        assert(forall|k: int| 0 <= k < s.len() ==> 0x21 <= #[trigger] (s[k] as u32) < 0x7f);
        assert(ident_end(s, 1) == 2) by {
            reveal_with_fuel(ident_end, 4);
        }
        assert(s.subrange(0, 2) =~= s);
        assert(keyword_or_type(s.subrange(0, 2)) == t);
        assert(read_token_at(s, 0) == (2int, t));
        lemma_single_token_scan(s, t);
    }
    if t == token_types::NOT {
        reveal_strlit("not");
        reveal_strlit("and");
        reveal_strlit("as");
        reveal_strlit("false");
        reveal_strlit("in");
        reveal_strlit("is");
        reveal_strlit("or");
        reveal_strlit("true");
        reveal_strlit("when");
        reveal_strlit("where");
        reveal_strlit("Bool");
        reveal_strlit("Float64");
        reveal_strlit("Int64");
        reveal_strlit("String");
        let s = token_text(t);
        assert(s.len() == 3);
        assert(s[0] == 'n');
        assert(s[1] == 'o');
        assert(s[2] == 't');
        assert(forall|k: int| 0 <= k < s.len() ==> 0x21 <= #[trigger] (s[k] as u32) < 0x7f);
        assert(ident_end(s, 1) == 3) by {
            reveal_with_fuel(ident_end, 5);
        }
        assert(s.subrange(0, 3) =~= s);
        assert(keyword_or_type(s.subrange(0, 3)) == t);
        assert(read_token_at(s, 0) == (3int, t));
        lemma_single_token_scan(s, t);
    }
    if t == token_types::OR {
        reveal_strlit("or");
        reveal_strlit("and");
        reveal_strlit("as");
        reveal_strlit("false");
        reveal_strlit("in");
        reveal_strlit("is");
        reveal_strlit("not");
        reveal_strlit("true");
        reveal_strlit("when");
        reveal_strlit("where");
        reveal_strlit("Bool");
        reveal_strlit("Float64");
        reveal_strlit("Int64");
        reveal_strlit("String");
        let s = token_text(t);
        assert(s.len() == 2);
        assert(s[0] == 'o');
        assert(s[1] == 'r');
        assert(forall|k: int| 0 <= k < s.len() ==> 0x21 <= #[trigger] (s[k] as u32) < 0x7f);
        assert(ident_end(s, 1) == 2) by {
            reveal_with_fuel(ident_end, 4);
        }
        assert(s.subrange(0, 2) =~= s);
        assert(keyword_or_type(s.subrange(0, 2)) == t);
        assert(read_token_at(s, 0) == (2int, t));
        lemma_single_token_scan(s, t);
    }
    if t == token_types::TRUE {
        reveal_strlit("true");
        reveal_strlit("and");
        reveal_strlit("as");
        reveal_strlit("false");
        reveal_strlit("in");
        reveal_strlit("is");
        reveal_strlit("not");
        reveal_strlit("or");
        reveal_strlit("when");
        reveal_strlit("where");
        reveal_strlit("Bool");
        reveal_strlit("Float64");
        reveal_strlit("Int64");
        reveal_strlit("String");
        let s = token_text(t);
        assert(s.len() == 4);
        assert(s[0] == 't');
        assert(s[1] == 'r');
        assert(s[2] == 'u');
        assert(s[3] == 'e');
        assert(forall|k: int| 0 <= k < s.len() ==> 0x21 <= #[trigger] (s[k] as u32) < 0x7f);
        assert(ident_end(s, 1) == 4) by {
            reveal_with_fuel(ident_end, 6);
        }
        assert(s.subrange(0, 4) =~= s);
        assert(keyword_or_type(s.subrange(0, 4)) == t);
        assert(read_token_at(s, 0) == (4int, t));
        lemma_single_token_scan(s, t);
    }
    if t == token_types::WHEN {
        reveal_strlit("when");
        reveal_strlit("and");
        reveal_strlit("as");
        reveal_strlit("false");
        reveal_strlit("in");
        reveal_strlit("is");
        reveal_strlit("not");
        reveal_strlit("or");
        reveal_strlit("true");
        reveal_strlit("where");
        reveal_strlit("Bool");
        reveal_strlit("Float64");
        reveal_strlit("Int64");
        reveal_strlit("String");
        let s = token_text(t);
        assert(s.len() == 4);
        assert(s[0] == 'w');
        assert(s[1] == 'h');
        assert(s[2] == 'e');
        assert(s[3] == 'n');
        assert(forall|k: int| 0 <= k < s.len() ==> 0x21 <= #[trigger] (s[k] as u32) < 0x7f);
        assert(ident_end(s, 1) == 4) by {
            reveal_with_fuel(ident_end, 6);
        }
        assert(s.subrange(0, 4) =~= s);
        assert(keyword_or_type(s.subrange(0, 4)) == t);
        assert(read_token_at(s, 0) == (4int, t));
        lemma_single_token_scan(s, t);
    }
    if t == token_types::WHERE {
        reveal_strlit("where");
        reveal_strlit("and");
        reveal_strlit("as");
        reveal_strlit("false");
        reveal_strlit("in");
        reveal_strlit("is");
        reveal_strlit("not");
        reveal_strlit("or");
        reveal_strlit("true");
        reveal_strlit("when");
        reveal_strlit("Bool");
        reveal_strlit("Float64");
        reveal_strlit("Int64");
        reveal_strlit("String");
        let s = token_text(t);
        assert(s.len() == 5);
        assert(s[0] == 'w');
        assert(s[1] == 'h');
        assert(s[2] == 'e');
        assert(s[3] == 'r');
        assert(s[4] == 'e');
        assert(forall|k: int| 0 <= k < s.len() ==> 0x21 <= #[trigger] (s[k] as u32) < 0x7f);
        assert(ident_end(s, 1) == 5) by {
            reveal_with_fuel(ident_end, 7);
        }
        assert(s.subrange(0, 5) =~= s);
        assert(keyword_or_type(s.subrange(0, 5)) == t);
        assert(read_token_at(s, 0) == (5int, t));
        lemma_single_token_scan(s, t);
    }
}

/// Scanning the exact textual form of any keyword or fixed punctuation
/// token yields that token at offset zero with the text's byte length,
/// followed by the three end-of-file sentinels.
pub proof fn lemma_fixed_text_scan(t: u16)
    requires
        token_types::AMPERSAND <= t <= token_types::WHERE,
    ensures
        spec_scan(token_text(t), 0).tokens =~= seq![
            Token {
                source_offset: 0,
                source_length: token_text(t).len() as u16,
                token_type: t,
            },
            Token {
                source_offset: token_text(t).len() as u32,
                source_length: 0,
                token_type: token_types::EOF,
            },
            Token {
                source_offset: token_text(t).len() as u32,
                source_length: 0,
                token_type: token_types::EOF,
            },
            Token {
                source_offset: token_text(t).len() as u32,
                source_length: 0,
                token_type: token_types::EOF,
            },
        ],
{
    if t <= token_types::VERTICAL_BAR {
        lemma_fixed_punctuation_scan(t);
    } else {
        lemma_keyword_scan(t);
    }
}

} // verus!
