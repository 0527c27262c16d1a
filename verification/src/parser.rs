//! Parser for Lligne code: a Pratt driver over the filtered token stream.
//!
//! `spec_parse` and its companions state, token by token, which expression
//! tree — or which error — parsing yields; the executable parser is proved
//! to produce exactly that.

use vstd::prelude::*;
use crate::expressions::{model_pos, model_positions_wf, models_of, Expr, ExprModel, StringDelimiters};
use crate::scanner;
use crate::shared_vec::{shared_offsets, shared_tokens, SharedOffsets};
use crate::source_pos::SourcePos;
use crate::text::{byte_len, byte_off, char_index_at, is_byte_boundary};
use crate::token_types;
use crate::tokens::Token;

verus! {

broadcast use vstd::std_specs::vec::group_vec_axioms, vstd::seq::group_seq_axioms;

/// Why parsing stopped: the structural surprises that are fatal to a parse.
#[derive(Debug, Clone, Copy, PartialEq, Eq, Structural)]
pub enum ParseError {
    /// A token that cannot open an expression stood where an expression was
    /// expected.
    UnexpectedToken { token_type: u16 },
    /// A parenthesized form or argument list was not closed.
    MissingRightParenthesis,
    /// A record was not closed.
    MissingRightBrace,
    /// An array literal was not closed.
    MissingRightBracket,
    /// An operator stood in the infix table without a construction rule.
    UnknownInfixOperator { token_type: u16 },
    /// An operator stood in the postfix table without a construction rule.
    UnknownPostfixOperator { token_type: u16 },
    /// An integer literal's text does not fit a 64-bit signed integer.
    InvalidIntegerLiteral,
    /// A floating point literal's text cannot be parsed as a 64-bit float.
    InvalidFloatingPointLiteral,
    /// Two source positions to be joined were not in order.
    PositionsOutOfOrder,
}

/// What parsing from one position yields: an expression and the position
/// just past it, or the error that stopped the parse.
pub enum ParseStep {
    Parsed { expr: ExprModel, next: int },
    Failed { error: ParseError },
}

/// What parsing a separated list yields.
pub enum ItemsStep {
    Parsed { items: Seq<ExprModel>, next: int },
    Failed { error: ParseError },
}

/// The left and right binding powers of an infix operator token, if any.
/// Each tier binds tighter than the one before; the asymmetric pair makes
/// the operators left-associative.
pub open spec fn spec_infix_binding_power(token_type: u16) -> Option<(u32, u32)> {
    if token_type == token_types::COLON || token_type == token_types::EQUALS || token_type
        == token_types::QUESTION_COLON {
        Some((1, 2))
    } else if token_type == token_types::AMPERSAND_AMPERSAND {
        Some((3, 4))
    } else if token_type == token_types::VERTICAL_BAR {
        Some((5, 6))
    } else if token_type == token_types::AMPERSAND {
        Some((7, 8))
    } else if token_type == token_types::WHEN || token_type == token_types::WHERE {
        Some((9, 10))
    } else if token_type == token_types::SYNTH_DOCUMENT {
        Some((11, 12))
    } else if token_type == token_types::OR {
        Some((13, 14))
    } else if token_type == token_types::AND {
        Some((15, 16))
    } else if token_type == token_types::EQUALS_EQUALS || token_type
        == token_types::EXCLAMATION_EQUALS || token_type == token_types::GREATER_THAN
        || token_type == token_types::GREATER_THAN_OR_EQUALS || token_type
        == token_types::LESS_THAN || token_type == token_types::LESS_THAN_OR_EQUALS {
        Some((19, 20))
    } else if token_type == token_types::IN || token_type == token_types::IS || token_type
        == token_types::EQUALS_TILDE || token_type == token_types::EXCLAMATION_TILDE {
        Some((21, 22))
    } else if token_type == token_types::DOT_DOT {
        Some((23, 24))
    } else if token_type == token_types::DASH || token_type == token_types::PLUS {
        Some((25, 26))
    } else if token_type == token_types::ASTERISK || token_type == token_types::SLASH {
        Some((27, 28))
    } else if token_type == token_types::RIGHT_ARROW {
        Some((31, 32))
    } else if token_type == token_types::DOT {
        Some((33, 34))
    } else {
        None
    }
}

/// The binding power of a prefix operator token, if any.
pub open spec fn spec_prefix_binding_power(token_type: u16) -> Option<u32> {
    if token_type == token_types::NOT {
        Some(17)
    } else if token_type == token_types::DASH {
        Some(29)
    } else {
        None
    }
}

/// The binding power of a postfix operator token, if any.
pub open spec fn spec_postfix_binding_power(token_type: u16) -> Option<u32> {
    if token_type == token_types::LEFT_PARENTHESIS || token_type == token_types::LEFT_BRACKET
        || token_type == token_types::QUESTION {
        Some(35)
    } else {
        None
    }
}

/// The left and right binding powers of an infix operator token, if any.
pub fn infix_binding_power(token_type: u16) -> (r: Option<(u32, u32)>)
    ensures
        r == spec_infix_binding_power(token_type),
{
    if token_type == token_types::COLON || token_type == token_types::EQUALS || token_type
        == token_types::QUESTION_COLON {
        Some((1, 2))
    } else if token_type == token_types::AMPERSAND_AMPERSAND {
        Some((3, 4))
    } else if token_type == token_types::VERTICAL_BAR {
        Some((5, 6))
    } else if token_type == token_types::AMPERSAND {
        Some((7, 8))
    } else if token_type == token_types::WHEN || token_type == token_types::WHERE {
        Some((9, 10))
    } else if token_type == token_types::SYNTH_DOCUMENT {
        Some((11, 12))
    } else if token_type == token_types::OR {
        Some((13, 14))
    } else if token_type == token_types::AND {
        Some((15, 16))
    } else if token_type == token_types::EQUALS_EQUALS || token_type
        == token_types::EXCLAMATION_EQUALS || token_type == token_types::GREATER_THAN
        || token_type == token_types::GREATER_THAN_OR_EQUALS || token_type
        == token_types::LESS_THAN || token_type == token_types::LESS_THAN_OR_EQUALS {
        Some((19, 20))
    } else if token_type == token_types::IN || token_type == token_types::IS || token_type
        == token_types::EQUALS_TILDE || token_type == token_types::EXCLAMATION_TILDE {
        Some((21, 22))
    } else if token_type == token_types::DOT_DOT {
        Some((23, 24))
    } else if token_type == token_types::DASH || token_type == token_types::PLUS {
        Some((25, 26))
    } else if token_type == token_types::ASTERISK || token_type == token_types::SLASH {
        Some((27, 28))
    } else if token_type == token_types::RIGHT_ARROW {
        Some((31, 32))
    } else if token_type == token_types::DOT {
        Some((33, 34))
    } else {
        None
    }
}

/// The binding power of a prefix operator token, if any.
pub fn prefix_binding_power(token_type: u16) -> (r: Option<u32>)
    ensures
        r == spec_prefix_binding_power(token_type),
{
    if token_type == token_types::NOT {
        Some(17)
    } else if token_type == token_types::DASH {
        Some(29)
    } else {
        None
    }
}

/// The binding power of a postfix operator token, if any.
pub fn postfix_binding_power(token_type: u16) -> (r: Option<u32>)
    ensures
        r == spec_postfix_binding_power(token_type),
{
    if token_type == token_types::LEFT_PARENTHESIS || token_type == token_types::LEFT_BRACKET
        || token_type == token_types::QUESTION {
        Some(35)
    } else {
        None
    }
}

/// The token at index `i`, or an end-of-file token for indices past the
/// end.
pub open spec fn tok(tokens: Seq<Token>, i: int) -> Token {
    if 0 <= i < tokens.len() {
        tokens[i]
    } else {
        Token { source_offset: 0, source_length: 0, token_type: token_types::EOF }
    }
}

/// The source position covering a token's bytes.
pub open spec fn pos_of(t: Token) -> SourcePos {
    SourcePos {
        start_offset: t.source_offset,
        end_offset: (t.source_offset + t.source_length) as u32,
    }
}

/// The position from the start of `a` to the end of `b`.
pub open spec fn span_of(a: SourcePos, b: SourcePos) -> SourcePos {
    SourcePos { start_offset: a.start_offset, end_offset: b.end_offset }
}

/// The characters of the source that a token covers.
pub open spec fn token_chars(s: Seq<char>, t: Token) -> Seq<char> {
    s.subrange(
        char_index_at(s, t.source_offset as int),
        char_index_at(s, t.source_offset + t.source_length),
    )
}

/// True when every character of the text is an ASCII digit.
pub open spec fn all_ascii_digits(text: Seq<char>) -> bool {
    forall|k: int| 0 <= k < text.len() ==> 0x30 <= #[trigger] (text[k] as u32) <= 0x39
}

/// True when every character of the text is ASCII.
pub open spec fn all_ascii(text: Seq<char>) -> bool {
    forall|k: int| 0 <= k < text.len() ==> #[trigger] (text[k] as u32) < 0x80
}

/// The numeric value of a text of decimal digits.
pub open spec fn digits_val(text: Seq<char>) -> int
    decreases text.len(),
{
    if text.len() == 0 {
        0
    } else {
        digits_val(text.drop_last()) * 10 + (text.last() as u32 - 0x30)
    }
}

/// What parsing an integer literal's text as a 64-bit signed integer
/// yields: the value where the text is all decimal digits and the value
/// fits, nothing otherwise. Integer literal tokens never carry a sign, so
/// only the upper bound can be exceeded.
pub open spec fn spec_parse_i64(text: Seq<char>) -> Option<i64> {
    if text.len() > 0 && all_ascii_digits(text) && digits_val(text) <= i64::MAX {
        Some(digits_val(text) as i64)
    } else {
        None
    }
}

/// The infix expression an operator token builds over two operands, or
/// nothing for a token outside the construction table. The position spans
/// the operands.
pub open spec fn spec_infix_expr(op: u16, lhs: ExprModel, rhs: ExprModel) -> Option<ExprModel> {
    let p = span_of(model_pos(lhs), model_pos(rhs));
    if op == token_types::EOF {
        None    } else if op == token_types::AMPERSAND {
        Some(ExprModel::Intersect { source_position: p, lhs: Box::new(lhs), rhs: Box::new(rhs) })    } else if op == token_types::AMPERSAND_AMPERSAND {
        Some(ExprModel::IntersectLowPrecedence { source_position: p, lhs: Box::new(lhs), rhs: Box::new(rhs) })    } else if op == token_types::AND {
        Some(ExprModel::LogicalAnd { source_position: p, lhs: Box::new(lhs), rhs: Box::new(rhs) })    } else if op == token_types::ASTERISK {
        Some(ExprModel::Multiplication { source_position: p, lhs: Box::new(lhs), rhs: Box::new(rhs) })    } else if op == token_types::COLON {
        Some(ExprModel::Qualify { source_position: p, lhs: Box::new(lhs), rhs: Box::new(rhs) })    } else if op == token_types::DASH {
        Some(ExprModel::Subtraction { source_position: p, lhs: Box::new(lhs), rhs: Box::new(rhs) })    } else if op == token_types::DOT {
        Some(ExprModel::FieldReference { source_position: p, parent: Box::new(lhs), child: Box::new(rhs) })    } else if op == token_types::DOT_DOT {
        Some(ExprModel::Range { source_position: p, first: Box::new(lhs), last: Box::new(rhs) })    } else if op == token_types::EQUALS {
        Some(ExprModel::IntersectAssignValue { source_position: p, lhs: Box::new(lhs), rhs: Box::new(rhs) })    } else if op == token_types::EQUALS_EQUALS {
        Some(ExprModel::Equals { source_position: p, lhs: Box::new(lhs), rhs: Box::new(rhs) })    } else if op == token_types::EQUALS_TILDE {
        Some(ExprModel::Match { source_position: p, lhs: Box::new(lhs), rhs: Box::new(rhs) })    } else if op == token_types::EXCLAMATION_EQUALS {
        Some(ExprModel::NotEquals { source_position: p, lhs: Box::new(lhs), rhs: Box::new(rhs) })    } else if op == token_types::EXCLAMATION_TILDE {
        Some(ExprModel::NotMatch { source_position: p, lhs: Box::new(lhs), rhs: Box::new(rhs) })    } else if op == token_types::GREATER_THAN {
        Some(ExprModel::GreaterThan { source_position: p, lhs: Box::new(lhs), rhs: Box::new(rhs) })    } else if op == token_types::GREATER_THAN_OR_EQUALS {
        Some(ExprModel::GreaterThanOrEquals { source_position: p, lhs: Box::new(lhs), rhs: Box::new(rhs) })    } else if op == token_types::IN {
        Some(ExprModel::In { source_position: p, lhs: Box::new(lhs), rhs: Box::new(rhs) })    } else if op == token_types::IS {
        Some(ExprModel::Is { source_position: p, lhs: Box::new(lhs), rhs: Box::new(rhs) })    } else if op == token_types::LESS_THAN {
        Some(ExprModel::LessThan { source_position: p, lhs: Box::new(lhs), rhs: Box::new(rhs) })    } else if op == token_types::LESS_THAN_OR_EQUALS {
        Some(ExprModel::LessThanOrEquals { source_position: p, lhs: Box::new(lhs), rhs: Box::new(rhs) })    } else if op == token_types::OR {
        Some(ExprModel::LogicalOr { source_position: p, lhs: Box::new(lhs), rhs: Box::new(rhs) })    } else if op == token_types::PLUS {
        Some(ExprModel::Addition { source_position: p, lhs: Box::new(lhs), rhs: Box::new(rhs) })    } else if op == token_types::QUESTION_COLON {
        Some(ExprModel::IntersectDefaultValue { source_position: p, lhs: Box::new(lhs), rhs: Box::new(rhs) })    } else if op == token_types::RIGHT_ARROW {
        Some(ExprModel::FunctionArrow { source_position: p, argument: Box::new(lhs), result: Box::new(rhs) })    } else if op == token_types::SLASH {
        Some(ExprModel::Division { source_position: p, lhs: Box::new(lhs), rhs: Box::new(rhs) })    } else if op == token_types::SYNTH_DOCUMENT {
        Some(ExprModel::Document { source_position: p, lhs: Box::new(lhs), rhs: Box::new(rhs) })    } else if op == token_types::VERTICAL_BAR {
        Some(ExprModel::Union { source_position: p, lhs: Box::new(lhs), rhs: Box::new(rhs) })    } else if op == token_types::WHEN {
        Some(ExprModel::When { source_position: p, lhs: Box::new(lhs), rhs: Box::new(rhs) })    } else if op == token_types::WHERE {
        Some(ExprModel::Where { source_position: p, lhs: Box::new(lhs), rhs: Box::new(rhs) })
    } else {
        None
    }
}

/// The next index to parse from, clamped to stay a usable index: at least
/// `lo` and at most one past the token count.
pub open spec fn next_idx(tokens: Seq<Token>, j: int, lo: int) -> int {
    let cap = tokens.len() as int + 2;
    if j < lo {
        if lo > cap {
            cap
        } else {
            lo
        }
    } else if j > cap {
        cap
    } else {
        j
    }
}

/// The expression and next position that parsing the left-hand side of an
/// expression from position `i` yields: a literal, an identifier, a prefix
/// operation, or a bracketed form.
pub open spec fn spec_parse_lhs(tokens: Seq<Token>, s: Seq<char>, i: int) -> ParseStep
    decreases tokens.len() + 2 - i, 1int,
    when 0 <= i <= tokens.len() + 2
    via spec_parse_lhs_decreases
{
    let t = tok(tokens, i);
    let tt = t.token_type;
    if tt == token_types::BACK_TICKED_STRING {
        ParseStep::Parsed {
            expr: ExprModel::StringLiteral {
                source_position: pos_of(t),
                delimiters: StringDelimiters::BackTicksMultiline,
            },
            next: i + 1,
        }
    } else if tt == token_types::BUILT_IN_TYPE {
        ParseStep::Parsed {
            expr: ExprModel::BuiltInType { source_position: pos_of(t) },
            next: i + 1,
        }
    } else if tt == token_types::DASH {
        match spec_parse(tokens, s, 29, i + 1) {
            ParseStep::Parsed { expr: operand, next } => {
                if model_pos(operand).end_offset < pos_of(t).start_offset {
                    ParseStep::Failed { error: ParseError::PositionsOutOfOrder }
                } else {
                    ParseStep::Parsed {
                        expr: ExprModel::NegationOperation {
                            source_position: span_of(pos_of(t), model_pos(operand)),
                            operand: Box::new(operand),
                        },
                        next,
                    }
                }
            },
            failed => failed,
        }
    } else if tt == token_types::DOUBLE_QUOTED_STRING {
        ParseStep::Parsed {
            expr: ExprModel::StringLiteral {
                source_position: pos_of(t),
                delimiters: StringDelimiters::DoubleQuotes,
            },
            next: i + 1,
        }
    } else if tt == token_types::FALSE {
        ParseStep::Parsed {
            expr: ExprModel::BooleanLiteral { source_position: pos_of(t), value: false },
            next: i + 1,
        }
    } else if tt == token_types::FLOATING_POINT_LITERAL {
        if all_ascii(token_chars(s, t)) {
            ParseStep::Parsed {
                expr: ExprModel::Float64Literal { source_position: pos_of(t) },
                next: i + 1,
            }
        } else {
            ParseStep::Failed { error: ParseError::InvalidFloatingPointLiteral }
        }
    } else if tt == token_types::IDENTIFIER {
        ParseStep::Parsed {
            expr: ExprModel::Identifier { source_position: pos_of(t) },
            next: i + 1,
        }
    } else if tt == token_types::INTEGER_LITERAL {
        match spec_parse_i64(token_chars(s, t)) {
            Some(value) => ParseStep::Parsed {
                expr: ExprModel::Int64Literal { source_position: pos_of(t), value },
                next: i + 1,
            },
            None => ParseStep::Failed { error: ParseError::InvalidIntegerLiteral },
        }
    } else if tt == token_types::LEADING_DOCUMENTATION {
        ParseStep::Parsed {
            expr: ExprModel::LeadingDocumentation { source_position: pos_of(t) },
            next: i + 1,
        }
    } else if tt == token_types::LEFT_BRACE {
        match spec_items(
            tokens,
            s,
            token_types::RIGHT_BRACE,
            ParseError::MissingRightBrace,
            i + 1,
        ) {
            ItemsStep::Parsed { items, next } => {
                let close = tok(tokens, next - 1);
                if pos_of(close).end_offset < pos_of(t).start_offset {
                    ParseStep::Failed { error: ParseError::PositionsOutOfOrder }
                } else {
                    ParseStep::Parsed {
                        expr: ExprModel::Record {
                            source_position: span_of(pos_of(t), pos_of(close)),
                            items,
                        },
                        next,
                    }
                }
            },
            ItemsStep::Failed { error } => ParseStep::Failed { error },
        }
    } else if tt == token_types::LEFT_BRACKET {
        match spec_items(
            tokens,
            s,
            token_types::RIGHT_BRACKET,
            ParseError::MissingRightBracket,
            i + 1,
        ) {
            ItemsStep::Parsed { items, next } => {
                let close = tok(tokens, next - 1);
                if pos_of(close).end_offset < pos_of(t).start_offset {
                    ParseStep::Failed { error: ParseError::PositionsOutOfOrder }
                } else {
                    ParseStep::Parsed {
                        expr: ExprModel::ArrayLiteral {
                            source_position: span_of(pos_of(t), pos_of(close)),
                            elements: items,
                        },
                        next,
                    }
                }
            },
            ItemsStep::Failed { error } => ParseStep::Failed { error },
        }
    } else if tt == token_types::LEFT_PARENTHESIS {
        spec_parse_parenthesized(tokens, s, i)
    } else if tt == token_types::NOT {
        match spec_parse(tokens, s, 17, i + 1) {
            ParseStep::Parsed { expr: operand, next } => ParseStep::Parsed {
                expr: ExprModel::LogicalNotOperation {
                    source_position: pos_of(t),
                    operand: Box::new(operand),
                },
                next,
            },
            failed => failed,
        }
    } else if tt == token_types::SINGLE_QUOTED_STRING {
        ParseStep::Parsed {
            expr: ExprModel::StringLiteral {
                source_position: pos_of(t),
                delimiters: StringDelimiters::SingleQuotes,
            },
            next: i + 1,
        }
    } else if tt == token_types::TRAILING_DOCUMENTATION {
        ParseStep::Parsed {
            expr: ExprModel::TrailingDocumentation { source_position: pos_of(t) },
            next: i + 1,
        }
    } else if tt == token_types::TRUE {
        ParseStep::Parsed {
            expr: ExprModel::BooleanLiteral { source_position: pos_of(t), value: true },
            next: i + 1,
        }
    } else {
        ParseStep::Failed { error: ParseError::UnexpectedToken { token_type: tt } }
    }
}

/// The expression a parenthesized form starting at `i` yields: a unit for
/// an empty pair, a tuple of function arguments when a comma follows the
/// first inner expression, a parenthesized expression otherwise.
pub open spec fn spec_parse_parenthesized(tokens: Seq<Token>, s: Seq<char>, i: int) -> ParseStep
    decreases tokens.len() + 2 - i, 0int,
    when 0 <= i <= tokens.len() + 2
    via spec_parse_parenthesized_decreases
{
    let t = tok(tokens, i);
    if t.token_type != token_types::LEFT_PARENTHESIS {
        ParseStep::Failed { error: ParseError::UnexpectedToken { token_type: t.token_type } }
    } else if tok(tokens, i + 1).token_type == token_types::RIGHT_PARENTHESIS {
        let close = tok(tokens, i + 1);
        if pos_of(close).end_offset < pos_of(t).start_offset {
            ParseStep::Failed { error: ParseError::PositionsOutOfOrder }
        } else {
            ParseStep::Parsed {
                expr: ExprModel::Unit { source_position: span_of(pos_of(t), pos_of(close)) },
                next: i + 2,
            }
        }
    } else {
        match spec_parse(tokens, s, 0, i + 1) {
            ParseStep::Parsed { expr: inner, next } => {
                let j = next_idx(tokens, next, i + 2);
                if tok(tokens, j).token_type == token_types::COMMA {
                    match spec_items(
                        tokens,
                        s,
                        token_types::RIGHT_PARENTHESIS,
                        ParseError::MissingRightParenthesis,
                        j + 1,
                    ) {
                        ItemsStep::Parsed { items, next: n2 } => {
                            let close = tok(tokens, n2 - 1);
                            if pos_of(close).end_offset < pos_of(t).start_offset {
                                ParseStep::Failed { error: ParseError::PositionsOutOfOrder }
                            } else {
                                ParseStep::Parsed {
                                    expr: ExprModel::FunctionArguments {
                                        source_position: span_of(pos_of(t), pos_of(close)),
                                        items: seq![inner] + items,
                                    },
                                    next: n2,
                                }
                            }
                        },
                        ItemsStep::Failed { error } => ParseStep::Failed { error },
                    }
                } else if tok(tokens, j).token_type == token_types::RIGHT_PARENTHESIS {
                    let close = tok(tokens, j);
                    if pos_of(close).end_offset < pos_of(t).start_offset {
                        ParseStep::Failed { error: ParseError::PositionsOutOfOrder }
                    } else {
                        ParseStep::Parsed {
                            expr: ExprModel::Parenthesized {
                                source_position: span_of(pos_of(t), pos_of(close)),
                                inner_expr: Box::new(inner),
                            },
                            next: j + 1,
                        }
                    }
                } else {
                    ParseStep::Failed { error: ParseError::MissingRightParenthesis }
                }
            },
            failed => failed,
        }
    }
}

/// The items of a comma-separated list that ends at the given terminator
/// token, and the position just past the terminator. A missing terminator
/// yields the given error.
pub open spec fn spec_items(
    tokens: Seq<Token>,
    s: Seq<char>,
    term: u16,
    err: ParseError,
    i: int,
) -> ItemsStep
    decreases tokens.len() + 2 - i, 3int,
    when 0 <= i <= tokens.len() + 2
    via spec_items_decreases
{
    if tok(tokens, i).token_type == term {
        ItemsStep::Parsed { items: seq![], next: i + 1 }
    } else {
        match spec_parse(tokens, s, 0, i) {
            ParseStep::Parsed { expr, next } => {
                let j = next_idx(tokens, next, i + 1);
                if tok(tokens, j).token_type == token_types::COMMA {
                    match spec_items(tokens, s, term, err, j + 1) {
                        ItemsStep::Parsed { items, next: n2 } => ItemsStep::Parsed {
                            items: seq![expr] + items,
                            next: n2,
                        },
                        failed => failed,
                    }
                } else if tok(tokens, j).token_type == term {
                    ItemsStep::Parsed { items: seq![expr], next: j + 1 }
                } else {
                    ItemsStep::Failed { error: err }
                }
            },
            ParseStep::Failed { error } => ItemsStep::Failed { error },
        }
    }
}

/// One postfix step: the expression an already-parsed expression becomes
/// under the postfix operator at `i`, and the position just past it. A call
/// operator parses an argument list; `?` wraps the operand, keeping the
/// operand's own position; the reserved `[` has no construction rule.
pub open spec fn spec_postfix_step(tokens: Seq<Token>, s: Seq<char>, e: ExprModel, i: int) -> ParseStep
    decreases tokens.len() + 2 - i, 1int,
    when 0 <= i <= tokens.len() + 2
    via spec_postfix_step_decreases
{
    let op = tok(tokens, i);
    if op.token_type == token_types::LEFT_PARENTHESIS {
        match spec_items(
            tokens,
            s,
            token_types::RIGHT_PARENTHESIS,
            ParseError::MissingRightParenthesis,
            i + 1,
        ) {
            ItemsStep::Parsed { items, next } => {
                let close = tok(tokens, next - 1);
                if pos_of(close).end_offset < pos_of(op).start_offset {
                    ParseStep::Failed { error: ParseError::PositionsOutOfOrder }
                } else {
                    let args = ExprModel::FunctionArguments {
                        source_position: span_of(pos_of(op), pos_of(close)),
                        items,
                    };
                    if model_pos(args).end_offset < model_pos(e).start_offset {
                        ParseStep::Failed { error: ParseError::PositionsOutOfOrder }
                    } else {
                        ParseStep::Parsed {
                            expr: ExprModel::FunctionCall {
                                source_position: span_of(model_pos(e), model_pos(args)),
                                function_reference: Box::new(e),
                                argument: Box::new(args),
                            },
                            next,
                        }
                    }
                }
            },
            ItemsStep::Failed { error } => ParseStep::Failed { error },
        }
    } else if op.token_type == token_types::QUESTION {
        ParseStep::Parsed {
            expr: ExprModel::Optional { source_position: model_pos(e), operand: Box::new(e) },
            next: i + 1,
        }
    } else {
        ParseStep::Failed {
            error: ParseError::UnknownPostfixOperator { token_type: op.token_type },
        }
    }
}

/// One infix step: the binary expression an already-parsed expression
/// becomes under the infix operator at `i`, whose right-hand side is parsed
/// at the operator's right binding power, and the position just past it.
pub open spec fn spec_infix_step(
    tokens: Seq<Token>,
    s: Seq<char>,
    e: ExprModel,
    i: int,
    right_power: u32,
) -> ParseStep
    decreases tokens.len() + 2 - i, 1int,
    when 0 <= i <= tokens.len() + 2
    via spec_infix_step_decreases
{
    let op = tok(tokens, i);
    if i > tokens.len() {
        ParseStep::Failed { error: ParseError::UnknownInfixOperator { token_type: op.token_type } }
    } else {
        spec_infix_step_inner(tokens, s, e, i, right_power)
    }
}

/// The body of an infix step at a position within the token sequence.
pub open spec fn spec_infix_step_inner(
    tokens: Seq<Token>,
    s: Seq<char>,
    e: ExprModel,
    i: int,
    right_power: u32,
) -> ParseStep
    decreases tokens.len() + 2 - i, 0int,
    when 0 <= i <= tokens.len()
{
    let op = tok(tokens, i);
    match spec_parse(tokens, s, right_power, i + 1) {
        ParseStep::Parsed { expr: rhs, next } => {
            match spec_infix_expr(op.token_type, e, rhs) {
                Some(built) => {
                    if model_pos(rhs).end_offset < model_pos(e).start_offset {
                        ParseStep::Failed { error: ParseError::PositionsOutOfOrder }
                    } else {
                        ParseStep::Parsed { expr: built, next }
                    }
                },
                None => ParseStep::Failed {
                    error: ParseError::UnknownInfixOperator { token_type: op.token_type },
                },
            }
        },
        failed => failed,
    }
}

/// The Pratt loop: extends an already-parsed expression with postfix and
/// infix operators whose binding power reaches the minimum, and stops at
/// the first operator that binds less tightly. Postfix operators are tried
/// before infix ones.
pub open spec fn spec_parse_loop(
    tokens: Seq<Token>,
    s: Seq<char>,
    min: u32,
    e: ExprModel,
    i: int,
) -> ParseStep
    decreases tokens.len() + 2 - i, 2int,
    when 0 <= i <= tokens.len() + 2
    via spec_parse_loop_decreases
{
    let op = tok(tokens, i);
    match spec_postfix_binding_power(op.token_type) {
        Some(p) => {
            if p < min {
                ParseStep::Parsed { expr: e, next: i }
            } else {
                match spec_postfix_step(tokens, s, e, i) {
                    ParseStep::Parsed { expr, next } => spec_parse_loop(
                        tokens,
                        s,
                        min,
                        expr,
                        next_idx(tokens, next, i + 1),
                    ),
                    failed => failed,
                }
            }
        },
        None => match spec_infix_binding_power(op.token_type) {
            Some(bp) => {
                if bp.0 < min {
                    ParseStep::Parsed { expr: e, next: i }
                } else {
                    match spec_infix_step(tokens, s, e, i, bp.1) {
                        ParseStep::Parsed { expr, next } => spec_parse_loop(
                            tokens,
                            s,
                            min,
                            expr,
                            next_idx(tokens, next, i + 2),
                        ),
                        failed => failed,
                    }
                }
            },
            None => ParseStep::Parsed { expr: e, next: i },
        },
    }
}

/// The expression that parsing from position `i` with the given minimum
/// binding power yields: a left-hand side extended by the Pratt loop.
pub open spec fn spec_parse(tokens: Seq<Token>, s: Seq<char>, min: u32, i: int) -> ParseStep
    decreases tokens.len() + 2 - i, 2int,
    when 0 <= i <= tokens.len() + 2
    via spec_parse_decreases
{
    if i > tokens.len() {
        ParseStep::Failed { error: ParseError::UnexpectedToken { token_type: token_types::EOF } }
    } else {
        match spec_parse_lhs(tokens, s, i) {
            ParseStep::Parsed { expr, next } => spec_parse_loop(
                tokens,
                s,
                min,
                expr,
                next_idx(tokens, next, i + 1),
            ),
            failed => failed,
        }
    }
}

#[via_fn]
proof fn spec_parse_lhs_decreases(tokens: Seq<Token>, s: Seq<char>, i: int) {
}

#[via_fn]
proof fn spec_parse_parenthesized_decreases(tokens: Seq<Token>, s: Seq<char>, i: int) {
}

#[via_fn]
proof fn spec_items_decreases(tokens: Seq<Token>, s: Seq<char>, term: u16, err: ParseError, i: int) {
}

#[via_fn]
proof fn spec_parse_loop_decreases(
    tokens: Seq<Token>,
    s: Seq<char>,
    min: u32,
    e: ExprModel,
    i: int,
) {
}

#[via_fn]
proof fn spec_postfix_step_decreases(tokens: Seq<Token>, s: Seq<char>, e: ExprModel, i: int) {
}

#[via_fn]
proof fn spec_infix_step_decreases(
    tokens: Seq<Token>,
    s: Seq<char>,
    e: ExprModel,
    i: int,
    right_power: u32,
) {
}

#[via_fn]
proof fn spec_parse_decreases(tokens: Seq<Token>, s: Seq<char>, min: u32, i: int) {
}

/// Parsing a left-hand side consumes at least one token and stays within
/// the token sequence.
pub proof fn lemma_lhs_progress(tokens: Seq<Token>, s: Seq<char>, i: int)
    requires
        0 <= i <= tokens.len() + 2,
    ensures
        spec_parse_lhs(tokens, s, i) matches ParseStep::Parsed { next, .. } ==> i < next
            <= tokens.len(),
    decreases tokens.len() + 2 - i, 1int,
{
    let t = tok(tokens, i);
    let tt = t.token_type;
    if tt == token_types::DASH {
        lemma_parse_progress(tokens, s, 29, i + 1);
    } else if tt == token_types::LEFT_BRACE {
        lemma_items_progress(
            tokens,
            s,
            token_types::RIGHT_BRACE,
            ParseError::MissingRightBrace,
            i + 1,
        );
    } else if tt == token_types::LEFT_BRACKET {
        lemma_items_progress(
            tokens,
            s,
            token_types::RIGHT_BRACKET,
            ParseError::MissingRightBracket,
            i + 1,
        );
    } else if tt == token_types::LEFT_PARENTHESIS {
        lemma_parenthesized_progress(tokens, s, i);
    } else if tt == token_types::NOT {
        lemma_parse_progress(tokens, s, 17, i + 1);
    }
}

/// Parsing a parenthesized form consumes at least one token and stays
/// within the token sequence.
pub proof fn lemma_parenthesized_progress(tokens: Seq<Token>, s: Seq<char>, i: int)
    requires
        0 <= i <= tokens.len() + 2,
    ensures
        spec_parse_parenthesized(tokens, s, i) matches ParseStep::Parsed { next, .. } ==> i < next
            <= tokens.len(),
    decreases tokens.len() + 2 - i, 0int,
{
    let t = tok(tokens, i);
    if t.token_type == token_types::LEFT_PARENTHESIS && tok(tokens, i + 1).token_type
        != token_types::RIGHT_PARENTHESIS {
        lemma_parse_progress(tokens, s, 0, i + 1);
        match spec_parse(tokens, s, 0, i + 1) {
            ParseStep::Parsed { expr: inner, next } => {
                let j = next_idx(tokens, next, i + 2);
                assert(j == next);
                if tok(tokens, j).token_type == token_types::COMMA {
                    lemma_items_progress(
                        tokens,
                        s,
                        token_types::RIGHT_PARENTHESIS,
                        ParseError::MissingRightParenthesis,
                        j + 1,
                    );
                }
            },
            _ => {},
        }
    }
}

/// Parsing a separated list consumes at least one token and stays within
/// the token sequence.
pub proof fn lemma_items_progress(
    tokens: Seq<Token>,
    s: Seq<char>,
    term: u16,
    err: ParseError,
    i: int,
)
    requires
        0 <= i <= tokens.len() + 2,
        term != token_types::EOF,
    ensures
        spec_items(tokens, s, term, err, i) matches ItemsStep::Parsed { next, .. } ==> i < next
            <= tokens.len(),
    decreases tokens.len() + 2 - i, 3int,
{
    if tok(tokens, i).token_type == term {
    } else {
        lemma_parse_progress(tokens, s, 0, i);
        match spec_parse(tokens, s, 0, i) {
            ParseStep::Parsed { expr, next } => {
                let j = next_idx(tokens, next, i + 1);
                assert(j == next);
                if tok(tokens, j).token_type == token_types::COMMA {
                    lemma_items_progress(tokens, s, term, err, j + 1);
                }
            },
            _ => {},
        }
    }
}

/// A postfix step consumes at least one token and stays within the token
/// sequence.
pub proof fn lemma_postfix_step_progress(tokens: Seq<Token>, s: Seq<char>, e: ExprModel, i: int)
    requires
        0 <= i <= tokens.len() + 2,
    ensures
        spec_postfix_step(tokens, s, e, i) matches ParseStep::Parsed { next, .. } ==> i < next
            <= tokens.len(),
    decreases tokens.len() + 2 - i, 1int,
{
    let op = tok(tokens, i);
    if op.token_type == token_types::LEFT_PARENTHESIS {
        lemma_items_progress(
            tokens,
            s,
            token_types::RIGHT_PARENTHESIS,
            ParseError::MissingRightParenthesis,
            i + 1,
        );
    }
}

/// An infix step consumes at least two tokens and stays within the token
/// sequence.
pub proof fn lemma_infix_step_progress(
    tokens: Seq<Token>,
    s: Seq<char>,
    e: ExprModel,
    i: int,
    right_power: u32,
)
    requires
        0 <= i <= tokens.len() + 2,
    ensures
        spec_infix_step(tokens, s, e, i, right_power) matches ParseStep::Parsed { next, .. } ==> i
            + 1 < next <= tokens.len(),
    decreases tokens.len() + 2 - i, 1int,
{
    if i <= tokens.len() {
        lemma_parse_progress(tokens, s, right_power, i + 1);
    }
}

/// The Pratt loop never steps backwards, and moves past the end of the
/// token sequence only where it started there.
pub proof fn lemma_loop_progress(tokens: Seq<Token>, s: Seq<char>, min: u32, e: ExprModel, i: int)
    requires
        0 <= i <= tokens.len() + 2,
    ensures
        spec_parse_loop(tokens, s, min, e, i) matches ParseStep::Parsed { next, .. } ==> i <= next
            && (next <= tokens.len() || next == i),
    decreases tokens.len() + 2 - i, 2int,
{
    let op = tok(tokens, i);
    match spec_postfix_binding_power(op.token_type) {
        Some(p) => {
            if p >= min {
                lemma_postfix_step_progress(tokens, s, e, i);
                match spec_postfix_step(tokens, s, e, i) {
                    ParseStep::Parsed { expr, next } => {
                        let k = next_idx(tokens, next, i + 1);
                        assert(k == next);
                        lemma_loop_progress(tokens, s, min, expr, k);
                    },
                    _ => {},
                }
            }
        },
        None => match spec_infix_binding_power(op.token_type) {
            Some(bp) => {
                if bp.0 >= min {
                    lemma_infix_step_progress(tokens, s, e, i, bp.1);
                    match spec_infix_step(tokens, s, e, i, bp.1) {
                        ParseStep::Parsed { expr, next } => {
                            let k = next_idx(tokens, next, i + 2);
                            assert(k == next);
                            lemma_loop_progress(tokens, s, min, expr, k);
                        },
                        _ => {},
                    }
                }
            },
            None => {},
        },
    }
}

/// A successful parse consumes at least one token and stays within the
/// token sequence.
pub proof fn lemma_parse_progress(tokens: Seq<Token>, s: Seq<char>, min: u32, i: int)
    requires
        0 <= i <= tokens.len() + 2,
    ensures
        spec_parse(tokens, s, min, i) matches ParseStep::Parsed { next, .. } ==> i < next
            <= tokens.len(),
    decreases tokens.len() + 2 - i, 2int,
{
    lemma_lhs_progress(tokens, s, i);
    match spec_parse_lhs(tokens, s, i) {
        ParseStep::Parsed { expr, next } => {
            let j = next_idx(tokens, next, i + 1);
            assert(j == next);
            lemma_loop_progress(tokens, s, min, expr, j);
        },
        _ => {},
    }
}

/// True when every character of `chars[start..end]` is an ASCII digit, with
/// every character of the stretch an ASCII character at all.
#[verifier::loop_isolation(false)]
fn all_ascii_range(chars: &Vec<char>, start: usize, end: usize) -> (r: bool)
    requires
        start <= end <= chars@.len(),
    ensures
        r == all_ascii(chars@.subrange(start as int, end as int)),
{
    let ghost text = chars@.subrange(start as int, end as int);
    let mut k = start;
    while k < end
        invariant
            start <= k <= end,
            forall|j: int| start <= j < k ==> (#[trigger] chars@[j] as u32) < 0x80,
        decreases end - k,
    {
        if chars[k] as u32 >= 0x80 {
            proof {
                assert(text[k - start] == chars@[k as int]);
            }
            return false;
        }
        k = k + 1;
    }
    proof {
        assert forall|m: int| 0 <= m < text.len() implies #[trigger] (text[m] as u32) < 0x80 by {
            assert(text[m] == chars@[start + m]);
        }
    }
    true
}

/// Parses `chars[start..end]` as a decimal 64-bit signed integer, exactly
/// where the text is nonempty, all ASCII digits, and within range.
#[verifier::loop_isolation(false)]
#[verifier::rlimit(30)]
fn parse_i64_digits(chars: &Vec<char>, start: usize, end: usize) -> (r: Option<i64>)
    requires
        start <= end <= chars@.len(),
    ensures
        r == spec_parse_i64(chars@.subrange(start as int, end as int)),
{
    let ghost text = chars@.subrange(start as int, end as int);
    if end == start {
        return None;
    }
    let mut k = start;
    let mut acc: u64 = 0;
    let mut over = false;
    while k < end
        invariant
            start <= k <= end,
            forall|j: int| start <= j < k ==> 0x30 <= (#[trigger] chars@[j] as u32) <= 0x39,
            !over ==> acc == digits_val(text.take(k - start)) && acc <= i64::MAX as u64,
            over ==> digits_val(text.take(k - start)) > i64::MAX,
        decreases end - k,
    {
        let c = chars[k];
        let u = c as u32;
        if !(0x30 <= u && u <= 0x39) {
            proof {
                assert(text[k - start] == chars@[k as int]);
            }
            return None;
        }
        let d = (u - 0x30) as u64;
        let ghost n = k - start;
        proof {
            assert(text.take(n + 1).drop_last() =~= text.take(n));
            assert(text.take(n + 1).last() == text[n]);
            assert(text[n] == chars@[k as int]);
            assert(digits_val(text.take(n + 1)) == digits_val(text.take(n)) * 10 + (text[n] as u32
                - 0x30));
        }
        if !over {
            if acc <= (0x7fffffffffffffffu64 - d) / 10 {
                proof {
                    let m: int = 0x7fffffffffffffff;
                    vstd::arithmetic::div_mod::lemma_fundamental_div_mod(m - d, 10);
                }
                acc = acc * 10 + d;
            } else {
                proof {
                    let m: int = 0x7fffffffffffffff;
                    vstd::arithmetic::div_mod::lemma_fundamental_div_mod(m - d, 10);
                }
                over = true;
            }
        }
        k = k + 1;
    }
    proof {
        assert(text.take(end - start) =~= text);
    }
    if over {
        None
    } else {
        proof {
            assert forall|j: int| 0 <= j < text.len() implies 0x30 <= #[trigger] (text[j] as u32)
                <= 0x39 by {
                assert(text[j] == chars@[start + j]);
            }
        }
        Some(acc as i64)
    }
}

/// What the parser needs of its token stream and source: lengths that fit
/// the machine, tokens inside the source, and token boundaries that fall on
/// character boundaries.
pub open spec fn parse_input_wf(tokens: Seq<Token>, s: Seq<char>) -> bool {
    &&& tokens.len() < usize::MAX
    &&& byte_len(s) <= u32::MAX
    &&& forall|k: int|
        0 <= k < tokens.len() ==> (#[trigger] tokens[k]).source_offset + tokens[k].source_length
            <= byte_len(s)
    &&& forall|k: int|
        0 <= k < tokens.len() ==> is_byte_boundary(s, (#[trigger] tokens[k]).source_offset as int)
    &&& forall|k: int|
        0 <= k < tokens.len() ==> is_byte_boundary(
            s,
            (#[trigger] tokens[k]).source_offset + tokens[k].source_length,
        )
}

/// The result of parsing a filtered scan outcome.
pub struct Outcome<'a> {
    pub source_code: &'a str,
    pub new_line_offsets: SharedOffsets,
    pub model: Box<Expr>,
}

struct LligneParser {
    tokens: Vec<Token>,
    chars: Vec<char>,
}

impl LligneParser {
    spec fn inv(&self) -> bool {
        parse_input_wf(self.tokens@, self.chars@)
    }

    /// The token at `index`, with an end-of-file token past the end.
    fn tok_at(&self, index: usize) -> (t: Token)
        ensures
            t == tok(self.tokens@, index as int),
    {
        if index < self.tokens.len() {
            self.tokens[index]
        } else {
            Token { source_offset: 0, source_length: 0, token_type: token_types::EOF }
        }
    }

    /// The source position of the token at `index`.
    fn token_position(&self, index: usize) -> (p: SourcePos)
        requires
            self.inv(),
        ensures
            p == pos_of(tok(self.tokens@, index as int)),
    {
        let t = self.tok_at(index);
        proof {
            if (index as int) < self.tokens@.len() {
                assert(self.tokens@[index as int].source_offset + self.tokens@[index as
                    int].source_length <= byte_len(self.chars@));
            }
        }
        SourcePos {
            start_offset: t.source_offset,
            end_offset: t.source_offset + t.source_length as u32,
        }
    }

    /// The character range of the source that the token at `index` covers.
    fn token_char_range(&self, index: usize) -> (r: (usize, usize))
        requires
            self.inv(),
            index < self.tokens@.len(),
        ensures
            r.0 as int == char_index_at(self.chars@, tok(self.tokens@, index as int).source_offset as int),
            r.1 as int == char_index_at(
                self.chars@,
                tok(self.tokens@, index as int).source_offset + tok(
                    self.tokens@,
                    index as int,
                ).source_length,
            ),
            r.0 <= r.1 <= self.chars@.len(),
            self.chars@.subrange(r.0 as int, r.1 as int) == token_chars(
                self.chars@,
                tok(self.tokens@, index as int),
            ),
    {
        let t = self.tokens[index];
        proof {
            assert(self.tokens@[index as int].source_offset + self.tokens@[index as
                int].source_length <= byte_len(self.chars@));
            assert(is_byte_boundary(self.chars@, self.tokens@[index as int].source_offset as int));
            assert(is_byte_boundary(
                self.chars@,
                self.tokens@[index as int].source_offset + self.tokens@[index as
                    int].source_length,
            ));
        }
        let a = crate::text::char_index_of(&self.chars, t.source_offset);
        let b = crate::text::char_index_of(&self.chars, t.source_offset + t.source_length as u32);
        proof {
            if b < a {
                crate::text::lemma_byte_off_mono(self.chars@, b as int, a as int);
            }
        }
        (a, b)
    }

    /// Parses the opening of an expression: a literal, an identifier, a
    /// prefix operation, or a bracketed form.
    #[verifier::rlimit(60)]
    fn parse_left_hand_side(&self, i: usize) -> (r: Result<(Box<Expr>, usize), ParseError>)
        requires
            self.inv(),
            i <= self.tokens@.len() + 1,
        ensures
            match spec_parse_lhs(self.tokens@, self.chars@, i as int) {
                ParseStep::Parsed { expr, next } => r matches Ok(p) && p.0@ == expr && p.1 == next,
                ParseStep::Failed { error } => r matches Err(e) && e == error,
            },
        decreases self.tokens@.len() + 2 - i, 1int,
    {
        let token = self.tok_at(i);
        let tt = token.token_type;
        let pos = self.token_position(i);
        if tt == token_types::BACK_TICKED_STRING {
            Ok(
                (
                    Box::new(
                        Expr::StringLiteral {
                            source_position: pos,
                            delimiters: StringDelimiters::BackTicksMultiline,
                        },
                    ),
                    i + 1,
                ),
            )
        } else if tt == token_types::BUILT_IN_TYPE {
            Ok((Box::new(Expr::BuiltInType { source_position: pos }), i + 1))
        } else if tt == token_types::DASH {
            let (operand, next) = self.parse_expr_binding_power(29, i + 1)?;
            proof {
                lemma_parse_progress(self.tokens@, self.chars@, 29, i + 1);
            }
            let rhs_pos = operand.get_source_position();
            if rhs_pos.end_offset < pos.start_offset {
                Err(ParseError::PositionsOutOfOrder)
            } else {
                Ok(
                    (
                        Box::new(
                            Expr::NegationOperation {
                                source_position: pos.thru(rhs_pos),
                                operand,
                            },
                        ),
                        next,
                    ),
                )
            }
        } else if tt == token_types::DOUBLE_QUOTED_STRING {
            Ok(
                (
                    Box::new(
                        Expr::StringLiteral {
                            source_position: pos,
                            delimiters: StringDelimiters::DoubleQuotes,
                        },
                    ),
                    i + 1,
                ),
            )
        } else if tt == token_types::FALSE {
            Ok((Box::new(Expr::BooleanLiteral { source_position: pos, value: false }), i + 1))
        } else if tt == token_types::FLOATING_POINT_LITERAL {
            let (a, b) = self.token_char_range(i);
            if all_ascii_range(&self.chars, a, b) {
                Ok((Box::new(Expr::Float64Literal { source_position: pos }), i + 1))
            } else {
                Err(ParseError::InvalidFloatingPointLiteral)
            }
        } else if tt == token_types::IDENTIFIER {
            Ok((Box::new(Expr::Identifier { source_position: pos }), i + 1))
        } else if tt == token_types::INTEGER_LITERAL {
            let (a, b) = self.token_char_range(i);
            match parse_i64_digits(&self.chars, a, b) {
                Some(value) => Ok(
                    (Box::new(Expr::Int64Literal { source_position: pos, value }), i + 1),
                ),
                None => Err(ParseError::InvalidIntegerLiteral),
            }
        } else if tt == token_types::LEADING_DOCUMENTATION {
            Ok((Box::new(Expr::LeadingDocumentation { source_position: pos }), i + 1))
        } else if tt == token_types::LEFT_BRACE {
            let (items, next) = self.parse_items(
                token_types::RIGHT_BRACE,
                ParseError::MissingRightBrace,
                i + 1,
            )?;
            proof {
                lemma_items_progress(
                    self.tokens@,
                    self.chars@,
                    token_types::RIGHT_BRACE,
                    ParseError::MissingRightBrace,
                    i + 1,
                );
            }
            let end_pos = self.token_position(next - 1);
            if end_pos.end_offset < pos.start_offset {
                Err(ParseError::PositionsOutOfOrder)
            } else {
                Ok(
                    (
                        Box::new(
                            Expr::Record { source_position: pos.thru(end_pos), items },
                        ),
                        next,
                    ),
                )
            }
        } else if tt == token_types::LEFT_BRACKET {
            let (elements, next) = self.parse_items(
                token_types::RIGHT_BRACKET,
                ParseError::MissingRightBracket,
                i + 1,
            )?;
            proof {
                lemma_items_progress(
                    self.tokens@,
                    self.chars@,
                    token_types::RIGHT_BRACKET,
                    ParseError::MissingRightBracket,
                    i + 1,
                );
            }
            let end_pos = self.token_position(next - 1);
            if end_pos.end_offset < pos.start_offset {
                Err(ParseError::PositionsOutOfOrder)
            } else {
                Ok(
                    (
                        Box::new(
                            Expr::ArrayLiteral { source_position: pos.thru(end_pos), elements },
                        ),
                        next,
                    ),
                )
            }
        } else if tt == token_types::LEFT_PARENTHESIS {
            self.parse_parenthesized_expression(i)
        } else if tt == token_types::NOT {
            let (operand, next) = self.parse_expr_binding_power(17, i + 1)?;
            Ok(
                (
                    Box::new(
                        Expr::LogicalNotOperation { source_position: pos, operand },
                    ),
                    next,
                ),
            )
        } else if tt == token_types::SINGLE_QUOTED_STRING {
            Ok(
                (
                    Box::new(
                        Expr::StringLiteral {
                            source_position: pos,
                            delimiters: StringDelimiters::SingleQuotes,
                        },
                    ),
                    i + 1,
                ),
            )
        } else if tt == token_types::TRAILING_DOCUMENTATION {
            Ok((Box::new(Expr::TrailingDocumentation { source_position: pos }), i + 1))
        } else if tt == token_types::TRUE {
            Ok((Box::new(Expr::BooleanLiteral { source_position: pos, value: true }), i + 1))
        } else {
            Err(ParseError::UnexpectedToken { token_type: tt })
        }
    }

    /// Parses a parenthesized form: a unit, a parenthesized expression, or
    /// a tuple of function arguments.
    fn parse_parenthesized_expression(&self, i: usize) -> (r: Result<
        (Box<Expr>, usize),
        ParseError,
    >)
        requires
            self.inv(),
            i <= self.tokens@.len() + 1,
            tok(self.tokens@, i as int).token_type == token_types::LEFT_PARENTHESIS,
        ensures
            match spec_parse_parenthesized(self.tokens@, self.chars@, i as int) {
                ParseStep::Parsed { expr, next } => r matches Ok(p) && p.0@ == expr && p.1 == next,
                ParseStep::Failed { error } => r matches Err(e) && e == error,
            },
        decreases self.tokens@.len() + 2 - i, 0int,
    {
        let token = self.tok_at(i);
        let pos = self.token_position(i);
        if self.tok_at(i + 1).token_type == token_types::RIGHT_PARENTHESIS {
            let end_pos = self.token_position(i + 1);
            if end_pos.end_offset < pos.start_offset {
                return Err(ParseError::PositionsOutOfOrder);
            }
            return Ok((Box::new(Expr::Unit { source_position: pos.thru(end_pos) }), i + 2));
        }
        let (inner, j) = self.parse_expr_binding_power(0, i + 1)?;
        proof {
            lemma_parse_progress(self.tokens@, self.chars@, 0, i + 1);
        }
        if self.tok_at(j).token_type == token_types::COMMA {
            let (rest, next) = self.parse_items(
                token_types::RIGHT_PARENTHESIS,
                ParseError::MissingRightParenthesis,
                j + 1,
            )?;
            proof {
                lemma_items_progress(
                    self.tokens@,
                    self.chars@,
                    token_types::RIGHT_PARENTHESIS,
                    ParseError::MissingRightParenthesis,
                    j + 1,
                );
            }
            let end_pos = self.token_position(next - 1);
            if end_pos.end_offset < pos.start_offset {
                return Err(ParseError::PositionsOutOfOrder);
            }
            let mut items = rest;
            let ghost rest_view = items@;
            let ghost inner_expr = *inner;
            items.insert(0, *inner);
            proof {
                assert(items@.drop_first() =~= rest_view);
                assert(items@[0] == inner_expr);
                lemma_models_of_cons(inner_expr, rest_view);
                assert(seq![inner_expr] + rest_view =~= items@);
            }
            return Ok(
                (
                    Box::new(
                        Expr::FunctionArguments {
                            source_position: pos.thru(end_pos),
                            items,
                        },
                    ),
                    next,
                ),
            );
        }
        if self.tok_at(j).token_type != token_types::RIGHT_PARENTHESIS {
            return Err(ParseError::MissingRightParenthesis);
        }
        let end_pos = self.token_position(j);
        if end_pos.end_offset < pos.start_offset {
            return Err(ParseError::PositionsOutOfOrder);
        }
        Ok(
            (
                Box::new(
                    Expr::Parenthesized { source_position: pos.thru(end_pos), inner_expr: inner },
                ),
                j + 1,
            ),
        )
    }

    /// Parses the comma-separated expressions of a record, array literal,
    /// or argument list, up to and including the terminator.
    fn parse_items(&self, term: u16, err: ParseError, i: usize) -> (r: Result<
        (Vec<Expr>, usize),
        ParseError,
    >)
        requires
            self.inv(),
            i <= self.tokens@.len() + 1,
            term != token_types::EOF,
        ensures
            match spec_items(self.tokens@, self.chars@, term, err, i as int) {
                ItemsStep::Parsed { items, next } => r matches Ok(p) && models_of(p.0@) == items
                    && p.1 == next,
                ItemsStep::Failed { error } => r matches Err(e) && e == error,
            },
        decreases self.tokens@.len() + 2 - i, 3int,
    {
        if self.tok_at(i).token_type == term {
            let items: Vec<Expr> = Vec::new();
            proof {
                assert(models_of(items@) =~= Seq::<ExprModel>::empty());
            }
            return Ok((items, i + 1));
        }
        let (expr, next) = self.parse_expr_binding_power(0, i)?;
        proof {
            lemma_parse_progress(self.tokens@, self.chars@, 0, i as int);
        }
        if self.tok_at(next).token_type == token_types::COMMA {
            let (rest, n2) = self.parse_items(term, err, next + 1)?;
            let mut items = rest;
            let ghost rest_view = items@;
            let ghost head_expr = *expr;
            items.insert(0, *expr);
            proof {
                assert(items@.drop_first() =~= rest_view);
                assert(items@[0] == head_expr);
                lemma_models_of_cons(head_expr, rest_view);
                assert(seq![head_expr] + rest_view =~= items@);
            }
            Ok((items, n2))
        } else if self.tok_at(next).token_type == term {
            let mut items: Vec<Expr> = Vec::new();
            let ghost head_expr = *expr;
            items.push(*expr);
            proof {
                assert(items@.drop_first() =~= Seq::<Expr>::empty());
                assert(items@[0] == head_expr);
                lemma_models_of_cons(head_expr, Seq::<Expr>::empty());
                assert(seq![head_expr] + Seq::<Expr>::empty() =~= items@);
                assert(models_of(Seq::<Expr>::empty()) =~= Seq::<ExprModel>::empty());
                assert(models_of(items@) =~= seq![head_expr.model()]);
            }
            Ok((items, next + 1))
        } else {
            Err(err)
        }
    }

    /// Applies one postfix operator — a call or an optional marker — to an
    /// already-parsed expression.
    fn parse_postfix_expression(&self, i: usize, lhs: Box<Expr>) -> (r: Result<
        (Box<Expr>, usize),
        ParseError,
    >)
        requires
            self.inv(),
            i <= self.tokens@.len() + 1,
        ensures
            match spec_postfix_step(self.tokens@, self.chars@, lhs@, i as int) {
                ParseStep::Parsed { expr, next } => r matches Ok(p) && p.0@ == expr && p.1 == next,
                ParseStep::Failed { error } => r matches Err(e) && e == error,
            },
        decreases self.tokens@.len() + 2 - i, 1int,
    {
        let op_token = self.tok_at(i);
        if op_token.token_type == token_types::LEFT_PARENTHESIS {
            let op_pos = self.token_position(i);
            let (items, next) = self.parse_items(
                token_types::RIGHT_PARENTHESIS,
                ParseError::MissingRightParenthesis,
                i + 1,
            )?;
            proof {
                lemma_items_progress(
                    self.tokens@,
                    self.chars@,
                    token_types::RIGHT_PARENTHESIS,
                    ParseError::MissingRightParenthesis,
                    i + 1,
                );
            }
            let end_pos = self.token_position(next - 1);
            if end_pos.end_offset < op_pos.start_offset {
                return Err(ParseError::PositionsOutOfOrder);
            }
            let args = Box::new(
                Expr::FunctionArguments { source_position: op_pos.thru(end_pos), items },
            );
            let lhs_pos = lhs.get_source_position();
            let args_pos = args.get_source_position();
            if args_pos.end_offset < lhs_pos.start_offset {
                return Err(ParseError::PositionsOutOfOrder);
            }
            Ok(
                (
                    Box::new(
                        Expr::FunctionCall {
                            source_position: lhs_pos.thru(args_pos),
                            function_reference: lhs,
                            argument: args,
                        },
                    ),
                    next,
                ),
            )
        } else if op_token.token_type == token_types::QUESTION {
            let lhs_pos = lhs.get_source_position();
            Ok(
                (
                    Box::new(Expr::Optional { source_position: lhs_pos, operand: lhs }),
                    i + 1,
                ),
            )
        } else {
            Err(ParseError::UnknownPostfixOperator { token_type: op_token.token_type })
        }
    }

    /// Builds the binary expression for an infix operator after the left
    /// hand side and the right hand side have been parsed.
    #[verifier::rlimit(60)]
    fn parse_infix_operation(&self, op_token: Token, lhs: Box<Expr>, rhs: Box<Expr>) -> (r: Result<
        Box<Expr>,
        ParseError,
    >)
        ensures
            match spec_infix_expr(op_token.token_type, lhs@, rhs@) {
                Some(built) => {
                    if model_pos(rhs@).end_offset < model_pos(lhs@).start_offset {
                        r matches Err(e) && e == ParseError::PositionsOutOfOrder
                    } else {
                        r matches Ok(b) && b@ == built
                    }
                },
                None => r matches Err(e) && e == ParseError::UnknownInfixOperator {
                    token_type: op_token.token_type,
                },
            },
    {
        let lhs_pos = lhs.get_source_position();
        let rhs_pos = rhs.get_source_position();
        proof {
            assert(spec_infix_binding_power(op_token.token_type) is Some <==> spec_infix_expr(
                op_token.token_type,
                lhs@,
                rhs@,
            ) is Some);
        }
        if infix_binding_power(op_token.token_type).is_some() && rhs_pos.end_offset
            < lhs_pos.start_offset {
            return Err(ParseError::PositionsOutOfOrder);
        }
        if op_token.token_type == token_types::AMPERSAND {
            return Ok(
                Box::new(
                    Expr::Intersect {
                        source_position: lhs_pos.thru(rhs_pos),
                        lhs: lhs,
                        rhs: rhs,
                    },
                ),
            );
        }
        if op_token.token_type == token_types::AMPERSAND_AMPERSAND {
            return Ok(
                Box::new(
                    Expr::IntersectLowPrecedence {
                        source_position: lhs_pos.thru(rhs_pos),
                        lhs: lhs,
                        rhs: rhs,
                    },
                ),
            );
        }
        if op_token.token_type == token_types::AND {
            return Ok(
                Box::new(
                    Expr::LogicalAnd {
                        source_position: lhs_pos.thru(rhs_pos),
                        lhs: lhs,
                        rhs: rhs,
                    },
                ),
            );
        }
        if op_token.token_type == token_types::ASTERISK {
            return Ok(
                Box::new(
                    Expr::Multiplication {
                        source_position: lhs_pos.thru(rhs_pos),
                        lhs: lhs,
                        rhs: rhs,
                    },
                ),
            );
        }
        if op_token.token_type == token_types::COLON {
            return Ok(
                Box::new(
                    Expr::Qualify {
                        source_position: lhs_pos.thru(rhs_pos),
                        lhs: lhs,
                        rhs: rhs,
                    },
                ),
            );
        }
        if op_token.token_type == token_types::DASH {
            return Ok(
                Box::new(
                    Expr::Subtraction {
                        source_position: lhs_pos.thru(rhs_pos),
                        lhs: lhs,
                        rhs: rhs,
                    },
                ),
            );
        }
        if op_token.token_type == token_types::DOT {
            return Ok(
                Box::new(
                    Expr::FieldReference {
                        source_position: lhs_pos.thru(rhs_pos),
                        parent: lhs,
                        child: rhs,
                    },
                ),
            );
        }
        if op_token.token_type == token_types::DOT_DOT {
            return Ok(
                Box::new(
                    Expr::Range {
                        source_position: lhs_pos.thru(rhs_pos),
                        first: lhs,
                        last: rhs,
                    },
                ),
            );
        }
        if op_token.token_type == token_types::EQUALS {
            return Ok(
                Box::new(
                    Expr::IntersectAssignValue {
                        source_position: lhs_pos.thru(rhs_pos),
                        lhs: lhs,
                        rhs: rhs,
                    },
                ),
            );
        }
        if op_token.token_type == token_types::EQUALS_EQUALS {
            return Ok(
                Box::new(
                    Expr::Equals {
                        source_position: lhs_pos.thru(rhs_pos),
                        lhs: lhs,
                        rhs: rhs,
                    },
                ),
            );
        }
        if op_token.token_type == token_types::EQUALS_TILDE {
            return Ok(
                Box::new(
                    Expr::Match {
                        source_position: lhs_pos.thru(rhs_pos),
                        lhs: lhs,
                        rhs: rhs,
                    },
                ),
            );
        }
        if op_token.token_type == token_types::EXCLAMATION_EQUALS {
            return Ok(
                Box::new(
                    Expr::NotEquals {
                        source_position: lhs_pos.thru(rhs_pos),
                        lhs: lhs,
                        rhs: rhs,
                    },
                ),
            );
        }
        if op_token.token_type == token_types::EXCLAMATION_TILDE {
            return Ok(
                Box::new(
                    Expr::NotMatch {
                        source_position: lhs_pos.thru(rhs_pos),
                        lhs: lhs,
                        rhs: rhs,
                    },
                ),
            );
        }
        if op_token.token_type == token_types::GREATER_THAN {
            return Ok(
                Box::new(
                    Expr::GreaterThan {
                        source_position: lhs_pos.thru(rhs_pos),
                        lhs: lhs,
                        rhs: rhs,
                    },
                ),
            );
        }
        if op_token.token_type == token_types::GREATER_THAN_OR_EQUALS {
            return Ok(
                Box::new(
                    Expr::GreaterThanOrEquals {
                        source_position: lhs_pos.thru(rhs_pos),
                        lhs: lhs,
                        rhs: rhs,
                    },
                ),
            );
        }
        if op_token.token_type == token_types::IN {
            return Ok(
                Box::new(
                    Expr::In {
                        source_position: lhs_pos.thru(rhs_pos),
                        lhs: lhs,
                        rhs: rhs,
                    },
                ),
            );
        }
        if op_token.token_type == token_types::IS {
            return Ok(
                Box::new(
                    Expr::Is {
                        source_position: lhs_pos.thru(rhs_pos),
                        lhs: lhs,
                        rhs: rhs,
                    },
                ),
            );
        }
        if op_token.token_type == token_types::LESS_THAN {
            return Ok(
                Box::new(
                    Expr::LessThan {
                        source_position: lhs_pos.thru(rhs_pos),
                        lhs: lhs,
                        rhs: rhs,
                    },
                ),
            );
        }
        if op_token.token_type == token_types::LESS_THAN_OR_EQUALS {
            return Ok(
                Box::new(
                    Expr::LessThanOrEquals {
                        source_position: lhs_pos.thru(rhs_pos),
                        lhs: lhs,
                        rhs: rhs,
                    },
                ),
            );
        }
        if op_token.token_type == token_types::OR {
            return Ok(
                Box::new(
                    Expr::LogicalOr {
                        source_position: lhs_pos.thru(rhs_pos),
                        lhs: lhs,
                        rhs: rhs,
                    },
                ),
            );
        }
        if op_token.token_type == token_types::PLUS {
            return Ok(
                Box::new(
                    Expr::Addition {
                        source_position: lhs_pos.thru(rhs_pos),
                        lhs: lhs,
                        rhs: rhs,
                    },
                ),
            );
        }
        if op_token.token_type == token_types::QUESTION_COLON {
            return Ok(
                Box::new(
                    Expr::IntersectDefaultValue {
                        source_position: lhs_pos.thru(rhs_pos),
                        lhs: lhs,
                        rhs: rhs,
                    },
                ),
            );
        }
        if op_token.token_type == token_types::RIGHT_ARROW {
            return Ok(
                Box::new(
                    Expr::FunctionArrow {
                        source_position: lhs_pos.thru(rhs_pos),
                        argument: lhs,
                        result: rhs,
                    },
                ),
            );
        }
        if op_token.token_type == token_types::SLASH {
            return Ok(
                Box::new(
                    Expr::Division {
                        source_position: lhs_pos.thru(rhs_pos),
                        lhs: lhs,
                        rhs: rhs,
                    },
                ),
            );
        }
        if op_token.token_type == token_types::SYNTH_DOCUMENT {
            return Ok(
                Box::new(
                    Expr::Document {
                        source_position: lhs_pos.thru(rhs_pos),
                        lhs: lhs,
                        rhs: rhs,
                    },
                ),
            );
        }
        if op_token.token_type == token_types::VERTICAL_BAR {
            return Ok(
                Box::new(
                    Expr::Union {
                        source_position: lhs_pos.thru(rhs_pos),
                        lhs: lhs,
                        rhs: rhs,
                    },
                ),
            );
        }
        if op_token.token_type == token_types::WHEN {
            return Ok(
                Box::new(
                    Expr::When {
                        source_position: lhs_pos.thru(rhs_pos),
                        lhs: lhs,
                        rhs: rhs,
                    },
                ),
            );
        }
        if op_token.token_type == token_types::WHERE {
            return Ok(
                Box::new(
                    Expr::Where {
                        source_position: lhs_pos.thru(rhs_pos),
                        lhs: lhs,
                        rhs: rhs,
                    },
                ),
            );
        }
        Err(ParseError::UnknownInfixOperator { token_type: op_token.token_type })
    }

    /// The Pratt loop: extends an already-parsed expression with operators
    /// whose binding power reaches the minimum.
    fn parse_expr_continue(&self, lhs: Box<Expr>, min: u32, i: usize) -> (r: Result<
        (Box<Expr>, usize),
        ParseError,
    >)
        requires
            self.inv(),
            i <= self.tokens@.len() + 1,
        ensures
            match spec_parse_loop(self.tokens@, self.chars@, min, lhs@, i as int) {
                ParseStep::Parsed { expr, next } => r matches Ok(p) && p.0@ == expr && p.1 == next,
                ParseStep::Failed { error } => r matches Err(e) && e == error,
            },
        decreases self.tokens@.len() + 2 - i, 2int,
    {
        let op_token = self.tok_at(i);
        match postfix_binding_power(op_token.token_type) {
            Some(power) => {
                if power < min {
                    return Ok((lhs, i));
                }
                let ghost lhs_model = lhs@;
                let (new_lhs, next) = self.parse_postfix_expression(i, lhs)?;
                proof {
                    lemma_postfix_step_progress(self.tokens@, self.chars@, lhs_model, i as int);
                    assert(next_idx(self.tokens@, next as int, i as int + 1) == next as int);
                }
                self.parse_expr_continue(new_lhs, min, next)
            },
            None => match infix_binding_power(op_token.token_type) {
                Some(bp) => {
                    if bp.0 < min {
                        return Ok((lhs, i));
                    }
                    proof {
                        if i as int > self.tokens@.len() {
                            assert(op_token.token_type == token_types::EOF);
                            assert(spec_infix_binding_power(token_types::EOF) is None);
                        }
                        assert(i as int <= self.tokens@.len());
                    }
                    let ghost lhs_model = lhs@;
                    proof {
                        let toks = self.tokens@;
                        let src = self.chars@;
                        assert(spec_parse_loop(toks, src, min, lhs@, i as int) == (
                        match spec_infix_step(toks, src, lhs@, i as int, bp.1) {
                            ParseStep::Parsed { expr, next } => spec_parse_loop(
                                toks,
                                src,
                                min,
                                expr,
                                next_idx(toks, next, i as int + 2),
                            ),
                            failed => failed,
                        }));
                        assert(spec_infix_step(toks, src, lhs@, i as int, bp.1)
                            == spec_infix_step_inner(toks, src, lhs@, i as int, bp.1));
                    }
                    let (rhs, next) = self.parse_expr_binding_power(bp.1, i + 1)?;
                    proof {
                        lemma_parse_progress(self.tokens@, self.chars@, bp.1, i as int + 1);
                        assert(next_idx(self.tokens@, next as int, i as int + 2) == next as int);
                    }
                    let built = self.parse_infix_operation(op_token, lhs, rhs)?;
                    self.parse_expr_continue(built, min, next)
                },
                None => Ok((lhs, i)),
            },
        }
    }

    /// Parses one expression with the given minimum binding power.
    fn parse_expr_binding_power(&self, min: u32, i: usize) -> (r: Result<
        (Box<Expr>, usize),
        ParseError,
    >)
        requires
            self.inv(),
            i <= self.tokens@.len() + 1,
        ensures
            match spec_parse(self.tokens@, self.chars@, min, i as int) {
                ParseStep::Parsed { expr, next } => r matches Ok(p) && p.0@ == expr && p.1 == next,
                ParseStep::Failed { error } => r matches Err(e) && e == error,
            },
        decreases self.tokens@.len() + 2 - i, 2int,
    {
        let (lhs, j) = self.parse_left_hand_side(i)?;
        proof {
            lemma_lhs_progress(self.tokens@, self.chars@, i as int);
        }
        self.parse_expr_continue(lhs, min, j)
    }
}

/// Prepending one expression prepends its model.
proof fn lemma_models_of_cons(x: Expr, r: Seq<Expr>)
    ensures
        models_of(seq![x] + r) == seq![x.model()] + models_of(r),
{
    let whole = seq![x] + r;
    assert(whole.len() > 0);
    assert(whole[0] == x);
    assert(whole.drop_first() =~= r);
    assert(models_of(whole) == seq![whole[0].model()] + models_of(whole.drop_first()));
}

/// Parses the filtered token stream into an expression tree, or reports the
/// first structural surprise.
pub fn parse_expression<'a>(scan_outcome: &scanner::Outcome<'a>) -> (r: Result<
    Outcome<'a>,
    ParseError,
>)
    requires
        parse_input_wf(shared_tokens(scan_outcome.tokens), scan_outcome.source_code@),
    ensures
        match spec_parse(
            shared_tokens(scan_outcome.tokens),
            scan_outcome.source_code@,
            0,
            0,
        ) {
            ParseStep::Parsed { expr, next } => r matches Ok(o) && o.model@ == expr
                && o.source_code == scan_outcome.source_code && shared_offsets(o.new_line_offsets)
                == shared_offsets(scan_outcome.new_line_offsets),
            ParseStep::Failed { error } => r matches Err(e) && e == error,
        },
{
    let tokens = vstd::slice::slice_to_vec(scan_outcome.tokens.as_slice());
    let chars = crate::text::chars_vec(scan_outcome.source_code);
    let parser = LligneParser { tokens, chars };
    let (model, _) = parser.parse_expr_binding_power(0, 0)?;
    Ok(
        Outcome {
            source_code: scan_outcome.source_code,
            new_line_offsets: scan_outcome.new_line_offsets.new_ref(),
            model,
        },
    )
}

/// Token streams as the scanner and the filter hand them over, as far as
/// positions go: offsets never decrease from token to token — except onto a
/// separator the filter hoisted a trailing documentation token over — every
/// token that can enter an expression covers at least one byte, and every
/// token's end fits a 32-bit offset.
pub open spec fn tokens_orderly(tokens: Seq<Token>) -> bool {
    &&& forall|a: int, b: int|
        0 <= a <= b < tokens.len() && (#[trigger] tokens[b]).token_type != token_types::COMMA
            && tokens[b].token_type != token_types::SEMICOLON ==> (#[trigger] tokens[a]).source_offset
            <= tokens[b].source_offset
    &&& forall|k: int|
        0 <= k < tokens.len() && (#[trigger] tokens[k]).token_type != token_types::EOF
            && tokens[k].token_type != token_types::SYNTH_DOCUMENT ==> tokens[k].source_length >= 1
    &&& forall|k: int|
        0 <= k < tokens.len() ==> (#[trigger] tokens[k]).source_offset + tokens[k].source_length
            <= u32::MAX
}

/// True when the token type can stand first in a successfully parsed
/// expression: separators cannot.
pub open spec fn opens_expression(token_type: u16) -> bool {
    &&& token_type != token_types::COMMA
    &&& token_type != token_types::SEMICOLON
    &&& token_type != token_types::EOF
    &&& token_type != token_types::SYNTH_DOCUMENT
}

/// An infix construction is well-placed when its operands are and they
/// stand in order.
#[verifier::rlimit(60)]
proof fn lemma_infix_expr_wf(op: u16, l: ExprModel, r: ExprModel)
    requires
        model_positions_wf(l),
        model_positions_wf(r),
        model_pos(l).start_offset <= model_pos(r).start_offset,
    ensures
        spec_infix_expr(op, l, r) matches Some(built) ==> model_positions_wf(built) && model_pos(
            built,
        ).start_offset == model_pos(l).start_offset,
{
}

/// Every expression a successful parse of a left-hand side builds over an
/// orderly token stream is well-placed and starts at its first token.
pub proof fn lemma_lhs_positions(tokens: Seq<Token>, s: Seq<char>, i: int)
    requires
        tokens_orderly(tokens),
        0 <= i <= tokens.len() + 2,
    ensures
        spec_parse_lhs(tokens, s, i) matches ParseStep::Parsed { expr, .. }
            ==> model_positions_wf(expr) && model_pos(expr).start_offset == tok(
            tokens,
            i,
        ).source_offset && opens_expression(tok(tokens, i).token_type) && 0 <= i < tokens.len(),
    decreases tokens.len() + 2 - i, 1int,
{
    let t = tok(tokens, i);
    let tt = t.token_type;
    if tt == token_types::DASH {
        lemma_parse_positions(tokens, s, 29, i + 1);
        lemma_parse_progress(tokens, s, 29, i + 1);
    } else if tt == token_types::LEFT_BRACE {
        lemma_items_positions(
            tokens,
            s,
            token_types::RIGHT_BRACE,
            ParseError::MissingRightBrace,
            i + 1,
        );
        lemma_items_progress(
            tokens,
            s,
            token_types::RIGHT_BRACE,
            ParseError::MissingRightBrace,
            i + 1,
        );
    } else if tt == token_types::LEFT_BRACKET {
        lemma_items_positions(
            tokens,
            s,
            token_types::RIGHT_BRACKET,
            ParseError::MissingRightBracket,
            i + 1,
        );
        lemma_items_progress(
            tokens,
            s,
            token_types::RIGHT_BRACKET,
            ParseError::MissingRightBracket,
            i + 1,
        );
    } else if tt == token_types::LEFT_PARENTHESIS {
        lemma_parenthesized_positions(tokens, s, i);
    } else if tt == token_types::NOT {
        lemma_parse_positions(tokens, s, 17, i + 1);
        lemma_parse_progress(tokens, s, 17, i + 1);
    }
}

/// Every expression a successful parse of a parenthesized form builds over
/// an orderly token stream is well-placed and starts at its opening
/// parenthesis.
pub proof fn lemma_parenthesized_positions(tokens: Seq<Token>, s: Seq<char>, i: int)
    requires
        tokens_orderly(tokens),
        0 <= i <= tokens.len() + 2,
    ensures
        spec_parse_parenthesized(tokens, s, i) matches ParseStep::Parsed { expr, .. }
            ==> model_positions_wf(expr) && model_pos(expr).start_offset == tok(
            tokens,
            i,
        ).source_offset && 0 <= i < tokens.len(),
    decreases tokens.len() + 2 - i, 0int,
{
    let t = tok(tokens, i);
    if t.token_type == token_types::LEFT_PARENTHESIS && tok(tokens, i + 1).token_type
        != token_types::RIGHT_PARENTHESIS {
        lemma_parse_positions(tokens, s, 0, i + 1);
        lemma_parse_progress(tokens, s, 0, i + 1);
        match spec_parse(tokens, s, 0, i + 1) {
            ParseStep::Parsed { expr: inner, next } => {
                let j = next_idx(tokens, next, i + 2);
                assert(j == next);
                if tok(tokens, j).token_type == token_types::COMMA {
                    lemma_items_positions(
                        tokens,
                        s,
                        token_types::RIGHT_PARENTHESIS,
                        ParseError::MissingRightParenthesis,
                        j + 1,
                    );
                    lemma_items_progress(
                        tokens,
                        s,
                        token_types::RIGHT_PARENTHESIS,
                        ParseError::MissingRightParenthesis,
                        j + 1,
                    );
                    match spec_items(
                        tokens,
                        s,
                        token_types::RIGHT_PARENTHESIS,
                        ParseError::MissingRightParenthesis,
                        j + 1,
                    ) {
                        ItemsStep::Parsed { items, next: n2 } => {
                            assert forall|k: int| 0 <= k < (seq![inner] + items).len()
                                implies model_positions_wf(#[trigger] (seq![inner] + items)[k]) by {
                                if k == 0 {
                                    assert((seq![inner] + items)[k] == inner);
                                } else {
                                    assert((seq![inner] + items)[k] == items[k - 1]);
                                }
                            }
                        },
                        _ => {},
                    }
                }
            },
            _ => {},
        }
    }
}

/// Every item of a successfully parsed separated list over an orderly
/// token stream is well-placed, and the list ends on its terminator.
pub proof fn lemma_items_positions(
    tokens: Seq<Token>,
    s: Seq<char>,
    term: u16,
    err: ParseError,
    i: int,
)
    requires
        tokens_orderly(tokens),
        0 <= i <= tokens.len() + 2,
    ensures
        spec_items(tokens, s, term, err, i) matches ItemsStep::Parsed { items, next } ==> (forall|
            k: int,
        |
            0 <= k < items.len() ==> model_positions_wf(#[trigger] items[k])) && tok(
            tokens,
            next - 1,
        ).token_type == term,
    decreases tokens.len() + 2 - i, 3int,
{
    if tok(tokens, i).token_type == term {
    } else {
        lemma_parse_positions(tokens, s, 0, i);
        lemma_parse_progress(tokens, s, 0, i);
        match spec_parse(tokens, s, 0, i) {
            ParseStep::Parsed { expr, next } => {
                let j = next_idx(tokens, next, i + 1);
                assert(j == next);
                if tok(tokens, j).token_type == token_types::COMMA {
                    lemma_items_positions(tokens, s, term, err, j + 1);
                    match spec_items(tokens, s, term, err, j + 1) {
                        ItemsStep::Parsed { items, next: n2 } => {
                            assert forall|k: int| 0 <= k < (seq![expr] + items).len()
                                implies model_positions_wf(#[trigger] (seq![expr] + items)[k]) by {
                                if k == 0 {
                                    assert((seq![expr] + items)[k] == expr);
                                } else {
                                    assert((seq![expr] + items)[k] == items[k - 1]);
                                }
                            }
                        },
                        _ => {},
                    }
                } else if tok(tokens, j).token_type == term {
                    assert forall|k: int| 0 <= k < seq![expr].len() implies model_positions_wf(
                        #[trigger] seq![expr][k],
                    ) by {
                        assert(seq![expr][k] == expr);
                    }
                }
            },
            _ => {},
        }
    }
}

/// The Pratt loop keeps an expression well-placed and anchored at its
/// first token.
pub proof fn lemma_loop_positions(
    tokens: Seq<Token>,
    s: Seq<char>,
    min: u32,
    e: ExprModel,
    i: int,
    i0: int,
)
    requires
        tokens_orderly(tokens),
        0 <= i <= tokens.len() + 2,
        0 <= i0 <= i,
        i0 < tokens.len(),
        model_positions_wf(e),
        model_pos(e).start_offset == tokens[i0].source_offset,
    ensures
        spec_parse_loop(tokens, s, min, e, i) matches ParseStep::Parsed { expr, .. }
            ==> model_positions_wf(expr) && model_pos(expr).start_offset
            == tokens[i0].source_offset,
    decreases tokens.len() + 2 - i, 2int,
{
    let op = tok(tokens, i);
    match spec_postfix_binding_power(op.token_type) {
        Some(p) => {
            if p >= min {
                lemma_postfix_step_progress(tokens, s, e, i);
                if op.token_type == token_types::LEFT_PARENTHESIS {
                    lemma_items_positions(
                        tokens,
                        s,
                        token_types::RIGHT_PARENTHESIS,
                        ParseError::MissingRightParenthesis,
                        i + 1,
                    );
                    lemma_items_progress(
                        tokens,
                        s,
                        token_types::RIGHT_PARENTHESIS,
                        ParseError::MissingRightParenthesis,
                        i + 1,
                    );
                }
                match spec_postfix_step(tokens, s, e, i) {
                    ParseStep::Parsed { expr, next } => {
                        let k = next_idx(tokens, next, i + 1);
                        assert(k == next);
                        if op.token_type == token_types::LEFT_PARENTHESIS {
                            assert(0 <= i < tokens.len());
                            match spec_items(
                                tokens,
                                s,
                                token_types::RIGHT_PARENTHESIS,
                                ParseError::MissingRightParenthesis,
                                i + 1,
                            ) {
                                ItemsStep::Parsed { items, next: n2 } => {
                                    assert(i + 1 < n2 <= tokens.len());
                                    let close = tok(tokens, n2 - 1);
                                    assert(close.token_type == token_types::RIGHT_PARENTHESIS);
                                    assert(tokens[i0].source_offset <= tokens[i].source_offset);
                                    assert(tokens[i].source_offset <= tokens[n2
                                        - 1].source_offset);
                                    assert(tokens[n2 - 1].source_length >= 1);
                                    assert(tokens[n2 - 1].source_offset + tokens[n2
                                        - 1].source_length <= u32::MAX);
                                    let args = ExprModel::FunctionArguments {
                                        source_position: span_of(pos_of(op), pos_of(close)),
                                        items,
                                    };
                                    assert(expr == ExprModel::FunctionCall {
                                        source_position: span_of(model_pos(e), model_pos(args)),
                                        function_reference: Box::new(e),
                                        argument: Box::new(args),
                                    });
                                    assert(pos_of(close).end_offset == close.source_offset
                                        + close.source_length);
                                    assert(model_pos(args).start_offset == op.source_offset);
                                    assert(model_positions_wf(args));
                                    assert(model_positions_wf(expr));
                                },
                                _ => {},
                            }
                        } else {
                            assert(op.token_type == token_types::QUESTION);
                            assert(model_positions_wf(expr));
                        }
                        lemma_loop_positions(tokens, s, min, expr, k, i0);
                        assert(spec_parse_loop(tokens, s, min, e, i) == spec_parse_loop(
                            tokens,
                            s,
                            min,
                            expr,
                            k,
                        ));
                    },
                    _ => {},
                }
            }
        },
        None => match spec_infix_binding_power(op.token_type) {
            Some(bp) => {
                if bp.0 >= min {
                    assert(i < tokens.len());
                    lemma_parse_positions(tokens, s, bp.1, i + 1);
                    lemma_parse_progress(tokens, s, bp.1, i + 1);
                    match spec_parse(tokens, s, bp.1, i + 1) {
                        ParseStep::Parsed { expr: rhs, next } => {
                            assert(model_pos(rhs).start_offset == tok(
                                tokens,
                                i + 1,
                            ).source_offset);
                            assert(tokens[i0].source_offset <= tokens[i + 1].source_offset);
                            lemma_infix_expr_wf(op.token_type, e, rhs);
                            match spec_infix_expr(op.token_type, e, rhs) {
                                Some(built) => {
                                    if !(model_pos(rhs).end_offset < model_pos(
                                        e,
                                    ).start_offset) {
                                        let k = next_idx(tokens, next, i + 2);
                                        assert(k == next);
                                        lemma_loop_positions(tokens, s, min, built, k, i0);
                                        assert(spec_infix_step(tokens, s, e, i, bp.1)
                                            == spec_infix_step_inner(tokens, s, e, i, bp.1));
                                        assert(spec_infix_step_inner(tokens, s, e, i, bp.1)
                                            == ParseStep::Parsed { expr: built, next });
                                        assert(spec_parse_loop(tokens, s, min, e, i)
                                            == spec_parse_loop(tokens, s, min, built, k));
                                    }
                                },
                                None => {},
                            }
                        },
                        _ => {},
                    }
                }
            },
            None => {},
        },
    }
}

/// Every expression a successful parse builds over an orderly token stream
/// is well-placed — its source positions satisfy, throughout the tree, that
/// every expression covers a nonempty byte range and every binary
/// expression spans exactly its operands — and starts at its first token.
pub proof fn lemma_parse_positions(tokens: Seq<Token>, s: Seq<char>, min: u32, i: int)
    requires
        tokens_orderly(tokens),
        0 <= i <= tokens.len() + 2,
    ensures
        spec_parse(tokens, s, min, i) matches ParseStep::Parsed { expr, .. }
            ==> model_positions_wf(expr) && model_pos(expr).start_offset == tok(
            tokens,
            i,
        ).source_offset && opens_expression(tok(tokens, i).token_type) && 0 <= i < tokens.len(),
    decreases tokens.len() + 2 - i, 2int,
{
    if i <= tokens.len() {
        lemma_lhs_positions(tokens, s, i);
        lemma_lhs_progress(tokens, s, i);
        match spec_parse_lhs(tokens, s, i) {
            ParseStep::Parsed { expr, next } => {
                let j = next_idx(tokens, next, i + 1);
                assert(j == next);
                lemma_loop_positions(tokens, s, min, expr, j, i);
            },
            _ => {},
        }
    }
}


/// A source of fewer than 65536 bytes — where no token length is truncated
/// — moves through the whole pipeline with every requirement met: the
/// scan's token stream satisfies what the filter requires, the filtered
/// stream satisfies what the parser requires, and the filtered stream is
/// orderly, so `lemma_parse_positions` applies to whatever the parser
/// builds from it.
pub proof fn lemma_pipeline_wf(s: Seq<char>)
    requires
        byte_len(s) < 0x10000,
    ensures
        crate::leading_trailing_documentation::filter_input_wf(
            crate::scanner::spec_scan(s, 0).tokens,
            s,
        ),
        parse_input_wf(
            crate::leading_trailing_documentation::spec_filter_from(
                crate::scanner::spec_scan(s, 0).tokens,
                s,
                0,
            ),
            s,
        ),
        tokens_orderly(
            crate::leading_trailing_documentation::spec_filter_from(
                crate::scanner::spec_scan(s, 0).tokens,
                s,
                0,
            ),
        ),
{
    let toks = crate::scanner::spec_scan(s, 0).tokens;
    crate::scanner::lemma_scan_stream_wf(s, 0);
    crate::scanner::lemma_scan_eof_tail(s, 0);
    crate::scanner::lemma_scan_token_count(s, 0);
    crate::leading_trailing_documentation::lemma_filter_stream_wf(toks, s, 0);
    crate::text::lemma_byte_off_mono(s, 0, s.len() as int);
    crate::text::lemma_byte_off_at_ends(s);
    let out = crate::leading_trailing_documentation::spec_filter_from(toks, s, 0);
    assert(s.len() <= byte_len(s));
    assert(toks.len() <= s.len() + 3);
    assert(out.len() <= 3 * toks.len());
    assert(out.len() < usize::MAX);
}


/// Every expression parsed from the scanned and filtered form of a source
/// of fewer than 65536 bytes is well-placed: throughout the tree, every
/// expression covers a nonempty byte range, and every binary expression
/// starts where its left operand starts and ends where its right operand
/// ends.
pub proof fn lemma_pipeline_positions(s: Seq<char>)
    requires
        byte_len(s) < 0x10000,
    ensures
        spec_parse(
            crate::leading_trailing_documentation::spec_filter_from(
                crate::scanner::spec_scan(s, 0).tokens,
                s,
                0,
            ),
            s,
            0,
            0,
        ) matches ParseStep::Parsed { expr, .. } ==> model_positions_wf(expr),
{
    lemma_pipeline_wf(s);
    let filtered = crate::leading_trailing_documentation::spec_filter_from(
        crate::scanner::spec_scan(s, 0).tokens,
        s,
        0,
    );
    lemma_parse_positions(filtered, s, 0, 0);
}


/// Scans, filters, and parses a piece of source code in one verified step:
/// the result is exactly what the specification-level pipeline yields. The
/// length bound lets every stage's requirement be discharged.
pub fn parse_source<'a>(source_code: &'a str) -> (r: Result<Outcome<'a>, ParseError>)
    requires
        byte_len(source_code@) < 0x10000,
    ensures
        match spec_parse(
            crate::leading_trailing_documentation::spec_filter_from(
                crate::scanner::spec_scan(source_code@, 0).tokens,
                source_code@,
                0,
            ),
            source_code@,
            0,
            0,
        ) {
            ParseStep::Parsed { expr, next } => r matches Ok(o) && o.model@ == expr
                && o.source_code == source_code && shared_offsets(o.new_line_offsets)
                == crate::scanner::spec_scan(source_code@, 0).new_lines,
            ParseStep::Failed { error } => r matches Err(e) && e == error,
        },
{
    proof {
        lemma_pipeline_wf(source_code@);
    }
    let scanned = crate::scanner::scan(source_code);
    let filtered = crate::leading_trailing_documentation::filter(scanned);
    parse_expression(&filtered)
}

} // verus!
