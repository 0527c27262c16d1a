//! Token filter that converts documentation tokens to leading or trailing
//! documentation.
//!
//! A documentation token opening a line becomes leading documentation for
//! what follows; one sharing a line with the token before it becomes
//! trailing documentation, hoisted in front of a `,` or `;` separator. A
//! zero-length synthetic document token is placed beside each converted
//! token so the parser can treat documentation as an ordinary infix
//! operator.

use vstd::prelude::*;
use vstd::string::StringSliceAdditionalSpecFns;
use vstd::utf8::encode_utf8;
use crate::scanner::Outcome;
use crate::shared_vec::{shared_offsets, shared_tokens, SharedTokens};
use crate::text::byte_len;
use crate::token_types;
use crate::tokens::Token;

verus! {

/// True when no line feed byte lies between the two byte positions. A line
/// feed is a single UTF-8 byte, so looking for the byte 0x0A finds exactly
/// the newline characters.
pub open spec fn on_same_line(s: Seq<char>, pos1: int, pos2: int) -> bool {
    forall|k: int| pos1 <= k < pos2 ==> encode_utf8(s)[k] != 10
}

/// A leading-documentation token covering the given documentation token.
pub open spec fn leading_of(token: Token) -> Token {
    Token {
        source_offset: token.source_offset,
        source_length: token.source_length,
        token_type: token_types::LEADING_DOCUMENTATION,
    }
}

/// A trailing-documentation token covering the given documentation token.
pub open spec fn trailing_of(token: Token) -> Token {
    Token {
        source_offset: token.source_offset,
        source_length: token.source_length,
        token_type: token_types::TRAILING_DOCUMENTATION,
    }
}

/// The zero-length synthetic document token at the given offset.
pub open spec fn synth_at(offset: u32) -> Token {
    Token { source_offset: offset, source_length: 0, token_type: token_types::SYNTH_DOCUMENT }
}

/// The filtered form of the token sequence from index `i` on. The
/// traversal looks one token ahead, so it runs to the second-to-last
/// token; the final token — the last end-of-file sentinel — is passed
/// through unchanged behind it.
pub open spec fn spec_filter_from(tokens: Seq<Token>, s: Seq<char>, i: int) -> Seq<Token>
    decreases tokens.len() - i,
    when i >= 0
{
    if i >= tokens.len() {
        seq![]
    } else if i + 1 >= tokens.len() {
        seq![tokens[i]]
    } else if tokens[i].token_type == token_types::DOCUMENTATION {
        seq![leading_of(tokens[i]), synth_at(tokens[i].source_offset)] + spec_filter_from(
            tokens,
            s,
            i + 1,
        )
    } else if tokens[i + 1].token_type == token_types::DOCUMENTATION {
        if on_same_line(s, tokens[i].source_offset as int, tokens[i + 1].source_offset as int) {
            if tokens[i].token_type == token_types::COMMA || tokens[i].token_type
                == token_types::SEMICOLON {
                seq![
                    synth_at(tokens[i + 1].source_offset),
                    trailing_of(tokens[i + 1]),
                    tokens[i],
                ] + spec_filter_from(tokens, s, i + 2)
            } else {
                seq![
                    tokens[i],
                    synth_at(tokens[i + 1].source_offset),
                    trailing_of(tokens[i + 1]),
                ] + spec_filter_from(tokens, s, i + 2)
            }
        } else {
            seq![tokens[i], leading_of(tokens[i + 1]), synth_at(tokens[i + 1].source_offset)]
                + spec_filter_from(tokens, s, i + 2)
        }
    } else {
        seq![tokens[i]] + spec_filter_from(tokens, s, i + 1)
    }
}

/// Looks for a line feed in the source code between two token start
/// positions.
#[verifier::loop_isolation(false)]
pub fn tokens_on_same_line(source_code: &str, token1_start_pos: u32, token2_start_pos: u32) -> (r:
    bool)
    requires
        token1_start_pos <= token2_start_pos,
        token2_start_pos <= byte_len(source_code@),
    ensures
        r == on_same_line(source_code@, token1_start_pos as int, token2_start_pos as int),
{
    let bytes = source_code.as_bytes();
    let mut k = token1_start_pos as usize;
    let end = token2_start_pos as usize;
    while k < end
        invariant
            token1_start_pos <= k <= end,
            forall|j: int|
                token1_start_pos <= j < k ==> encode_utf8(source_code@)[j] != 10,
        decreases end - k,
    {
        if bytes[k] == 10 {
            return false;
        }
        k = k + 1;
    }
    true
}

/// True of a token stream whose offsets rise from token to token and stay
/// within the source: what the filter needs of a scanner outcome.
pub open spec fn filter_input_wf(tokens: Seq<Token>, s: Seq<char>) -> bool {
    &&& tokens.len() >= 1
    &&& 3 * tokens.len() <= u32::MAX
    &&& forall|k: int| 0 <= k < tokens.len() ==> #[trigger] tokens[k].source_offset <= byte_len(s)
    &&& forall|k: int|
        0 <= k < tokens.len() - 1 ==> #[trigger] tokens[k].source_offset <= tokens[k
            + 1].source_offset
}

/// Converts documentation tokens to leading or trailing documentation.
#[verifier::loop_isolation(false)]
pub fn filter(scan_result: Outcome) -> (r: Outcome)
    requires
        filter_input_wf(shared_tokens(scan_result.tokens), scan_result.source_code@),
    ensures
        r.source_code == scan_result.source_code,
        shared_tokens(r.tokens) == spec_filter_from(
            shared_tokens(scan_result.tokens),
            scan_result.source_code@,
            0,
        ),
        shared_offsets(r.new_line_offsets) == shared_offsets(scan_result.new_line_offsets),
{
    let ghost toks = shared_tokens(scan_result.tokens);
    let ghost s = scan_result.source_code@;
    let tokens = scan_result.tokens.as_slice();
    let n = tokens.len();
    let mut result: Vec<Token> = Vec::new();

    let mut index: usize = 0;
    while index < n - 1
        invariant
            index <= n,
            spec_filter_from(toks, s, 0) == result@ + spec_filter_from(toks, s, index as int),
        decreases n - index,
    {
        let ghost i = index as int;
        let ghost before = result@;
        if tokens[index].token_type == token_types::DOCUMENTATION {
            result.push(
                Token {
                    source_offset: tokens[index].source_offset,
                    source_length: tokens[index].source_length,
                    token_type: token_types::LEADING_DOCUMENTATION,
                },
            );
            result.push(
                Token {
                    source_offset: tokens[index].source_offset,
                    source_length: 0,
                    token_type: token_types::SYNTH_DOCUMENT,
                },
            );
            index = index + 1;
        } else if tokens[index + 1].token_type == token_types::DOCUMENTATION {
            if tokens_on_same_line(
                scan_result.source_code,
                tokens[index].source_offset,
                tokens[index + 1].source_offset,
            ) {
                if tokens[index].token_type == token_types::COMMA || tokens[index].token_type
                    == token_types::SEMICOLON {
                    result.push(
                        Token {
                            source_offset: tokens[index + 1].source_offset,
                            source_length: 0,
                            token_type: token_types::SYNTH_DOCUMENT,
                        },
                    );
                    result.push(
                        Token {
                            source_offset: tokens[index + 1].source_offset,
                            source_length: tokens[index + 1].source_length,
                            token_type: token_types::TRAILING_DOCUMENTATION,
                        },
                    );
                    result.push(tokens[index]);
                } else {
                    result.push(tokens[index]);
                    result.push(
                        Token {
                            source_offset: tokens[index + 1].source_offset,
                            source_length: 0,
                            token_type: token_types::SYNTH_DOCUMENT,
                        },
                    );
                    result.push(
                        Token {
                            source_offset: tokens[index + 1].source_offset,
                            source_length: tokens[index + 1].source_length,
                            token_type: token_types::TRAILING_DOCUMENTATION,
                        },
                    );
                }
                index = index + 2;
            } else {
                result.push(tokens[index]);
                result.push(
                    Token {
                        source_offset: tokens[index + 1].source_offset,
                        source_length: tokens[index + 1].source_length,
                        token_type: token_types::LEADING_DOCUMENTATION,
                    },
                );
                result.push(
                    Token {
                        source_offset: tokens[index + 1].source_offset,
                        source_length: 0,
                        token_type: token_types::SYNTH_DOCUMENT,
                    },
                );
                index = index + 2;
            }
        } else {
            result.push(tokens[index]);
            index = index + 1;
        }
        proof {
            assert(spec_filter_from(toks, s, 0) =~= result@ + spec_filter_from(
                toks,
                s,
                index as int,
            ));
        }
    }
    if index < n {
        result.push(tokens[index]);
    }
    proof {
        assert(spec_filter_from(toks, s, 0) =~= result@);
        lemma_filter_count(toks, s, 0);
    }
    Outcome {
        source_code: scan_result.source_code,
        tokens: SharedTokens::from_vec(&result),
        new_line_offsets: scan_result.new_line_offsets,
    }
}

/// The filter emits at most three tokens for each token it reads.
pub proof fn lemma_filter_count(tokens: Seq<Token>, s: Seq<char>, i: int)
    requires
        0 <= i,
    ensures
        i <= tokens.len() ==> spec_filter_from(tokens, s, i).len() <= 3 * (tokens.len() - i),
        i > tokens.len() ==> spec_filter_from(tokens, s, i).len() == 0,
    decreases tokens.len() - i,
{
    if i + 1 < tokens.len() {
        if tokens[i].token_type != token_types::DOCUMENTATION && tokens[i + 1].token_type
            == token_types::DOCUMENTATION {
            lemma_filter_count(tokens, s, i + 2);
        } else {
            lemma_filter_count(tokens, s, i + 1);
        }
    }
}

/// Applied to an outcome without documentation tokens, the filter hands
/// the token sequence back unchanged, the closing run of end-of-file
/// sentinels included.
pub proof fn lemma_filter_without_documentation(tokens: Seq<Token>, s: Seq<char>, i: int)
    requires
        0 <= i,
        forall|k: int|
            0 <= k < tokens.len() ==> #[trigger] tokens[k].token_type
                != token_types::DOCUMENTATION,
    ensures
        spec_filter_from(tokens, s, i) == tokens.subrange(
            if i <= tokens.len() {
                i
            } else {
                tokens.len() as int
            },
            tokens.len() as int,
        ),
    decreases tokens.len() - i,
{
    if i + 1 >= tokens.len() {
        assert(spec_filter_from(tokens, s, i) =~= tokens.subrange(
            if i <= tokens.len() {
                i
            } else {
                tokens.len() as int
            },
            tokens.len() as int,
        ));
    } else {
        lemma_filter_without_documentation(tokens, s, i + 1);
        assert(spec_filter_from(tokens, s, i) =~= tokens.subrange(i, tokens.len() as int));
    }
}


/// Offsets that never decrease between neighbours never decrease between
/// any two tokens.
pub proof fn lemma_offsets_pairwise(tokens: Seq<Token>, a: int, b: int)
    requires
        forall|k: int|
            0 <= k < tokens.len() - 1 ==> (#[trigger] tokens[k]).source_offset <= tokens[k
                + 1].source_offset,
        0 <= a <= b < tokens.len(),
    ensures
        tokens[a].source_offset <= tokens[b].source_offset,
    decreases b - a,
{
    if a < b {
        lemma_offsets_pairwise(tokens, a, b - 1);
    }
}

/// What the filter makes of a well-formed scanner stream: a stream whose
/// tokens still sit on character boundaries within the source, whose
/// offsets never decrease except onto a hoisted separator, and whose
/// tokens — the end-of-file and synthetic document tokens aside — still
/// cover at least one byte.
pub proof fn lemma_filter_stream_wf(tokens: Seq<Token>, s: Seq<char>, i: int)
    requires
        0 <= i,
        crate::scanner::scan_stream_wf(tokens, s),
    ensures
        ({
            let out = spec_filter_from(tokens, s, i);
            &&& i <= tokens.len() ==> out.len() <= 3 * (tokens.len() - i)
            &&& forall|k: int|
                0 <= k < out.len() ==> crate::text::is_byte_boundary(
                    s,
                    (#[trigger] out[k]).source_offset as int,
                )
            &&& forall|k: int|
                0 <= k < out.len() ==> crate::text::is_byte_boundary(
                    s,
                    (#[trigger] out[k]).source_offset + out[k].source_length,
                )
            &&& forall|k: int|
                0 <= k < out.len() ==> (#[trigger] out[k]).source_offset + out[k].source_length
                    <= byte_len(s)
            &&& forall|k: int|
                0 <= k < out.len() && (#[trigger] out[k]).token_type != token_types::EOF
                    && out[k].token_type != token_types::SYNTH_DOCUMENT ==> out[k].source_length
                    >= 1
            &&& forall|k: int|
                0 <= k < out.len() && i < tokens.len() ==> (#[trigger] out[k]).source_offset
                    >= tokens[i].source_offset
            &&& forall|a: int, b: int|
                0 <= a <= b < out.len() && (#[trigger] out[b]).token_type != token_types::COMMA
                    && out[b].token_type != token_types::SEMICOLON
                    ==> (#[trigger] out[a]).source_offset <= out[b].source_offset
        }),
    decreases tokens.len() - i,
{
    let out = spec_filter_from(tokens, s, i);
    if i + 1 >= tokens.len() {
    } else {
        let step: int = if tokens[i].token_type != token_types::DOCUMENTATION && tokens[i
            + 1].token_type == token_types::DOCUMENTATION {
            2
        } else {
            1
        };
        lemma_filter_stream_wf(tokens, s, i + step);
        let rest = spec_filter_from(tokens, s, i + step);
        let head_len = out.len() - rest.len();
        assert(1 <= head_len <= 3);
        assert(forall|k: int|
            head_len <= k < out.len() ==> #[trigger] out[k] == rest[k - head_len]);
        if rest.len() > 0 {
            assert(i + step < tokens.len());
            lemma_offsets_pairwise(tokens, i, i + step);
            if i + 1 < tokens.len() {
                lemma_offsets_pairwise(tokens, i + 1, i + step);
            }
        }
        assert forall|k: int| 0 <= k < out.len() implies {
            &&& crate::text::is_byte_boundary(s, (#[trigger] out[k]).source_offset as int)
            &&& crate::text::is_byte_boundary(s, out[k].source_offset + out[k].source_length)
            &&& out[k].source_offset + out[k].source_length <= byte_len(s)
            &&& (out[k].token_type != token_types::EOF && out[k].token_type
                != token_types::SYNTH_DOCUMENT ==> out[k].source_length >= 1)
            &&& out[k].source_offset >= tokens[i].source_offset
        } by {
            if k >= head_len {
                assert(out[k] == rest[k - head_len]);
                assert(rest.len() > 0);
                assert(i + step < tokens.len());
                assert(rest[k - head_len].source_offset >= tokens[i + step].source_offset);
                assert(tokens[i].source_offset <= tokens[i + step].source_offset);
            }
        }
        assert forall|a: int, b: int|
            0 <= a <= b < out.len() && (#[trigger] out[b]).token_type != token_types::COMMA
                && out[b].token_type != token_types::SEMICOLON implies (
        #[trigger] out[a]).source_offset <= out[b].source_offset by {
            if b >= head_len {
                assert(out[b] == rest[b - head_len]);
                assert(rest.len() > 0);
                assert(i + step < tokens.len());
                if a >= head_len {
                    assert(out[a] == rest[a - head_len]);
                } else {
                    assert(rest[b - head_len].source_offset >= tokens[i + step].source_offset);
                    assert(out[a].source_offset <= tokens[i + step].source_offset);
                }
            }
        }
    }
}

} // verus!