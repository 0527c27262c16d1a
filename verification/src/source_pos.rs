//! Byte ranges over the source buffer.

use vstd::prelude::*;
use vstd::string::StringSliceAdditionalSpecFns;
use vstd::utf8::{
    decode_utf8, encode_utf8_decode_utf8, encode_utf8_valid_utf8, is_char_boundary,
    is_char_boundary_iff_not_is_continuation_byte, is_char_boundary_start_end_of_seq,
    valid_utf8_split,
};
use crate::tokens::Token;

verus! {

/// A half-open range of source code bytes from `start_offset` to `end_offset`.
#[derive(Debug, Copy, Clone, PartialEq, Eq, PartialOrd, Ord, Structural)]
pub struct SourcePos {
    pub start_offset: u32,
    pub end_offset: u32,
}

/// Constructs a `SourcePos` instance covering the given token's bytes.
pub fn new_source_pos(token: Token) -> (r: SourcePos)
    requires
        token.source_offset + token.source_length <= u32::MAX,
    ensures
        r.start_offset == token.source_offset,
        r.end_offset == token.source_offset + token.source_length,
{
    SourcePos {
        start_offset: token.source_offset,
        end_offset: token.source_offset + token.source_length as u32,
    }
}

impl SourcePos {
    /// Slices the given source code to produce the string demarcated by this
    /// source position.
    pub fn get_text<'a>(&self, source_code: &'a str) -> (r: &'a str)
        requires
            self.start_offset <= self.end_offset,
            self.end_offset as int <= source_code.spec_bytes().len(),
            is_char_boundary(source_code.spec_bytes(), self.start_offset as int),
            is_char_boundary(source_code.spec_bytes(), self.end_offset as int),
        ensures
            r.spec_bytes() == source_code.spec_bytes().subrange(
                self.start_offset as int,
                self.end_offset as int,
            ),
            r@ == decode_utf8(
                source_code.spec_bytes().subrange(self.start_offset as int, self.end_offset as int),
            ),
    {
        let ghost bytes = source_code.spec_bytes();
        let ghost a = self.start_offset as int;
        let ghost b = self.end_offset as int;
        proof {
            encode_utf8_valid_utf8(source_code@);
        }
        let (_, tail) = source_code.split_at(self.start_offset as usize);
        proof {
            valid_utf8_split(bytes, a);
            let tail_bytes = bytes.subrange(a, bytes.len() as int);
            if b == bytes.len() {
                is_char_boundary_start_end_of_seq(tail_bytes);
                assert(b - a == tail_bytes.len());
            } else if b == a {
                is_char_boundary_start_end_of_seq(tail_bytes);
            } else {
                is_char_boundary_iff_not_is_continuation_byte(bytes, b);
                assert(tail_bytes[b - a] == bytes[b]);
                is_char_boundary_iff_not_is_continuation_byte(tail_bytes, b - a);
            }
            assert(is_char_boundary(tail.spec_bytes(), b - a));
        }
        let (mid, _) = tail.split_at((self.end_offset - self.start_offset) as usize);
        proof {
            assert(mid.spec_bytes() =~= bytes.subrange(a, b));
            encode_utf8_decode_utf8(mid@);
        }
        mid
    }

    /// Creates a new source position extending from the start of this one to
    /// the end of another.
    pub fn thru(&self, s2: SourcePos) -> (r: SourcePos)
        requires
            self.start_offset <= s2.end_offset,
        ensures
            r.start_offset == self.start_offset,
            r.end_offset == s2.end_offset,
    {
        SourcePos { start_offset: self.start_offset, end_offset: s2.end_offset }
    }
}

} // verus!
