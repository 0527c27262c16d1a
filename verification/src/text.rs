//! Characters, byte offsets, and the character classes the scanner uses.
//!
//! The scanner walks the source a character at a time while recording byte
//! offsets, so this module ties character indices to UTF-8 byte positions.

use vstd::prelude::*;
use vstd::string::StrSliceExecFns;
use vstd::utf8::{char_is_scalar, encode_scalar, encode_utf8};

verus! {

broadcast use vstd::string::group_string_axioms;

/// The number of bytes in the UTF-8 encoding of one character.
pub open spec fn char_size(c: char) -> int {
    encode_scalar(c as u32).len() as int
}

/// The number of bytes in the UTF-8 encoding of a character sequence.
pub open spec fn byte_len(s: Seq<char>) -> int {
    encode_utf8(s).len() as int
}

/// The byte offset at which the character with index `i` begins.
pub open spec fn byte_off(s: Seq<char>, i: int) -> int
    recommends
        0 <= i <= s.len(),
{
    byte_len(s.take(i))
}

/// True when `off` is the byte offset of some character boundary of `s`
/// (including the end of the sequence).
pub open spec fn is_byte_boundary(s: Seq<char>, off: int) -> bool {
    exists|i: int| 0 <= i <= s.len() && byte_off(s, i) == off
}

/// The character index whose byte offset is `off`.
pub open spec fn char_index_at(s: Seq<char>, off: int) -> int
    recommends
        is_byte_boundary(s, off),
{
    choose|i: int| 0 <= i <= s.len() && byte_off(s, i) == off
}

pub proof fn lemma_char_size_bounds(c: char)
    ensures
        1 <= char_size(c) <= 4,
        (c as u32) < 0x80 ==> char_size(c) == 1,
{
    char_is_scalar(c);
}

pub proof fn lemma_encode_concat(a: Seq<char>, b: Seq<char>)
    ensures
        encode_utf8(a + b) == encode_utf8(a) + encode_utf8(b),
    decreases a.len(),
{
    if a.len() == 0 {
        assert(a + b =~= b);
        assert(encode_utf8(a) + encode_utf8(b) =~= encode_utf8(b));
    } else {
        lemma_encode_concat(a.drop_first(), b);
        assert((a + b).drop_first() =~= a.drop_first() + b);
        assert((a + b)[0] == a[0]);
        assert(encode_utf8(a + b) =~= encode_utf8(a) + encode_utf8(b)) by {
            assert(encode_utf8(a + b) == encode_scalar((a + b)[0] as u32) + encode_utf8(
                (a + b).drop_first(),
            ));
            assert(encode_utf8(a) == encode_scalar(a[0] as u32) + encode_utf8(a.drop_first()));
        }
    }
}

pub proof fn lemma_byte_off_step(s: Seq<char>, i: int)
    requires
        0 <= i < s.len(),
    ensures
        byte_off(s, i + 1) == byte_off(s, i) + char_size(s[i]),
{
    assert(s.take(i + 1) =~= s.take(i) + seq![s[i]]);
    lemma_encode_concat(s.take(i), seq![s[i]]);
    assert(encode_utf8(seq![s[i]]) =~= encode_scalar(s[i] as u32)) by {
        assert(seq![s[i]].drop_first() =~= Seq::<char>::empty());
        assert(encode_utf8(seq![s[i]].drop_first()) =~= Seq::<u8>::empty());
    }
}

pub proof fn lemma_byte_off_mono(s: Seq<char>, i: int, j: int)
    requires
        0 <= i <= j <= s.len(),
    ensures
        byte_off(s, i) + (j - i) <= byte_off(s, j),
        byte_off(s, i) <= byte_off(s, j),
    decreases j - i,
{
    if i < j {
        lemma_byte_off_mono(s, i, j - 1);
        lemma_byte_off_step(s, j - 1);
        lemma_char_size_bounds(s[j - 1]);
    }
}

pub proof fn lemma_byte_off_at_ends(s: Seq<char>)
    ensures
        byte_off(s, 0) == 0,
        byte_off(s, s.len() as int) == byte_len(s),
{
    assert(s.take(0) =~= Seq::<char>::empty());
    assert(s.take(s.len() as int) =~= s);
}

/// Byte offsets of distinct character indices are distinct, so the character
/// index of a boundary byte offset is unique.
pub proof fn lemma_char_index_at(s: Seq<char>, i: int)
    requires
        0 <= i <= s.len(),
    ensures
        is_byte_boundary(s, byte_off(s, i)),
        char_index_at(s, byte_off(s, i)) == i,
{
    let off = byte_off(s, i);
    assert(is_byte_boundary(s, off));
    let j = char_index_at(s, off);
    if j < i {
        lemma_byte_off_mono(s, j, i);
    } else if j > i {
        lemma_byte_off_mono(s, i, j);
    }
}

/// Decodes a string into its sequence of characters.
pub fn chars_vec(s: &str) -> (r: Vec<char>)
    ensures
        r@ == s@,
{
    let n = s.unicode_len();
    let mut v: Vec<char> = Vec::new();
    let mut i: usize = 0;
    while i < n
        invariant
            n == s@.len(),
            i <= n,
            v@ == s@.take(i as int),
        decreases n - i,
    {
        v.push(s.get_char(i));
        i = i + 1;
        proof {
            assert(v@ =~= s@.take(i as int));
        }
    }
    proof {
        assert(v@ =~= s@);
    }
    v
}

/// The number of bytes in the UTF-8 encoding of the given character.
pub fn utf8_len(c: char) -> (n: usize)
    ensures
        n == char_size(c),
{
    proof {
        char_is_scalar(c);
    }
    let u = c as u32;
    if u < 0x80 {
        1
    } else if u < 0x800 {
        2
    } else if u < 0x10000 {
        3
    } else {
        4
    }
}

/// What `char::is_whitespace` returns for characters outside ASCII.
pub uninterp spec fn unicode_whitespace(c: char) -> bool;

/// What `char::is_alphabetic` returns for characters outside ASCII.
pub uninterp spec fn unicode_alphabetic(c: char) -> bool;

/// What `char::is_numeric` returns for characters outside ASCII.
pub uninterp spec fn unicode_numeric(c: char) -> bool;

/// True when the character has the Unicode `White_Space` property. Among
/// ASCII characters those are exactly 0x09..=0x0D and the space 0x20.
pub open spec fn spec_is_whitespace(c: char) -> bool {
    if (c as u32) < 0x80 {
        (0x09 <= c as u32 && c as u32 <= 0x0d) || c as u32 == 0x20
    } else {
        unicode_whitespace(c)
    }
}

/// Relies on `char::is_whitespace`: true exactly for characters with the
/// Unicode `White_Space` property, which among ASCII characters are
/// 0x09..=0x0D and 0x20.
#[verifier::external_body]
pub(crate) fn char_is_whitespace(c: char) -> (r: bool)
    ensures
        r == if (c as u32) < 0x80 {
            (0x09 <= c as u32 && c as u32 <= 0x0d) || c as u32 == 0x20
        } else {
            unicode_whitespace(c)
        },
{
    c.is_whitespace()
}

/// Relies on `char::is_alphabetic`: true exactly for characters in the
/// Unicode letter categories; no ASCII character below 0x80 other than
/// `A`..=`Z` and `a`..=`z` is a letter.
#[verifier::external_body]
pub(crate) fn char_is_alphabetic(c: char) -> (r: bool)
    ensures
        r == if (c as u32) < 0x80 {
            (0x41 <= c as u32 && c as u32 <= 0x5a) || (0x61 <= c as u32 && c as u32 <= 0x7a)
        } else {
            unicode_alphabetic(c)
        },
{
    c.is_alphabetic()
}

/// Relies on `char::is_numeric`: true exactly for characters in the Unicode
/// numeric categories; among ASCII characters those are exactly `0`..=`9`.
#[verifier::external_body]
pub(crate) fn char_is_numeric(c: char) -> (r: bool)
    ensures
        r == if (c as u32) < 0x80 {
            0x30 <= c as u32 && c as u32 <= 0x39
        } else {
            unicode_numeric(c)
        },
{
    c.is_numeric()
}

/// True when the character is a digit as the scanner understands it: an
/// ASCII digit, or a non-ASCII character that Unicode classifies as numeric.
pub open spec fn is_digit_char(c: char) -> bool {
    (0x30 <= c as u32 && c as u32 <= 0x39) || (c as u32 >= 0x80 && unicode_numeric(c))
}

/// True when the character could open an identifier: an ASCII letter, an
/// underscore, or a non-ASCII character that Unicode classifies as a letter.
pub open spec fn is_identifier_start_char(c: char) -> bool {
    ||| (0x61 <= c as u32 && c as u32 <= 0x7a)
    ||| (0x41 <= c as u32 && c as u32 <= 0x5a)
    ||| c as u32 == 0x5f
    ||| (c as u32 >= 0x80 && unicode_alphabetic(c))
}

/// True when the character could continue an identifier, given the character
/// that follows it: identifier starters and digits always continue; an
/// interior hyphen continues only when the next character is itself an
/// identifier starter or digit.
pub open spec fn is_identifier_part_char(c: char, c_next: char) -> bool {
    ||| is_identifier_start_char(c)
    ||| is_digit_char(c)
    ||| (c as u32 == 0x2d && (is_identifier_start_char(c_next) || is_digit_char(c_next)))
}

/// Determines whether a character is a number.
pub fn is_digit(ch: char) -> (r: bool)
    ensures
        r == is_digit_char(ch),
{
    let u = ch as u32;
    (0x30 <= u && u <= 0x39) || (u >= 0x80 && char_is_numeric(ch))
}

/// Determines whether a given character could be the opening character of an
/// identifier.
pub fn is_identifier_start(ch: char) -> (r: bool)
    ensures
        r == is_identifier_start_char(ch),
{
    let u = ch as u32;
    (0x61 <= u && u <= 0x7a) || (0x41 <= u && u <= 0x5a) || u == 0x5f || (u >= 0x80
        && char_is_alphabetic(ch))
}

/// Determines whether a given character could be the second or later
/// character of an identifier.
pub fn is_identifier_part(ch: char, ch_next: char) -> (r: bool)
    ensures
        r == is_identifier_part_char(ch, ch_next),
{
    is_identifier_start(ch) || is_digit(ch) || (ch as u32 == 0x2d && (is_identifier_start(ch_next)
        || is_digit(ch_next)))
}

} // verus!


verus! {

/// Finds the character index whose byte offset is `target`.
#[verifier::loop_isolation(false)]
pub(crate) fn char_index_of(chars: &Vec<char>, target: u32) -> (r: usize)
    requires
        byte_len(chars@) <= u32::MAX,
        is_byte_boundary(chars@, target as int),
    ensures
        r <= chars@.len(),
        byte_off(chars@, r as int) == target,
        r as int == char_index_at(chars@, target as int),
{
    let ghost s = chars@;
    let ghost w = choose|i: int| 0 <= i <= s.len() && byte_off(s, i) == target;
    let n = chars.len();
    let mut j: usize = 0;
    let mut acc: u32 = 0;
    proof {
        lemma_byte_off_at_ends(s);
    }
    while acc < target
        invariant
            j <= n,
            n == s.len(),
            acc == byte_off(s, j as int),
            j <= w,
        decreases s.len() - j,
    {
        proof {
            if j == s.len() {
                lemma_byte_off_mono(s, w, s.len() as int);
            }
            assert(j < s.len()) by {
                if j >= s.len() {
                    lemma_byte_off_mono(s, w, s.len() as int);
                }
            }
            lemma_byte_off_step(s, j as int);
            lemma_byte_off_mono(s, j as int + 1, s.len() as int);
            if w == j {
            } else {
                lemma_byte_off_mono(s, j as int + 1, w);
            }
            assert(j + 1 <= w) by {
                if w <= j {
                    lemma_byte_off_mono(s, w, j as int);
                }
            }
        }
        acc = acc + utf8_len(chars[j]) as u32;
        j = j + 1;
    }
    proof {
        assert(j == w) by {
            if j < w {
                lemma_byte_off_mono(s, j as int, w);
                lemma_byte_off_step(s, j as int);
                lemma_char_size_bounds(s[j as int]);
                lemma_byte_off_mono(s, j as int + 1, w);
            }
        }
        lemma_char_index_at(s, j as int);
    }
    j
}

} // verus!
