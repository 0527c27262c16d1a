//! Reference-counted immutable vectors for the scanner-to-parser hand-off.
//!
//! The token sequence and newline-offset sequence are built once and then
//! shared across the filter and parser stages without copying; the
//! `shared_vector` crate provides the reference-counted buffer. The buffers
//! are held in opaque wrapper structs because Verus cannot digest the
//! crate's own generic bounds.

use vstd::prelude::*;
use crate::tokens::Token;

verus! {

/// A shared, immutable sequence of tokens.
#[verifier::external_body]
pub struct SharedTokens {
    vec: shared_vector::SharedVector<Token>,
}

/// A shared, immutable sequence of newline byte offsets.
#[verifier::external_body]
pub struct SharedOffsets {
    vec: shared_vector::SharedVector<u32>,
}

/// The elements held by a shared token sequence.
pub uninterp spec fn shared_tokens(v: SharedTokens) -> Seq<Token>;

/// The elements held by a shared offset sequence.
pub uninterp spec fn shared_offsets(v: SharedOffsets) -> Seq<u32>;

impl SharedTokens {
    /// Relies on `SharedVector::from_slice`: clones the slice's elements, in
    /// order, into a freshly allocated shared vector. The buffer's internal
    /// capacity field is 32 bits, and `from_slice` panics on a longer slice,
    /// so the length bound is required.
    #[verifier::external_body]
    pub(crate) fn from_vec(v: &Vec<Token>) -> (r: SharedTokens)
        requires
            v@.len() <= u32::MAX,
        ensures
            shared_tokens(r) == v@,
    {
        SharedTokens { vec: shared_vector::SharedVector::from_slice(v.as_slice()) }
    }

    /// Relies on `RefCountedVector::as_slice`: exposes exactly the vector's
    /// elements, in order.
    #[verifier::external_body]
    pub(crate) fn as_slice(&self) -> (r: &[Token])
        ensures
            r@ == shared_tokens(*self),
    {
        self.vec.as_slice()
    }

    /// The number of tokens held.
    pub fn len(&self) -> (n: usize)
        ensures
            n == shared_tokens(*self).len(),
    {
        self.as_slice().len()
    }

    /// The token at the given index, or `None` past the end.
    pub fn get(&self, index: usize) -> (r: Option<Token>)
        ensures
            r == if index < shared_tokens(*self).len() {
                Some(shared_tokens(*self)[index as int])
            } else {
                None::<Token>
            },
    {
        let s = self.as_slice();
        if index < s.len() {
            Some(s[index])
        } else {
            None
        }
    }
}

impl SharedOffsets {
    /// Relies on `SharedVector::from_slice`: clones the slice's elements, in
    /// order, into a freshly allocated shared vector. The buffer's internal
    /// capacity field is 32 bits, and `from_slice` panics on a longer slice,
    /// so the length bound is required.
    #[verifier::external_body]
    pub(crate) fn from_vec(v: &Vec<u32>) -> (r: SharedOffsets)
        requires
            v@.len() <= u32::MAX,
        ensures
            shared_offsets(r) == v@,
    {
        SharedOffsets { vec: shared_vector::SharedVector::from_slice(v.as_slice()) }
    }

    /// Relies on `RefCountedVector::as_slice`: exposes exactly the vector's
    /// elements, in order.
    #[verifier::external_body]
    pub(crate) fn as_slice(&self) -> (r: &[u32])
        ensures
            r@ == shared_offsets(*self),
    {
        self.vec.as_slice()
    }

    /// Relies on `RefCountedVector::new_ref`: a new reference to the same
    /// buffer, holding the same elements.
    #[verifier::external_body]
    pub fn new_ref(&self) -> (r: SharedOffsets)
        ensures
            shared_offsets(r) == shared_offsets(*self),
    {
        SharedOffsets { vec: self.vec.new_ref() }
    }

    /// The number of offsets held.
    pub fn len(&self) -> (n: usize)
        ensures
            n == shared_offsets(*self).len(),
    {
        self.as_slice().len()
    }

    /// The offset at the given index, or `None` past the end.
    pub fn get(&self, index: usize) -> (r: Option<u32>)
        ensures
            r == if index < shared_offsets(*self).len() {
                Some(shared_offsets(*self)[index as int])
            } else {
                None::<u32>
            },
    {
        let s = self.as_slice();
        if index < s.len() {
            Some(s[index])
        } else {
            None
        }
    }
}

} // verus!
