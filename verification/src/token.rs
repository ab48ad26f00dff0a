//! The emitted token.

use vstd::prelude::*;

verus! {

/// One output token: a document-global position, byte offsets into the
/// original input text, and the surface text of the morpheme it came from.
pub struct Token {
    /// Token ordinal: 1-based, sequential, document-wide, wrapping on
    /// overflow.  Whitespace-suppressed morphemes consume no position.
    pub position: usize,
    /// Byte offset of the token's first byte in the original input text.
    pub offset_from: usize,
    /// One past the byte offset of the token's last byte in the original
    /// input text, plus one more: the analyzer reports the span's end and the
    /// stream unconditionally adds one to it.  The formula is kept exactly as
    /// downstream consumers observed it.
    pub offset_to: usize,
    /// Surface text of the morpheme.
    pub text: String,
}

/// The position counter's successor: one more, wrapping to zero at the
/// numeric limit.
pub open spec fn wrap_inc(p: usize) -> usize {
    if p == usize::MAX {
        0
    } else {
        (p + 1) as usize
    }
}

/// The state of the token buffer before anything was emitted.
pub open spec fn initial_token(t: Token) -> bool {
    t.position == 0 && t.offset_from == 0 && t.offset_to == 0 && t.text@ == Seq::<char>::empty()
}

impl Token {
    /// A fresh token buffer, before any emission.
    pub fn new() -> (t: Token)
        ensures
            initial_token(t),
    {
        Token { position: 0, offset_from: 0, offset_to: 0, text: String::new() }
    }
}

/// Position monotonicity: the counter's successor is exactly one more until
/// the numeric limit, where it wraps to zero.
pub proof fn lemma_position_monotonic(p: usize)
    ensures
        p < usize::MAX ==> wrap_inc(p) == p + 1 && wrap_inc(p) > p,
        p == usize::MAX ==> wrap_inc(p) == 0,
{
}

} // verus!
