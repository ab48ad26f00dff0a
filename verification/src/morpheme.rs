//! The analyzer's output unit, as plain values.
//!
//! The morphological analysis engine is owned by the host application; it
//! hands each chunk's analysis result to the stream as a list of these.

use vstd::prelude::*;

verus! {

/// One analyzed morpheme of a chunk: a byte span relative to the chunk it
/// was produced from, the surface text, and the ordered part-of-speech tags.
pub struct Morpheme {
    /// Byte offset of the morpheme's span start, relative to its chunk.
    pub begin: usize,
    /// Byte offset of the morpheme's span end, relative to its chunk.
    pub end: usize,
    /// Surface text.
    pub surface: String,
    /// Part-of-speech tags; the first one decides the whitespace filter.
    pub pos: Vec<String>,
}

/// A morpheme whose leading part-of-speech tag is the designated space tag:
/// it is suppressed from the emitted token sequence.
pub open spec fn is_whitespace(m: Morpheme) -> bool {
    m.pos@.len() > 0 && m.pos@[0]@ == "空白"@
}

/// The morpheme's span lies inside a chunk of `len` bytes.
pub open spec fn morpheme_fits(m: Morpheme, len: int) -> bool {
    m.begin <= m.end <= len
}

impl Morpheme {
    /// Whether the whitespace filter drops this morpheme.
    pub fn whitespace(&self) -> (r: bool)
        ensures
            r == is_whitespace(*self),
    {
        if self.pos.len() == 0 {
            return false;
        }
        let tag: String = "空白".to_owned();
        self.pos[0] == tag
    }
}

} // verus!
