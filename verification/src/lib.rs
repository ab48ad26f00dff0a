//! A streaming tokenizer core for length-bounded morphological analysis.
//!
//! A morphological analysis engine can only process input text up to a fixed
//! byte-length limit per call, while documents to be indexed may be
//! arbitrarily long.  This crate splits an unbounded text into analyzer-sized
//! chunks without breaking sentences, and re-stitches the resulting token
//! stream so that output token offsets and positions look as if the whole
//! document had been analyzed in one pass.
//!
//! The host application owns the analysis engine; it pulls chunk byte ranges
//! from [`stream::TokenStreamAdapter`], analyzes each chunk, and hands the
//! resulting morpheme list back.  Everything else — chunk splitting, sentence
//! boundary detection, whitespace filtering, and offset/position bookkeeping —
//! is decided here.

pub mod boundary;
pub mod chunks;
pub mod failure;
pub mod morpheme;
pub mod stream;
pub mod token;

pub use boundary::find_boundary;
