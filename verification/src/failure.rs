//! Chunk-local analysis failures.
//!
//! A failed chunk is never fatal: the stream records the failure — a
//! truncated excerpt of the offending chunk plus the reported detail — treats
//! the chunk as having produced no morphemes, and goes on with the next one.
//! The host application may drain the records into its logging facility.

use vstd::prelude::*;
use vstd::string::StrSliceExecFns;
use vstd::string::StringExecFns;

verus! {

/// How many characters of the offending chunk a failure record keeps.
pub const EXCERPT_CHAR_LIMIT: usize = 100;

/// One recorded analysis failure.
pub struct AnalysisFailure {
    /// The start of the chunk that failed, ellipsis-suffixed when truncated.
    pub excerpt: String,
    /// The failure detail the analyzer reported.
    pub detail: String,
}

/// The excerpt kept for a failed chunk: the whole chunk when it is short,
/// and otherwise its first `EXCERPT_CHAR_LIMIT` characters with an ellipsis.
pub open spec fn excerpt_of(s: Seq<char>) -> Seq<char> {
    if s.len() <= EXCERPT_CHAR_LIMIT {
        s
    } else {
        s.take(EXCERPT_CHAR_LIMIT as int) + "..."@
    }
}

/// Truncate a failed chunk to the excerpt its failure record keeps.
pub fn excerpt(chunk: &str) -> (r: String)
    ensures
        r@ == excerpt_of(chunk@),
{
    let n = chunk.unicode_len();
    if n <= EXCERPT_CHAR_LIMIT {
        chunk.to_owned()
    } else {
        let mut p = chunk.substring_char(0, EXCERPT_CHAR_LIMIT).to_owned();
        proof {
            assert(chunk@.subrange(0, EXCERPT_CHAR_LIMIT as int) =~= chunk@.take(
                EXCERPT_CHAR_LIMIT as int,
            ));
        }
        p.append("...");
        p
    }
}

} // verus!
