//! Sentence boundary detection.
//!
//! Given a text fragment, find the byte length of the longest prefix that
//! ends at a recognized sentence boundary: sentence-final punctuation (an
//! ASCII period or a full-width period) followed by a line feed (optionally
//! with a carriage return in between), or a blank line.  If no boundary
//! exists, the full fragment length is reported, and the caller falls back to
//! a hard cut at the raw byte limit.

use vstd::prelude::*;

verus! {

/// Line feed byte (`\n`).
pub const LINE_FEED: u8 = 0x0a;

/// Carriage return byte (`\r`).
pub const CARRIAGE_RETURN: u8 = 0x0d;

/// ASCII full stop byte (`.`).
pub const ASCII_PERIOD: u8 = 0x2e;

/// First byte of the UTF-8 encoding of the full-width period (U+3002).
pub const FULL_WIDTH_PERIOD_B1: u8 = 0xe3;

/// Second byte of the UTF-8 encoding of the full-width period (U+3002).
pub const FULL_WIDTH_PERIOD_B2: u8 = 0x80;

/// Third byte of the UTF-8 encoding of the full-width period (U+3002).
pub const FULL_WIDTH_PERIOD_B3: u8 = 0x82;

/// Position `i` is a sentence boundary of `s`: it lies just past a line feed,
/// and the bytes before that line feed end a sentence (a period, full-width
/// or ASCII, optionally followed by a carriage return) or make the line blank
/// (a preceding line feed, optionally followed by a carriage return).
pub open spec fn is_sentence_boundary(s: Seq<u8>, i: int) -> bool {
    &&& 1 <= i <= s.len()
    &&& s[i - 1] == LINE_FEED
    &&& {
        ||| (i >= 2 && s[i - 2] == ASCII_PERIOD)
        ||| (i >= 3 && s[i - 2] == CARRIAGE_RETURN && s[i - 3] == ASCII_PERIOD)
        ||| (i >= 4 && s[i - 2] == FULL_WIDTH_PERIOD_B3 && s[i - 3] == FULL_WIDTH_PERIOD_B2
            && s[i - 4] == FULL_WIDTH_PERIOD_B1)
        ||| (i >= 5 && s[i - 2] == CARRIAGE_RETURN && s[i - 3] == FULL_WIDTH_PERIOD_B3
            && s[i - 4] == FULL_WIDTH_PERIOD_B2 && s[i - 5] == FULL_WIDTH_PERIOD_B1)
        ||| (i >= 2 && s[i - 2] == LINE_FEED)
        ||| (i >= 3 && s[i - 2] == CARRIAGE_RETURN && s[i - 3] == LINE_FEED)
    }
}

/// The rightmost sentence boundary of `s` at or below `i`, or `s.len()` when
/// no position at or below `i` is one.
pub open spec fn rightmost_boundary_from(s: Seq<u8>, i: int) -> int
    decreases i,
{
    if i <= 0 {
        s.len() as int
    } else if is_sentence_boundary(s, i) {
        i
    } else {
        rightmost_boundary_from(s, i - 1)
    }
}

/// The byte length of the longest prefix of `s` that ends at a sentence
/// boundary, or `s.len()` when `s` holds no boundary at all.
pub open spec fn split_len(s: Seq<u8>) -> int {
    rightmost_boundary_from(s, s.len() as int)
}

/// What `rightmost_boundary_from` returns: either a boundary that is the
/// rightmost one at or below `i`, or `s.len()` when there is none.
proof fn lemma_rightmost_boundary_from(s: Seq<u8>, i: int)
    requires
        i <= s.len(),
    ensures
        rightmost_boundary_from(s, i) == s.len() || (is_sentence_boundary(
            s,
            rightmost_boundary_from(s, i),
        ) && rightmost_boundary_from(s, i) <= i),
        forall|j: int| is_sentence_boundary(s, j) && j <= i ==> j <= rightmost_boundary_from(s, i),
        (exists|j: int| is_sentence_boundary(s, j) && j <= i) ==> is_sentence_boundary(
            s,
            rightmost_boundary_from(s, i),
        ),
    decreases i,
{
    if i > 0 && !is_sentence_boundary(s, i) {
        lemma_rightmost_boundary_from(s, i - 1);
    }
}

/// `split_len` yields the rightmost sentence boundary of `s` when one exists,
/// and the full length of `s` otherwise.
pub proof fn lemma_split_len(s: Seq<u8>)
    ensures
        0 <= split_len(s) <= s.len(),
        s.len() > 0 ==> split_len(s) > 0,
        forall|j: int| is_sentence_boundary(s, j) ==> j <= split_len(s),
        (exists|j: int| is_sentence_boundary(s, j)) ==> is_sentence_boundary(s, split_len(s)),
        !(exists|j: int| is_sentence_boundary(s, j)) ==> split_len(s) == s.len(),
{
    lemma_rightmost_boundary_from(s, s.len() as int);
}

/// Whether position `i` of `frag` is a sentence boundary.
fn boundary_at(frag: &[u8], i: usize) -> (b: bool)
    requires
        1 <= i <= frag@.len(),
    ensures
        b == is_sentence_boundary(frag@, i as int),
{
    if frag[i - 1] != LINE_FEED {
        return false;
    }
    if i >= 2 && frag[i - 2] == ASCII_PERIOD {
        return true;
    }
    if i >= 3 && frag[i - 2] == CARRIAGE_RETURN && frag[i - 3] == ASCII_PERIOD {
        return true;
    }
    if i >= 4 && frag[i - 2] == FULL_WIDTH_PERIOD_B3 && frag[i - 3] == FULL_WIDTH_PERIOD_B2 && frag[
        i - 4] == FULL_WIDTH_PERIOD_B1 {
        return true;
    }
    if i >= 5 && frag[i - 2] == CARRIAGE_RETURN && frag[i - 3] == FULL_WIDTH_PERIOD_B3 && frag[i
        - 4] == FULL_WIDTH_PERIOD_B2 && frag[i - 5] == FULL_WIDTH_PERIOD_B1 {
        return true;
    }
    if i >= 2 && frag[i - 2] == LINE_FEED {
        return true;
    }
    if i >= 3 && frag[i - 2] == CARRIAGE_RETURN && frag[i - 3] == LINE_FEED {
        return true;
    }
    false
}

/// Scan `frag` backward and return the byte length of the longest prefix that
/// ends at a sentence boundary, or the full fragment length when no boundary
/// is found.
pub fn find_boundary(frag: &[u8]) -> (r: usize)
    ensures
        r as int == split_len(frag@),
{
    let n: usize = frag.len();
    let mut i: usize = n;
    while i >= 1
        invariant
            i <= n,
            n == frag@.len(),
            rightmost_boundary_from(frag@, n as int) == rightmost_boundary_from(frag@, i as int),
        decreases i,
    {
        if boundary_at(frag, i) {
            return i;
        }
        i = i - 1;
    }
    n
}

} // verus!
