//! Chunk splitting.
//!
//! A text is split into contiguous, non-empty chunks whose concatenation is
//! the whole text.  Each chunk is at most `max` bytes long, never ends in the
//! middle of a multi-byte character, and ends at a sentence boundary whenever
//! the candidate fragment below the byte limit holds one.

use vstd::prelude::*;
use vstd::slice::slice_subrange;
use vstd::string::StringSliceAdditionalSpecFns;
use vstd::utf8::encode_utf8_valid_utf8;
use vstd::utf8::is_char_boundary;
use vstd::utf8::is_char_boundary_iff_not_is_continuation_byte;
use vstd::utf8::is_char_boundary_start_end_of_seq;
use vstd::utf8::is_leading_byte_width_1;
use vstd::utf8::length_of_first_scalar;
use vstd::utf8::valid_first_scalar;
use vstd::utf8::valid_utf8;
use vstd::utf8::valid_utf8_split;

use crate::boundary::find_boundary;
use crate::boundary::is_sentence_boundary;
use crate::boundary::lemma_split_len;
use crate::boundary::split_len;
use crate::boundary::LINE_FEED;

verus! {

/// In a valid UTF-8 text, the character that starts at boundary `p` ends at
/// another character boundary, between 1 and 4 bytes further right.
proof fn lemma_first_scalar_boundary(b: Seq<u8>, p: int)
    requires
        valid_utf8(b),
        is_char_boundary(b, p),
        0 <= p < b.len(),
    ensures
        ({
            let w = length_of_first_scalar(b.subrange(p, b.len() as int));
            &&& 1 <= w <= 4
            &&& p + w <= b.len()
            &&& is_char_boundary(b, p + w)
        }),
{
    let suffix = b.subrange(p, b.len() as int);
    valid_utf8_split(b, p);
    assert(valid_utf8(suffix));
    assert(suffix.len() > 0);
    assert(valid_first_scalar(suffix));
    let w = length_of_first_scalar(suffix);
    assert(1 <= w <= 4);
    assert(w <= suffix.len());
    assert(is_char_boundary(suffix, w)) by {
        reveal_with_fuel(is_char_boundary, 2);
    }
    if p + w == b.len() {
        is_char_boundary_start_end_of_seq(b);
    } else {
        is_char_boundary_iff_not_is_continuation_byte(suffix, w);
        is_char_boundary_iff_not_is_continuation_byte(b, p + w);
        assert(suffix[w] == b[p + w]);
    }
}

/// In a valid UTF-8 text there is a character boundary within four bytes to
/// the right of any character boundary that is not already at the end.
proof fn lemma_next_char_boundary(b: Seq<u8>, p: int)
    requires
        valid_utf8(b),
        is_char_boundary(b, p),
        0 <= p < b.len(),
    ensures
        exists|q: int| p < q <= p + 4 && q <= b.len() && is_char_boundary(b, q),
{
    lemma_first_scalar_boundary(b, p);
    let w = length_of_first_scalar(b.subrange(p, b.len() as int));
    assert(p < p + w <= p + 4 && p + w <= b.len() && is_char_boundary(b, p + w));
}

/// In a valid UTF-8 text, the position just past an ASCII byte is a
/// character boundary.
proof fn lemma_boundary_after_ascii(b: Seq<u8>, p: int)
    requires
        valid_utf8(b),
        0 <= p < b.len(),
        is_leading_byte_width_1(b[p]),
    ensures
        is_char_boundary(b, p + 1),
{
    is_char_boundary_iff_not_is_continuation_byte(b, p);
    assert(is_char_boundary(b, p));
    lemma_first_scalar_boundary(b, p);
    let suffix = b.subrange(p, b.len() as int);
    assert(suffix[0] == b[p]);
    assert(length_of_first_scalar(suffix) == 1);
}

/// A character boundary of the whole text is also a character boundary of a
/// suffix that itself starts at a character boundary.
pub proof fn lemma_boundary_in_suffix(b: Seq<u8>, s: int, e: int)
    requires
        valid_utf8(b),
        is_char_boundary(b, s),
        is_char_boundary(b, e),
        0 <= s <= e <= b.len(),
    ensures
        is_char_boundary(b.subrange(s, b.len() as int), e - s),
{
    let suffix = b.subrange(s, b.len() as int);
    valid_utf8_split(b, s);
    if e == s {
        assert(is_char_boundary(suffix, 0));
    } else if e == b.len() {
        is_char_boundary_start_end_of_seq(suffix);
        assert(e - s == suffix.len());
    } else {
        is_char_boundary_iff_not_is_continuation_byte(b, e);
        assert(suffix[e - s] == b[e]);
        is_char_boundary_iff_not_is_continuation_byte(suffix, e - s);
    }
}

/// The largest character boundary at or below `l` (floored at 0, which is
/// always a boundary).
pub open spec fn boundary_below(b: Seq<u8>, l: int) -> int
    decreases l,
{
    if l <= 0 {
        0
    } else if is_char_boundary(b, l) {
        l
    } else {
        boundary_below(b, l - 1)
    }
}

proof fn lemma_boundary_below(b: Seq<u8>, l: int)
    requires
        valid_utf8(b),
        0 <= l,
    ensures
        0 <= boundary_below(b, l) <= l,
        is_char_boundary(b, boundary_below(b, l)),
        forall|j: int| 0 <= j <= l && is_char_boundary(b, j) ==> j <= boundary_below(b, l),
    decreases l,
{
    if l > 0 && !is_char_boundary(b, l) {
        lemma_boundary_below(b, l - 1);
    }
}

/// The byte-limit cut position for a chunk starting at `start`: the full text
/// length when the rest fits in `max` bytes, and otherwise the largest
/// character boundary at most `start + max`, so that no multi-byte character
/// is ever split.
pub open spec fn chunk_limit(b: Seq<u8>, start: int, max: int) -> int {
    if b.len() - start <= max {
        b.len() as int
    } else {
        boundary_below(b, start + max)
    }
}

/// Where the chunk that starts at `start` ends: at the limit when the limit
/// reaches the end of the text, and otherwise at the rightmost sentence
/// boundary of the candidate fragment `b[start..limit]` — or at the limit
/// itself when the fragment holds no sentence boundary.
pub open spec fn chunk_end(b: Seq<u8>, start: int, max: int) -> int {
    let limit = chunk_limit(b, start, max);
    if limit == b.len() {
        limit
    } else {
        start + split_len(b.subrange(start, limit))
    }
}

/// The state from which the text `b` can be split further: `start` is a
/// character boundary of a valid UTF-8 text, and the size limit leaves room
/// for any single character.
pub open spec fn can_split(b: Seq<u8>, start: int, max: int) -> bool {
    &&& valid_utf8(b)
    &&& 0 <= start <= b.len()
    &&& is_char_boundary(b, start)
    &&& max >= 4
}

/// Every chunk is non-empty, at most `max` bytes, and ends on a character
/// boundary.
pub proof fn lemma_chunk_end_range(b: Seq<u8>, start: int, max: int)
    requires
        can_split(b, start, max),
        start < b.len(),
    ensures
        start < chunk_end(b, start, max) <= b.len(),
        chunk_end(b, start, max) - start <= max,
        is_char_boundary(b, chunk_end(b, start, max)),
{
    let limit = chunk_limit(b, start, max);
    if b.len() - start <= max {
        assert(limit == b.len());
        is_char_boundary_start_end_of_seq(b);
    } else {
        lemma_next_char_boundary(b, start);
        let q = choose|q: int| start < q <= start + 4 && q <= b.len() && is_char_boundary(b, q);
        lemma_boundary_below(b, start + max);
        assert(q <= start + max);
        assert(start < limit <= start + max);
        let frag = b.subrange(start, limit);
        lemma_split_len(frag);
        let r = split_len(frag);
        assert(0 < r <= frag.len());
        let e = chunk_end(b, start, max);
        assert(e == start + r);
        if r == frag.len() {
            assert(e == limit);
        } else {
            assert(is_sentence_boundary(frag, r));
            assert(frag[r - 1] == LINE_FEED);
            assert(b[e - 1] == LINE_FEED);
            assert(is_leading_byte_width_1(b[e - 1]));
            lemma_boundary_after_ascii(b, e - 1);
        }
    }
}

/// Compute where the chunk of `text` that starts at byte `start` ends, under
/// the byte-size limit `max`: at the rightmost sentence boundary of the
/// candidate fragment when one exists, and at the raw (character-aligned)
/// byte limit otherwise.
pub fn next_chunk_end(text: &str, start: usize, max: usize) -> (end: usize)
    requires
        is_char_boundary(text.spec_bytes(), start as int),
        start < text.spec_bytes().len(),
        max >= 4,
    ensures
        end as int == chunk_end(text.spec_bytes(), start as int, max as int),
        start < end <= text.spec_bytes().len(),
        end - start <= max,
        is_char_boundary(text.spec_bytes(), end as int),
{
    let ghost b = text.spec_bytes();
    proof {
        encode_utf8_valid_utf8(text@);
        assert(valid_utf8(b));
        lemma_chunk_end_range(b, start as int, max as int);
    }
    let bs = text.as_bytes();
    let n: usize = bs.len();
    if n - start <= max {
        return n;
    }
    let mut l: usize = start + max;
    proof {
        lemma_next_char_boundary(b, start as int);
        lemma_boundary_below(b, (start + max) as int);
    }
    while !text.is_char_boundary(l)
        invariant
            b == text.spec_bytes(),
            valid_utf8(b),
            start < l <= start + max,
            start + max < b.len(),
            exists|q: int| start < q <= l && is_char_boundary(b, q),
            boundary_below(b, (start + max) as int) == boundary_below(b, l as int),
        decreases l,
    {
        proof {
            let q = choose|q: int| start < q <= l && is_char_boundary(b, q);
            assert(q < l);
        }
        l = l - 1;
    }
    assert(l as int == boundary_below(b, (start + max) as int));
    let frag = slice_subrange(bs, start, l);
    let r = find_boundary(frag);
    proof {
        lemma_split_len(frag@);
    }
    start + r
}

/// The chunks of `b[start..]`, in order, each the contents of one contiguous
/// byte range of `b`.
pub open spec fn chunk_pieces(b: Seq<u8>, start: int, max: int) -> Seq<Seq<u8>>
    decreases b.len() - start
        when can_split(b, start, max)
        via chunk_pieces_decreases
{
    if start >= b.len() {
        Seq::empty()
    } else {
        seq![b.subrange(start, chunk_end(b, start, max))] + chunk_pieces(
            b,
            chunk_end(b, start, max),
            max,
        )
    }
}

#[via_fn]
proof fn chunk_pieces_decreases(b: Seq<u8>, start: int, max: int) {
    if start < b.len() {
        lemma_chunk_end_range(b, start, max);
    }
}

/// The concatenation of a sequence of byte sequences, in order.
pub open spec fn concat_pieces(cs: Seq<Seq<u8>>) -> Seq<u8>
    decreases cs.len(),
{
    if cs.len() == 0 {
        Seq::empty()
    } else {
        cs[0] + concat_pieces(cs.drop_first())
    }
}

proof fn lemma_chunk_coverage_from(b: Seq<u8>, start: int, max: int)
    requires
        can_split(b, start, max),
    ensures
        concat_pieces(chunk_pieces(b, start, max)) == b.subrange(start, b.len() as int),
    decreases b.len() - start,
{
    if start >= b.len() {
        assert(b.subrange(start, b.len() as int) =~= Seq::<u8>::empty());
    } else {
        lemma_chunk_end_range(b, start, max);
        let e = chunk_end(b, start, max);
        lemma_chunk_coverage_from(b, e, max);
        let cs = chunk_pieces(b, start, max);
        let rest = chunk_pieces(b, e, max);
        assert(cs.drop_first() =~= rest);
        assert(b.subrange(start, e) + b.subrange(e, b.len() as int) =~= b.subrange(
            start,
            b.len() as int,
        ));
    }
}

/// Chunk coverage: concatenating all chunks of `b`, in order, reproduces `b`
/// exactly — no byte is dropped, duplicated, or reordered.
pub proof fn lemma_chunk_coverage(b: Seq<u8>, max: int)
    requires
        valid_utf8(b),
        max >= 4,
    ensures
        concat_pieces(chunk_pieces(b, 0, max)) == b,
{
    assert(is_char_boundary(b, 0));
    lemma_chunk_coverage_from(b, 0, max);
    assert(b.subrange(0, b.len() as int) =~= b);
}

/// Chunk size bound: every chunk is non-empty and at most `max` bytes long —
/// also when no sentence boundary was found and the chunk is a hard cut at
/// the raw byte limit.
pub proof fn lemma_chunk_size_bound(b: Seq<u8>, start: int, max: int)
    requires
        can_split(b, start, max),
    ensures
        forall|i: int|
            0 <= i < chunk_pieces(b, start, max).len() ==> 1 <= (#[trigger] chunk_pieces(
                b,
                start,
                max,
            )[i]).len() <= max,
    decreases b.len() - start,
{
    if start < b.len() {
        lemma_chunk_end_range(b, start, max);
        let e = chunk_end(b, start, max);
        lemma_chunk_size_bound(b, e, max);
        let cs = chunk_pieces(b, start, max);
        let rest = chunk_pieces(b, e, max);
        assert forall|i: int| 0 <= i < cs.len() implies 1 <= (#[trigger] cs[i]).len() <= max by {
            if i == 0 {
                assert(cs[0] == b.subrange(start, e));
            } else {
                assert(cs[i] == rest[i - 1]);
            }
        }
    }
}

/// Sentence-boundary preference: when the candidate fragment below the byte
/// limit holds a sentence boundary, the chunk ends at the rightmost such
/// boundary, not at the raw limit.
pub proof fn lemma_sentence_boundary_preference(b: Seq<u8>, start: int, max: int, j: int)
    requires
        can_split(b, start, max),
        b.len() - start > max,
        is_sentence_boundary(b.subrange(start, chunk_limit(b, start, max)), j),
    ensures
        is_sentence_boundary(
            b.subrange(start, chunk_limit(b, start, max)),
            chunk_end(b, start, max) - start,
        ),
        j <= chunk_end(b, start, max) - start,
{
    lemma_boundary_below(b, start + max);
    lemma_split_len(b.subrange(start, chunk_limit(b, start, max)));
}

/// Split `text` eagerly into all of its chunks, returned as byte ranges:
/// contiguous, exhaustive, non-empty, and each at most `max` bytes long.
pub fn chunk_ranges(text: &str, max: usize) -> (r: Vec<(usize, usize)>)
    requires
        max >= 4,
    ensures
        r@.len() == chunk_pieces(text.spec_bytes(), 0, max as int).len(),
        forall|i: int|
            0 <= i < r@.len() ==> b_range(text.spec_bytes(), #[trigger] r@[i]) == chunk_pieces(
                text.spec_bytes(),
                0,
                max as int,
            )[i],
        forall|i: int| 0 <= i < r@.len() ==> (#[trigger] r@[i]).0 < r@[i].1 <= text.spec_bytes().len(),
        forall|i: int| 0 <= i < r@.len() - 1 ==> (#[trigger] r@[i]).1 == r@[i + 1].0,
        r@.len() > 0 ==> r@[0].0 == 0 && r@[r@.len() - 1].1 == text.spec_bytes().len(),
{
    let ghost b = text.spec_bytes();
    proof {
        encode_utf8_valid_utf8(text@);
        assert(is_char_boundary(b, 0));
    }
    let bs = text.as_bytes();
    let n: usize = bs.len();
    let mut r: Vec<(usize, usize)> = Vec::new();
    let mut start: usize = 0;
    while start < n
        invariant
            b == text.spec_bytes(),
            n == b.len(),
            can_split(b, start as int, max as int),
            start <= n,
            chunk_pieces(b, 0, max as int) == Seq::new(
                r@.len(),
                |i: int| b_range(b, r@[i]),
            ) + chunk_pieces(b, start as int, max as int),
            forall|i: int| 0 <= i < r@.len() ==> (#[trigger] r@[i]).0 < r@[i].1 <= n,
            forall|i: int| 0 <= i < r@.len() - 1 ==> (#[trigger] r@[i]).1 == r@[i + 1].0,
            r@.len() > 0 ==> r@[0].0 == 0 && r@[r@.len() - 1].1 == start,
            r@.len() == 0 ==> start == 0,
        decreases n - start,
    {
        let end = next_chunk_end(text, start, max);
        proof {
            let built = Seq::new(r@.len(), |i: int| b_range(b, r@[i]));
            let built2 = Seq::new(
                r@.push((start, end)).len(),
                |i: int| b_range(b, r@.push((start, end))[i]),
            );
            assert(built2 =~= built + seq![b.subrange(start as int, end as int)]);
            assert((built + seq![b.subrange(start as int, end as int)]) + chunk_pieces(
                b,
                end as int,
                max as int,
            ) =~= built + (seq![b.subrange(start as int, end as int)] + chunk_pieces(
                b,
                end as int,
                max as int,
            )));
        }
        r.push((start, end));
        start = end;
    }
    proof {
        assert(chunk_pieces(b, start as int, max as int) =~= Seq::<Seq<u8>>::empty());
        assert(chunk_pieces(b, 0, max as int) =~= Seq::new(r@.len(), |i: int| b_range(b, r@[i])));
    }
    r
}

/// The bytes of `b` that the range `p` designates.
pub open spec fn b_range(b: Seq<u8>, p: (usize, usize)) -> Seq<u8> {
    b.subrange(p.0 as int, p.1 as int)
}

} // verus!
