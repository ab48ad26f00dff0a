//! The token stream state machine.
//!
//! A [`TokenStreamAdapter`] walks a text chunk by chunk.  The host
//! application owns the bounded analysis engine: it asks the stream for the
//! next chunk's byte range, analyzes that slice, and hands the morpheme list
//! back with [`TokenStreamAdapter::push_chunk`] (or reports a failure with
//! [`TokenStreamAdapter::push_chunk_failure`]).  The stream then emits one
//! token per non-whitespace morpheme with [`TokenStreamAdapter::next_token`],
//! rebasing each morpheme's chunk-relative byte span to original-document
//! coordinates and numbering tokens document-wide, so that the consumer sees
//! one continuous token sequence.

use vstd::prelude::*;
use vstd::utf8::decode_utf8;
use vstd::utf8::encode_utf8;
use vstd::utf8::encode_utf8_decode_utf8;
use vstd::utf8::encode_utf8_valid_utf8;
use vstd::utf8::is_char_boundary;
use vstd::string::StringSliceAdditionalSpecFns;

use crate::chunks::chunk_end;
use crate::chunks::lemma_boundary_in_suffix;
use crate::chunks::next_chunk_end;
use crate::failure::excerpt;
use crate::failure::excerpt_of;
use crate::failure::AnalysisFailure;
use crate::morpheme::is_whitespace;
use crate::morpheme::morpheme_fits;
use crate::morpheme::Morpheme;
use crate::token::initial_token;
use crate::token::wrap_inc;
use crate::token::Token;

verus! {

/// The default chunk byte-size ceiling: the analyzer's 16-bit-addressable
/// buffer, scaled by a 3/4 safety factor.
pub const DEFAULT_MAX_CHUNK_SIZE: usize = 65535 / 4 * 3;

/// The token that the stream emits for morpheme `m` of the chunk based at
/// byte `base`, when the previously emitted position was `prev_position`:
/// the morpheme's chunk-relative span rebased to document coordinates (with
/// the end offset one past the reported span end), and the next position.
pub open spec fn token_for(m: Morpheme, base: int, prev_position: usize) -> Token {
    Token {
        position: wrap_inc(prev_position),
        offset_from: (base + m.begin) as usize,
        offset_to: (base + m.end + 1) as usize,
        text: m.surface,
    }
}

/// The streaming tokenizer state machine.
pub struct TokenStreamAdapter {
    /// The whole input text, in original coordinates.
    pub text: String,
    /// Chunk byte-size ceiling.
    pub max_chunk_size: usize,
    /// Byte offset of the current chunk's start: the cumulative byte length
    /// of all chunks fully consumed before it, the base added to the current
    /// chunk's morpheme offsets.
    pub chunk_start: usize,
    /// Byte offset just past the current chunk; the next chunk starts here.
    pub next_start: usize,
    /// The current chunk's morpheme list.
    pub morphemes: Vec<Morpheme>,
    /// Position within the current chunk's morpheme list.
    pub index: usize,
    /// The most recently emitted token.
    pub token: Token,
    /// Chunk-local analysis failures recorded so far.
    pub errors: Vec<AnalysisFailure>,
}

impl TokenStreamAdapter {
    /// The UTF-8 bytes of the input text.
    pub open spec fn bytes(self) -> Seq<u8> {
        encode_utf8(self.text@)
    }

    /// The current chunk's byte length.
    pub open spec fn chunk_len(self) -> int {
        self.next_start - self.chunk_start
    }

    /// Well-formed stream state: the cursor fields delimit a chunk of the
    /// text on character boundaries, the morpheme list lies within the
    /// current chunk, and the emitted offsets never run past the consumed
    /// part of the text.
    pub open spec fn wf(self) -> bool {
        &&& self.max_chunk_size >= 4
        &&& self.bytes().len() < usize::MAX
        &&& self.chunk_start <= self.next_start <= self.bytes().len()
        &&& is_char_boundary(self.bytes(), self.chunk_start as int)
        &&& is_char_boundary(self.bytes(), self.next_start as int)
        &&& self.index <= self.morphemes@.len()
        &&& forall|i: int|
            0 <= i < self.morphemes@.len() ==> morpheme_fits(
                #[trigger] self.morphemes@[i],
                self.chunk_len(),
            )
        &&& self.token.offset_from <= self.next_start
        &&& self.token.offset_to <= self.next_start + 1
    }

    /// A fresh stream over `text`: positioned before the first chunk, with
    /// nothing analyzed and nothing emitted.
    pub fn new(text: &str, max_chunk_size: usize) -> (s: Self)
        requires
            max_chunk_size >= 4,
            text.spec_bytes().len() < usize::MAX,
        ensures
            s.wf(),
            s.text@ == text@,
            s.max_chunk_size == max_chunk_size,
            s.chunk_start == 0,
            s.next_start == 0,
            s.morphemes@.len() == 0,
            s.index == 0,
            initial_token(s.token),
            s.errors@.len() == 0,
    {
        proof {
            encode_utf8_valid_utf8(text@);
            assert(is_char_boundary(text.spec_bytes(), 0));
        }
        TokenStreamAdapter {
            text: text.to_owned(),
            max_chunk_size,
            chunk_start: 0,
            next_start: 0,
            morphemes: Vec::new(),
            index: 0,
            token: Token::new(),
            errors: Vec::new(),
        }
    }

    /// A fresh stream over `text` with the default chunk size ceiling.
    pub fn with_default_limit(text: &str) -> (s: Self)
        requires
            text.spec_bytes().len() < usize::MAX,
        ensures
            s.wf(),
            s.text@ == text@,
            s.max_chunk_size == DEFAULT_MAX_CHUNK_SIZE,
            s.chunk_start == 0,
            s.next_start == 0,
            s.morphemes@.len() == 0,
            s.index == 0,
            initial_token(s.token),
            s.errors@.len() == 0,
    {
        Self::new(text, DEFAULT_MAX_CHUNK_SIZE)
    }

    /// The byte range of the next chunk to analyze, or `None` when the text
    /// is exhausted.
    pub fn next_chunk_range(&self) -> (r: Option<(usize, usize)>)
        requires
            self.wf(),
        ensures
            r is Some <==> self.next_start < self.bytes().len(),
            r is Some ==> {
                let (a, e) = r->0;
                &&& a == self.next_start
                &&& e as int == chunk_end(
                    self.bytes(),
                    self.next_start as int,
                    self.max_chunk_size as int,
                )
                &&& a < e <= self.bytes().len()
                &&& e - a <= self.max_chunk_size
            },
    {
        let n = self.text.as_str().as_bytes().len();
        if self.next_start >= n {
            None
        } else {
            let end = next_chunk_end(self.text.as_str(), self.next_start, self.max_chunk_size);
            Some((self.next_start, end))
        }
    }

    /// Install the analyzer's morpheme list for the next chunk and move the
    /// chunk cursor over it: the consumed chunk's byte length joins the
    /// running offset base, whatever the analysis said.
    pub fn push_chunk(&mut self, morphemes: Vec<Morpheme>)
        requires
            old(self).wf(),
            old(self).next_start < old(self).bytes().len(),
            old(self).index == old(self).morphemes@.len(),
            forall|i: int|
                0 <= i < morphemes@.len() ==> morpheme_fits(
                    #[trigger] morphemes@[i],
                    chunk_end(
                        old(self).bytes(),
                        old(self).next_start as int,
                        old(self).max_chunk_size as int,
                    ) - old(self).next_start,
                ),
        ensures
            final(self).wf(),
            final(self).text == old(self).text,
            final(self).max_chunk_size == old(self).max_chunk_size,
            final(self).token == old(self).token,
            final(self).errors == old(self).errors,
            final(self).chunk_start == old(self).next_start,
            final(self).next_start as int == chunk_end(
                old(self).bytes(),
                old(self).next_start as int,
                old(self).max_chunk_size as int,
            ),
            final(self).morphemes == morphemes,
            final(self).index == 0,
            final(self).chunk_start >= old(self).token.offset_from,
    {
        let end = next_chunk_end(self.text.as_str(), self.next_start, self.max_chunk_size);
        self.chunk_start = self.next_start;
        self.next_start = end;
        self.morphemes = morphemes;
        self.index = 0;
    }

    /// Record a chunk-local analysis failure and move past the offending
    /// chunk as if it had produced no morphemes: the failure is kept as a
    /// truncated excerpt of the chunk plus the reported detail, offsets stay
    /// continuous, and processing resumes with the next chunk.
    pub fn push_chunk_failure(&mut self, detail: String)
        requires
            old(self).wf(),
            old(self).next_start < old(self).bytes().len(),
            old(self).index == old(self).morphemes@.len(),
        ensures
            final(self).wf(),
            final(self).text == old(self).text,
            final(self).max_chunk_size == old(self).max_chunk_size,
            final(self).token == old(self).token,
            final(self).chunk_start == old(self).next_start,
            final(self).next_start as int == chunk_end(
                old(self).bytes(),
                old(self).next_start as int,
                old(self).max_chunk_size as int,
            ),
            final(self).morphemes@.len() == 0,
            final(self).index == 0,
            final(self).chunk_start >= old(self).token.offset_from,
            final(self).errors@.len() == old(self).errors@.len() + 1,
            final(self).errors@.subrange(0, old(self).errors@.len() as int) == old(self).errors@,
            final(self).errors@.last().detail == detail,
            final(self).errors@.last().excerpt@ == excerpt_of(
                decode_utf8(
                    old(self).bytes().subrange(
                        old(self).next_start as int,
                        chunk_end(
                            old(self).bytes(),
                            old(self).next_start as int,
                            old(self).max_chunk_size as int,
                        ),
                    ),
                ),
            ),
    {
        let ghost b = self.bytes();
        let end = next_chunk_end(self.text.as_str(), self.next_start, self.max_chunk_size);
        proof {
            encode_utf8_valid_utf8(self.text@);
            lemma_boundary_in_suffix(b, self.next_start as int, end as int);
        }
        let tail = self.text.as_str().split_at(self.next_start).1;
        let chunk = tail.split_at(end - self.next_start).0;
        proof {
            assert(chunk.spec_bytes() =~= b.subrange(self.next_start as int, end as int));
            encode_utf8_decode_utf8(chunk@);
            assert(decode_utf8(b.subrange(self.next_start as int, end as int)) == chunk@);
        }
        let ex = excerpt(chunk);
        self.errors.push(AnalysisFailure { excerpt: ex, detail });
        self.chunk_start = self.next_start;
        self.next_start = end;
        self.morphemes = Vec::new();
        self.index = 0;
        proof {
            assert(self.errors@.subrange(0, old(self).errors@.len() as int) =~= old(self).errors@);
        }
    }

    /// Emit the next token of the current chunk, skipping whitespace-tagged
    /// morphemes: the emitted token rebases the morpheme's span by the
    /// cumulative byte length of all prior chunks and takes the next
    /// document-wide position.  Returns false — leaving the token buffer
    /// untouched — once the current chunk's morphemes are exhausted; the
    /// caller then pulls the next chunk, or stops when none remains.
    pub fn next_token(&mut self) -> (has: bool)
        requires
            old(self).wf(),
        ensures
            final(self).wf(),
            final(self).text == old(self).text,
            final(self).max_chunk_size == old(self).max_chunk_size,
            final(self).chunk_start == old(self).chunk_start,
            final(self).next_start == old(self).next_start,
            final(self).morphemes == old(self).morphemes,
            final(self).errors == old(self).errors,
            old(self).index <= final(self).index <= final(self).morphemes@.len(),
            forall|j: int|
                old(self).index <= j < final(self).index - (if has {
                    1int
                } else {
                    0int
                }) ==> is_whitespace(#[trigger] final(self).morphemes@[j]),
            has ==> {
                &&& old(self).index < final(self).index
                &&& !is_whitespace(final(self).morphemes@[final(self).index - 1])
                &&& final(self).token == token_for(
                    final(self).morphemes@[final(self).index - 1],
                    final(self).chunk_start as int,
                    old(self).token.position,
                )
            },
            (has == false) ==> final(self).index == final(self).morphemes@.len()
                && final(self).token == old(self).token,
    {
        loop
            invariant
                self.wf(),
                self.text == old(self).text,
                self.max_chunk_size == old(self).max_chunk_size,
                self.chunk_start == old(self).chunk_start,
                self.next_start == old(self).next_start,
                self.morphemes == old(self).morphemes,
                self.errors == old(self).errors,
                self.token == old(self).token,
                old(self).index <= self.index <= self.morphemes@.len(),
                forall|j: int|
                    old(self).index <= j < self.index ==> is_whitespace(
                        #[trigger] self.morphemes@[j],
                    ),
            ensures
                self.index == self.morphemes@.len(),
                self.token == old(self).token,
            decreases self.morphemes@.len() - self.index,
        {
            if self.index >= self.morphemes.len() {
                break;
            }
            let i = self.index;
            self.index = i + 1;
            if !self.morphemes[i].whitespace() {
                let begin = self.morphemes[i].begin;
                let end = self.morphemes[i].end;
                let surface = self.morphemes[i].surface.clone();
                let prev = self.token.position;
                self.token.position = if prev == usize::MAX {
                    0
                } else {
                    prev + 1
                };
                self.token.offset_from = self.chunk_start + begin;
                self.token.offset_to = self.chunk_start + end + 1;
                self.token.text = surface;
                return true;
            }
        }
        false
    }

    /// The most recently emitted token.
    pub fn token(&self) -> (t: &Token)
        ensures
            *t == self.token,
    {
        &self.token
    }

    /// The analysis failures recorded so far.
    pub fn errors(&self) -> (e: &Vec<AnalysisFailure>)
        ensures
            *e == self.errors,
    {
        &self.errors
    }
}

/// Offset continuity: in a well-formed stream, any token still to come — one
/// emitted for a fitting morpheme of the current chunk's unread remainder or
/// of any later chunk — starts at or after the base of the current chunk,
/// and every token already emitted started at or before it.  Emitted offsets
/// therefore never decrease across a chunk boundary.
pub proof fn lemma_offset_continuity(s: TokenStreamAdapter, m: Morpheme, base: int)
    requires
        s.wf(),
        base >= s.next_start,
        m.begin <= m.end,
        base + m.end + 1 <= usize::MAX,
    ensures
        base + m.begin >= s.token.offset_from,
        token_for(m, base, s.token.position).offset_from >= s.token.offset_from,
{
}

} // verus!
