//! Progress through a body sent with `Transfer-Encoding: chunked`.
use vstd::prelude::*;
use crate::grammar::{
    chunk_header, crlf, message_header, spec_chunk_header, spec_crlf, spec_message_header,
    ParseResult,
};
use crate::prefix::{lemma_chunk_header_ext, lemma_crlf_ext, lemma_message_header_ext};
use crate::types::{BufferMove, Chunk};

verus! {

/// The move and the next chunk state once a chunk header ending at `i` and
/// announcing `size` bytes was read: the header and the data are handed over.
pub open spec fn after_chunk_header(i: usize, size: usize) -> (BufferMove, Chunk) {
    if size == 0 {
        (BufferMove::Advance(i), Chunk::CopyingLastHeader)
    } else if i + size > usize::MAX {
        (BufferMove::Stay, Chunk::Error)
    } else {
        (BufferMove::Advance((i + size) as usize), Chunk::Copying)
    }
}

/// One step through a chunked body on the bytes `s` that follow what was
/// already handed over.
pub open spec fn spec_chunk_parse(c: Chunk, s: Seq<u8>) -> (BufferMove, Chunk) {
    match c {
        Chunk::Initial => match spec_chunk_header(s, 0) {
            ParseResult::Done(i, size) => after_chunk_header(i, size),
            ParseResult::Incomplete => (BufferMove::Stay, Chunk::Initial),
            ParseResult::Error => (BufferMove::Stay, Chunk::Error),
        },
        Chunk::Copying => match spec_crlf(s) {
            ParseResult::Done(_, _) => match spec_chunk_header(s, 2) {
                ParseResult::Done(i, size) => after_chunk_header(i, size),
                ParseResult::Incomplete => (BufferMove::Stay, Chunk::Copying),
                ParseResult::Error => (BufferMove::Stay, Chunk::Error),
            },
            ParseResult::Incomplete => (BufferMove::Stay, Chunk::Copying),
            ParseResult::Error => (BufferMove::Stay, Chunk::Error),
        },
        Chunk::CopyingLastHeader => match spec_crlf(s) {
            ParseResult::Done(i, _) => (BufferMove::Advance(i), Chunk::Ended),
            ParseResult::Incomplete => (BufferMove::Stay, Chunk::CopyingLastHeader),
            ParseResult::Error => match spec_message_header(s) {
                ParseResult::Done(i, _) => (BufferMove::Advance(i), Chunk::CopyingLastHeader),
                ParseResult::Incomplete => (BufferMove::Stay, Chunk::CopyingLastHeader),
                ParseResult::Error => (BufferMove::Stay, Chunk::Error),
            },
        },
        _ => (BufferMove::Stay, c),
    }
}

fn next_after_header(i: usize, size: usize) -> (r: (BufferMove, Chunk))
    ensures
        r == after_chunk_header(i, size),
{
    if size == 0 {
        (BufferMove::Advance(i), Chunk::CopyingLastHeader)
    } else if i > usize::MAX - size {
        (BufferMove::Stay, Chunk::Error)
    } else {
        (BufferMove::Advance(i + size), Chunk::Copying)
    }
}

impl Chunk {
    /// Reads what can be read of the chunked body in `buf`, and says how much
    /// of it to hand over.
    pub fn parse(self, buf: &[u8]) -> (r: (BufferMove, Chunk))
        ensures
            r == spec_chunk_parse(self, buf@),
            r.0 matches BufferMove::Advance(n) ==> 0 < n,
            r.0 is Delete ==> false,
    {
        match self {
            Chunk::Initial => match chunk_header(buf, 0) {
                ParseResult::Done(i, size) => next_after_header(i, size),
                ParseResult::Incomplete => (BufferMove::Stay, Chunk::Initial),
                ParseResult::Error => (BufferMove::Stay, Chunk::Error),
            },
            Chunk::Copying => match crlf(buf) {
                ParseResult::Done(_, _) => match chunk_header(buf, 2) {
                    ParseResult::Done(i, size) => next_after_header(i, size),
                    ParseResult::Incomplete => (BufferMove::Stay, Chunk::Copying),
                    ParseResult::Error => (BufferMove::Stay, Chunk::Error),
                },
                ParseResult::Incomplete => (BufferMove::Stay, Chunk::Copying),
                ParseResult::Error => (BufferMove::Stay, Chunk::Error),
            },
            Chunk::CopyingLastHeader => match crlf(buf) {
                ParseResult::Done(i, _) => (BufferMove::Advance(i), Chunk::Ended),
                ParseResult::Incomplete => (BufferMove::Stay, Chunk::CopyingLastHeader),
                ParseResult::Error => match message_header(buf) {
                    ParseResult::Done(i, _) => (BufferMove::Advance(i), Chunk::CopyingLastHeader),
                    ParseResult::Incomplete => (BufferMove::Stay, Chunk::CopyingLastHeader),
                    ParseResult::Error => (BufferMove::Stay, Chunk::Error),
                },
            },
            _ => (BufferMove::Stay, self),
        }
    }
}

/// Where a chunked body ended or failed, reading more data changes nothing.
pub proof fn law_chunk_end_is_final(c: Chunk, s: Seq<u8>)
    requires
        c is Ended || c is Error,
    ensures
        spec_chunk_parse(c, s) == (BufferMove::Stay, c),
{
}

/// A step through a chunked body that does not wait for more data gives
/// the same result whatever bytes follow the ones it read.
pub proof fn lemma_chunk_parse_settles(c: Chunk, s: Seq<u8>, t: Seq<u8>)
    requires
        (s + t).len() <= usize::MAX,
        spec_chunk_parse(c, s) != (BufferMove::Stay, c),
    ensures
        spec_chunk_parse(c, s + t) == spec_chunk_parse(c, s),
{
    match c {
        Chunk::Initial => {
            lemma_chunk_header_ext(s, t, 0);
        },
        Chunk::Copying => {
            lemma_crlf_ext(s, t);
            if spec_crlf(s) is Done {
                lemma_chunk_header_ext(s, t, 2);
            }
        },
        Chunk::CopyingLastHeader => {
            lemma_crlf_ext(s, t);
            if spec_crlf(s) is Error {
                lemma_message_header_ext(s, t);
            }
        },
        _ => {},
    }
}

} // verus!
