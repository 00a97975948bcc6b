//! The one way an extractor fails: at a byte offset of its input.

use vstd::prelude::*;

verus! {

/// Why matching could not go on at the offset of a [`ParseError`].
#[derive(Clone, Copy, Debug, PartialEq, Eq, Structural)]
pub enum Cause {
    /// The input ended before the grammar was satisfied.
    EndOfInput,
    /// The byte at the offset is outside the class expected there.
    UnexpectedByte,
}

/// A parse failure, anchored at the offset where matching could not continue.
///
/// The offset counts from the start of the slice handed to the extractor that
/// reports the failure.
#[derive(Clone, Copy, Debug, PartialEq, Eq, Structural)]
pub struct ParseError {
    pub offset: usize,
    pub cause: Cause,
}

/// The failure of a match on `s` that could not continue at `offset`.
pub open spec fn failure(s: Seq<u8>, offset: int) -> ParseError {
    ParseError {
        offset: offset as usize,
        cause: if offset >= s.len() {
            Cause::EndOfInput
        } else {
            Cause::UnexpectedByte
        },
    }
}

/// What an extractor returns: the rest of the input with the span that it took
/// from the front, or the failure.
pub type Taken<'a> = Result<(&'a [u8], &'a [u8]), ParseError>;

/// The extractor took the first `n` bytes of `s` and left the others.
pub open spec fn taken(r: Taken, s: Seq<u8>, n: int) -> bool {
    &&& 0 <= n <= s.len()
    &&& r matches Ok((rest, out)) && out@ == s.take(n) && rest@ == s.skip(n)
}

/// The extractor failed on `s`, at `offset`, which lies within `s` or at its
/// end.
pub open spec fn failed<T>(r: Result<T, ParseError>, s: Seq<u8>, offset: int) -> bool {
    &&& 0 <= offset <= s.len()
    &&& r matches Err(e) && e == failure(s, offset)
}

impl ParseError {
    /// The failure of a match on `b` that could not continue at `offset`.
    pub fn at(b: &[u8], offset: usize) -> (e: ParseError)
        requires
            offset <= b@.len(),
        ensures
            e == failure(b@, offset as int),
    {
        let cause = if offset >= b.len() {
            Cause::EndOfInput
        } else {
            Cause::UnexpectedByte
        };
        ParseError { offset, cause }
    }
}

} // verus!
