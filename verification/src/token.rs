//! Extractors for the two kinds of word: the token and the header name.

use vstd::prelude::*;
use vstd::slice::slice_subrange;
use crate::error::{failed, taken, ParseError, Taken};
use crate::grammar::{lemma_name_len, name_len, token_len};
use crate::primitive::take_p_char;
use crate::scan::take_while1_a_notcolon;

verus! {

/// Takes the header name: the leading run of one or more `A-NOTCOLON` bytes.
pub fn take_header_name<'a>(b: &'a [u8]) -> (r: Taken<'a>)
    ensures
        name_len(b@) != 0 ==> taken(r, b@, name_len(b@)),
        name_len(b@) == 0 ==> failed(r, b@, 0),
{
    match take_while1_a_notcolon(b) {
        Some((rest, out)) => {
            proof {
                lemma_name_len(b@, out@.len() as int);
            }
            Ok((rest, out))
        },
        None => Err(ParseError::at(b, 0)),
    }
}

/// Takes a token: the leading run of one or more `P-CHAR`s, as one span.
pub fn take_token<'a>(b: &'a [u8]) -> (r: Taken<'a>)
    ensures
        token_len(b@) != 0 ==> taken(r, b@, token_len(b@)),
        token_len(b@) == 0 ==> failed(r, b@, 0),
{
    let mut rest = b;
    let mut len: usize = 0;
    loop
        invariant
            len <= b@.len() == b.len(),
            rest@ == b@.skip(len as int),
            token_len(b@) == len + token_len(rest@),
        ensures
            token_len(b@) == len,
        decreases rest@.len(),
    {
        match take_p_char(rest) {
            Ok((next, out)) => {
                len += out.len();
                rest = next;
            },
            Err(_) => {
                break ;
            },
        }
    }
    if len == 0 {
        Err(ParseError::at(b, 0))
    } else {
        Ok((rest, slice_subrange(b, 0, len)))
    }
}

} // verus!
