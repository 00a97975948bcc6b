//! Extractors for one header line: its content, which may be folded over
//! several physical lines, and the line as a whole.

use vstd::prelude::*;
use vstd::slice::slice_subrange;
use crate::error::{failed, taken, ParseError, Taken};
use crate::grammar::{
    content_len, fold_len, header_content, header_len, header_name, header_stop, is_header,
    lemma_ws_len, name_len, segment_len, segments_len, token_len, ws_len,
};
use crate::scan::{char, crlf, space0, space1};
use crate::token::{take_header_name, take_token};

verus! {

/// Skips the horizontal whitespace at the front of `b`.
fn skip_ws<'a>(b: &'a [u8]) -> (rest: &'a [u8])
    ensures
        0 <= ws_len(b@) <= b@.len(),
        rest@ == b@.skip(ws_len(b@)),
{
    match space0(b) {
        Some((rest, out)) => {
            proof {
                lemma_ws_len(b@, out@.len() as int);
            }
            rest
        },
        None => b,
    }
}

/// Skips the line fold at the front of `b`, if there is one.
fn skip_fold<'a>(b: &'a [u8]) -> (rest: &'a [u8])
    ensures
        0 <= fold_len(b@) <= b@.len(),
        rest@ == b@.skip(fold_len(b@)),
{
    let after_ws = skip_ws(b);
    match crlf(after_ws) {
        Some((rest, _)) => rest,
        None => b,
    }
}

/// Skips the continuation segment at the front of `b`: a line fold or none,
/// then whitespace, then a token.
fn skip_segment<'a>(b: &'a [u8]) -> (r: Option<&'a [u8]>)
    ensures
        0 <= segment_len(b@) <= b@.len(),
        r.is_some() == (segment_len(b@) != 0),
        r matches Some(rest) ==> rest@ == b@.skip(segment_len(b@)),
{
    let after_fold = skip_fold(b);
    let ghost f = fold_len(b@);
    match space1(after_fold) {
        Some((after_ws, ws)) => {
            let ghost w = ws@.len() as int;
            proof {
                lemma_ws_len(after_fold@, w);
                assert(after_ws@ == b@.skip(f + w));
            }
            match take_token(after_ws) {
                Ok((rest, token)) => {
                    Some(rest)
                },
                Err(_) => None,
            }
        },
        None => {
            proof {
                lemma_ws_len(after_fold@, 0);
            }
            None
        },
    }
}

/// Takes the content of a header: a token, then any number of continuation
/// segments, with whitespace allowed before and behind.
///
/// The span that comes back is the content as it stands in the input, the
/// line breaks and the indentation of its folds included.
pub fn take_header_content<'a>(b: &'a [u8]) -> (r: Taken<'a>)
    ensures
        content_len(b@) != 0 ==> taken(r, b@, content_len(b@)),
        content_len(b@) == 0 ==> failed(r, b@, ws_len(b@)),
{
    let after_ws = skip_ws(b);
    let ghost w = ws_len(b@);
    let mut rest = match take_token(after_ws) {
        Ok((rest, _)) => rest,
        Err(_) => {
            return Err(ParseError::at(b, b.len() - after_ws.len()));
        },
    };
    let ghost first = w + token_len(after_ws@);
    let ghost mut pos = first;
    assert(rest@ == b@.skip(pos));
    loop
        invariant
            0 <= first <= pos <= b@.len() == b.len(),
            rest@ == b@.skip(pos),
            segments_len(b@.skip(first)) == pos - first + segments_len(rest@),
        ensures
            segments_len(b@.skip(first)) == pos - first,
        decreases rest@.len(),
    {
        match skip_segment(rest) {
            Some(next) => {
                proof {
                    pos = pos + segment_len(rest@);
                }
                rest = next;
            },
            None => {
                break ;
            },
        }
    }
    let rest = skip_ws(rest);
    assert(rest@ == b@.skip(content_len(b@)));
    let read = b.len() - rest.len();
    Ok((rest, slice_subrange(b, 0, read)))
}

/// Takes one header line: the name, a colon, a space, the content if there is
/// any, and the line break. Returns the rest with the name and the content;
/// the content is empty where the line has none.
pub fn take_header<'a>(b: &'a [u8]) -> (r: Result<(&'a [u8], (&'a [u8], &'a [u8])), ParseError>)
    ensures
        is_header(b@) ==> 0 < header_len(b@) <= b@.len(),
        is_header(b@) ==> (r matches Ok((rest, (name, content))) && name@ == header_name(b@)
            && content@ == header_content(b@) && rest@ == b@.skip(header_len(b@))),
        header_stop(b@) matches Some(offset) ==> failed(r, b@, offset),
{
    let (after_name, name) = match take_header_name(b) {
        Ok(found) => found,
        Err(e) => {
            return Err(e);
        },
    };
    let ghost n = name_len(b@);
    assert(after_name@.len() == b@.len() - n && b@.len() == b.len());
    let after_colon = match char(after_name, ':') {
        Some(rest) => rest,
        None => {
            return Err(ParseError::at(b, name.len()));
        },
    };
    let after_space = match char(after_colon, ' ') {
        Some(rest) => rest,
        None => {
            return Err(ParseError::at(b, name.len() + 1));
        },
    };
    assert(after_space@ == b@.skip(n + 2));
    let (after_content, content) = match take_header_content(after_space) {
        Ok(found) => found,
        Err(_) => (after_space, slice_subrange(after_space, 0, 0)),
    };
    let ghost c = content_len(after_space@);
    match crlf(after_content) {
        Some((rest, _)) => {
            Ok((rest, (name, content)))
        },
        None => Err(ParseError::at(b, b.len() - after_content.len())),
    }
}

} // verus!
