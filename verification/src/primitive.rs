//! Extractors for one unit: an ASCII byte, an `A-CHAR`, a non-ASCII UTF-8
//! character, a `P-CHAR`.

use vstd::prelude::*;
use crate::classify::{a_char, is_a_char_bytes};
use crate::error::{failed, taken, ParseError, Taken};
use crate::grammar::{p_char_len, utf8_non_ascii, utf8_non_ascii_len, utf8_non_ascii_prefix};
use crate::scan::{is_utf8, take};

verus! {

/// Returns true if the slice is UTF-8 and holds no ASCII byte.
pub fn is_utf8_non_ascii(b: &[u8]) -> (r: bool)
    ensures
        r == utf8_non_ascii(b@),
{
    if !is_utf8(b) {
        return false;
    }
    let mut i: usize = 0;
    while i < b.len()
        invariant
            i <= b@.len(),
            forall|j: int| 0 <= j < i ==> #[trigger] b@[j] >= 0x80,
        decreases b@.len() - i,
    {
        if b[i] < 0x80 {
            return false;
        }
        i += 1;
    }
    true
}

/// Takes one byte if it is ASCII.
pub fn take_ascii_byte<'a>(b: &'a [u8]) -> (r: Taken<'a>)
    ensures
        b@.len() != 0 && b@[0] < 0x80 ==> taken(r, b@, 1),
        !(b@.len() != 0 && b@[0] < 0x80) ==> failed(r, b@, 0),
{
    match take(b, 1) {
        Some((rest, out)) => {
            if out[0] < 0x80 {
                Ok((rest, out))
            } else {
                Err(ParseError::at(b, 0))
            }
        },
        None => Err(ParseError::at(b, 0)),
    }
}

/// Takes one `A-CHAR`.
pub fn take_a_char<'a>(b: &'a [u8]) -> (r: Taken<'a>)
    ensures
        b@.len() != 0 && a_char(b@[0]) ==> taken(r, b@, 1),
        !(b@.len() != 0 && a_char(b@[0])) ==> failed(r, b@, 0),
{
    match take_ascii_byte(b) {
        Ok((rest, out)) => {
            if is_a_char_bytes(out) {
                Ok((rest, out))
            } else {
                Err(ParseError::at(b, 0))
            }
        },
        Err(e) => Err(e),
    }
}

/// Takes the first `count` bytes if they are UTF-8 without an ASCII byte.
fn take_utf8_non_ascii_span<'a>(b: &'a [u8], count: u8) -> (r: Option<(&'a [u8], &'a [u8])>)
    ensures
        r.is_some() == utf8_non_ascii_prefix(b@, count as int),
        r matches Some((rest, out)) ==> out@ == b@.take(count as int) && rest@ == b@.skip(
            count as int,
        ),
{
    match take(b, count) {
        Some((rest, out)) => {
            if is_utf8_non_ascii(out) {
                Some((rest, out))
            } else {
                None
            }
        },
        None => None,
    }
}

/// Takes a single non-ASCII UTF-8 character: the shortest span of one to four
/// bytes that is UTF-8 and holds no ASCII byte.
pub fn take_utf8_non_ascii<'a>(b: &'a [u8]) -> (r: Taken<'a>)
    ensures
        utf8_non_ascii_len(b@) != 0 ==> taken(r, b@, utf8_non_ascii_len(b@)),
        utf8_non_ascii_len(b@) == 0 ==> failed(r, b@, 0),
{
    if let Some(found) = take_utf8_non_ascii_span(b, 1) {
        return Ok(found);
    }
    if let Some(found) = take_utf8_non_ascii_span(b, 2) {
        return Ok(found);
    }
    if let Some(found) = take_utf8_non_ascii_span(b, 3) {
        return Ok(found);
    }
    if let Some(found) = take_utf8_non_ascii_span(b, 4) {
        return Ok(found);
    }
    Err(ParseError::at(b, 0))
}

/// Takes a single `P-CHAR`: an `A-CHAR`, or else a non-ASCII UTF-8 character.
pub fn take_p_char<'a>(b: &'a [u8]) -> (r: Taken<'a>)
    ensures
        p_char_len(b@) != 0 ==> taken(r, b@, p_char_len(b@)),
        p_char_len(b@) == 0 ==> failed(r, b@, 0),
{
    match take_a_char(b) {
        Ok(found) => Ok(found),
        Err(_) => take_utf8_non_ascii(b),
    }
}

} // verus!
