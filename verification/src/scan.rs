//! The matchers that the extractors are built from, each one call into `nom`
//! or `std` whose contract is taken on trust from that crate's source.

use vstd::prelude::*;
use vstd::utf8::{decode_utf8, valid_utf8};
use crate::classify::{a_notcolon, hspace, is_a_notcolon};
use crate::grammar::{at_crlf, hspace_run, notcolon_run};

verus! {

/// What `String::from_utf8_lossy` makes of a byte sequence: its characters,
/// with a replacement character wherever the bytes are not UTF-8.
pub uninterp spec fn lossy_text(bytes: Seq<u8>) -> Seq<char>;

/// `nom::bytes::complete::take`: splits off the first `count` bytes, and
/// fails when fewer are left.
#[verifier::external_body]
pub(crate) fn take<'a>(b: &'a [u8], count: u8) -> (r: Option<(&'a [u8], &'a [u8])>)
    ensures
        r.is_some() == (count <= b@.len()),
        r matches Some((rest, out)) ==> out@ == b@.take(count as int) && rest@ == b@.skip(
            count as int,
        ),
{
    nom::bytes::complete::take::<u8, &[u8], (&[u8], nom::error::ErrorKind)>(count)(b).ok()
}

/// `nom::bytes::complete::take_while1` with [`is_a_notcolon`]: splits off the
/// leading run of `A-NOTCOLON` bytes, and fails when the run is empty.
#[verifier::external_body]
pub(crate) fn take_while1_a_notcolon<'a>(b: &'a [u8]) -> (r: Option<(&'a [u8], &'a [u8])>)
    ensures
        r.is_some() == (b@.len() != 0 && a_notcolon(b@[0])),
        r matches Some((rest, out)) ==> notcolon_run(b@, out@.len() as int) && out@ == b@.take(
            out@.len() as int,
        ) && rest@ == b@.skip(out@.len() as int),
{
    nom::bytes::complete::take_while1::<_, &[u8], (&[u8], nom::error::ErrorKind)>(is_a_notcolon)(
        b,
    ).ok()
}

/// `nom::character::complete::space0`: splits off the leading run of spaces
/// and tabs, which may be empty.
#[verifier::external_body]
pub(crate) fn space0<'a>(b: &'a [u8]) -> (r: Option<(&'a [u8], &'a [u8])>)
    ensures
        r.is_some(),
        r matches Some((rest, out)) ==> hspace_run(b@, out@.len() as int) && out@ == b@.take(
            out@.len() as int,
        ) && rest@ == b@.skip(out@.len() as int),
{
    nom::character::complete::space0::<&[u8], (&[u8], nom::error::ErrorKind)>(b).ok()
}

/// `nom::character::complete::space1`: splits off the leading run of spaces
/// and tabs, and fails when the run is empty.
#[verifier::external_body]
pub(crate) fn space1<'a>(b: &'a [u8]) -> (r: Option<(&'a [u8], &'a [u8])>)
    ensures
        r.is_some() == (b@.len() != 0 && hspace(b@[0])),
        r matches Some((rest, out)) ==> hspace_run(b@, out@.len() as int) && out@ == b@.take(
            out@.len() as int,
        ) && rest@ == b@.skip(out@.len() as int),
{
    nom::character::complete::space1::<&[u8], (&[u8], nom::error::ErrorKind)>(b).ok()
}

/// `nom::character::complete::crlf`: splits off a leading `CR LF`, and fails
/// when the input starts with anything else.
#[verifier::external_body]
pub(crate) fn crlf<'a>(b: &'a [u8]) -> (r: Option<(&'a [u8], &'a [u8])>)
    ensures
        r.is_some() == at_crlf(b@),
        r matches Some((rest, out)) ==> out@ == b@.take(2) && rest@ == b@.skip(2),
{
    nom::character::complete::crlf::<&[u8], (&[u8], nom::error::ErrorKind)>(b).ok()
}

/// `nom::character::complete::char` for an ASCII character: drops a leading
/// byte equal to `c`, and fails when the input starts with anything else.
#[verifier::external_body]
pub(crate) fn char<'a>(b: &'a [u8], c: char) -> (r: Option<&'a [u8]>)
    requires
        (c as u32) < 0x80,
    ensures
        r.is_some() == (b@.len() != 0 && b@[0] as u32 == c as u32),
        r matches Some(rest) ==> rest@ == b@.skip(1),
{
    match nom::character::complete::char::<&[u8], (&[u8], nom::error::ErrorKind)>(c)(b) {
        Ok((rest, _)) => Some(rest),
        Err(_) => None,
    }
}

/// `core::str::from_utf8`: succeeds on exactly the well-formed UTF-8 byte
/// sequences.
#[verifier::external_body]
pub(crate) fn is_utf8(b: &[u8]) -> (r: bool)
    ensures
        r == valid_utf8(b@),
{
    core::str::from_utf8(b).is_ok()
}

/// `String::from_utf8_lossy`: the text of the bytes. Well-formed UTF-8 comes
/// out as the characters that it encodes.
#[verifier::external_body]
pub(crate) fn from_utf8_lossy(b: &[u8]) -> (s: String)
    ensures
        s@ == lossy_text(b@),
        valid_utf8(b@) ==> s@ == decode_utf8(b@),
{
    String::from_utf8_lossy(b).into_owned()
}

} // verus!
