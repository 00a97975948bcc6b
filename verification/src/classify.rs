//! Character classes of RFC 3977 section 9.8.

use vstd::prelude::*;

verus! {

/// `A-NOTCOLON`: a printable ASCII byte other than `:`.
pub open spec fn a_notcolon(chr: u8) -> bool {
    (0x21 <= chr <= 0x39) || (0x3b <= chr <= 0x7e)
}

/// `A-CHAR`: a printable ASCII byte, `!` through `~`.
pub open spec fn a_char(chr: u8) -> bool {
    0x21 <= chr <= 0x7e
}

/// Horizontal whitespace: a space or a tab.
pub open spec fn hspace(chr: u8) -> bool {
    chr == 0x20 || chr == 0x09
}

/// Returns true if the byte is any printable ASCII byte other than a colon.
#[verifier::when_used_as_spec(a_notcolon)]
pub fn is_a_notcolon(chr: u8) -> (r: bool)
    ensures
        r == a_notcolon(chr),
{
    (chr >= 0x21 && chr <= 0x39) || (chr >= 0x3b && chr <= 0x7e)
}

/// Returns true if the byte is any ASCII byte from `!` through `~`.
#[verifier::when_used_as_spec(a_char)]
pub fn is_a_char(chr: u8) -> (r: bool)
    ensures
        r == a_char(chr),
{
    chr >= 0x21 && chr <= 0x7e
}

/// Returns true if the slice is exactly one `A-CHAR`.
pub fn is_a_char_bytes(b: &[u8]) -> (r: bool)
    requires
        b@.len() >= 1,
    ensures
        r == (b@.len() == 1 && a_char(b@[0])),
{
    if b.len() > 1 {
        false
    } else {
        is_a_char(b[0])
    }
}

} // verus!
