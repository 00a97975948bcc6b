//! Parser for the header block of an NNTP article (RFC 3977, appendix A.1).
//!
//! The grammar is stated once, as spec functions over byte sequences in
//! [`grammar`], and every extractor is proved to compute exactly what the
//! grammar says: which bytes it consumes, what it leaves, and where it fails.

pub mod block;
pub mod classify;
pub mod error;
pub mod grammar;
pub mod header;
pub mod headers;
pub mod primitive;
mod scan;
pub mod text;
pub mod token;

pub use block::take_headers;
pub use classify::{is_a_char, is_a_char_bytes, is_a_notcolon};
pub use error::{Cause, ParseError};
pub use header::{take_header, take_header_content};
pub use headers::{Header, Headers};
pub use primitive::{
    is_utf8_non_ascii, take_a_char, take_ascii_byte, take_p_char, take_utf8_non_ascii,
};
pub use token::{take_header_name, take_token};
