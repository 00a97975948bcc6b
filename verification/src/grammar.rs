//! The header grammar of RFC 3977 appendix A.1, as functions on byte
//! sequences.
//!
//! ```abnf
//! headers        = 1*header CRLF
//! header         = header-name ":" SP [header-content] CRLF
//! header-name    = 1*A-NOTCOLON
//! header-content = [WS] token *( [WS CRLF] WS token ) [WS]
//! token          = 1*P-CHAR
//! P-CHAR         = A-CHAR / UTF8-non-ascii
//! ```
//!
//! Every function here reads its rule at the front of a sequence and answers
//! with the number of bytes the rule takes there. Repetitions are greedy and
//! alternatives are ordered, so each rule has exactly one answer. Where a rule
//! cannot match an empty string, the answer 0 stands for "no match".
//!
//! The grammar deviates from the RFC in one place: horizontal whitespace may
//! stand directly before the line break of a fold.

use vstd::prelude::*;
use vstd::utf8::valid_utf8;
use crate::classify::{a_char, a_notcolon, hspace};

verus! {

/// The sequence starts with a line break, `CR LF`.
pub open spec fn at_crlf(s: Seq<u8>) -> bool {
    s.len() >= 2 && s[0] == 0x0d && s[1] == 0x0a
}

/// The leading run of horizontal whitespace in `s` ends at `n`.
pub open spec fn hspace_run(s: Seq<u8>, n: int) -> bool {
    &&& 0 <= n <= s.len()
    &&& forall|i: int| 0 <= i < n ==> hspace(#[trigger] s[i])
    &&& n < s.len() ==> !hspace(s[n])
}

/// The leading run of `A-NOTCOLON` bytes in `s` ends at `n`.
pub open spec fn notcolon_run(s: Seq<u8>, n: int) -> bool {
    &&& 0 <= n <= s.len()
    &&& forall|i: int| 0 <= i < n ==> a_notcolon(#[trigger] s[i])
    &&& n < s.len() ==> !a_notcolon(s[n])
}

/// `[WS]`: the length of the horizontal whitespace at the front of `s`.
pub open spec fn ws_len(s: Seq<u8>) -> int
    decreases s.len(),
{
    if s.len() > 0 && hspace(s[0]) {
        1 + ws_len(s.skip(1))
    } else {
        0
    }
}

/// `header-name`: the length of the run of `A-NOTCOLON` bytes at the front of
/// `s`; 0 when `s` starts with no header name.
pub open spec fn name_len(s: Seq<u8>) -> int
    decreases s.len(),
{
    if s.len() > 0 && a_notcolon(s[0]) {
        1 + name_len(s.skip(1))
    } else {
        0
    }
}

/// What [`ws_len`] is, said without recursion: the one place where the
/// leading run of horizontal whitespace ends.
pub proof fn lemma_ws_len(s: Seq<u8>, n: int)
    ensures
        hspace_run(s, n) <==> n == ws_len(s),
    decreases s.len(),
{
    if s.len() > 0 && hspace(s[0]) {
        let t = s.skip(1);
        assert forall|i: int| 0 <= i < t.len() implies t[i] == s[i + 1] by {}
        lemma_ws_len(t, n - 1);
        if hspace_run(s, n) {
            assert(hspace_run(t, n - 1)) by {
                assert forall|i: int| 0 <= i < n - 1 implies hspace(#[trigger] t[i]) by {
                    assert(hspace(s[i + 1]));
                }
            }
        }
        if n == ws_len(s) {
            assert(hspace_run(t, n - 1));
            assert forall|i: int| 0 <= i < n implies hspace(#[trigger] s[i]) by {
                if i > 0 {
                    assert(hspace(t[i - 1]));
                }
            }
        }
    }
}

/// What [`name_len`] is, said without recursion: the one place where the
/// leading run of `A-NOTCOLON` bytes ends.
pub proof fn lemma_name_len(s: Seq<u8>, n: int)
    ensures
        notcolon_run(s, n) <==> n == name_len(s),
    decreases s.len(),
{
    if s.len() > 0 && a_notcolon(s[0]) {
        let t = s.skip(1);
        assert forall|i: int| 0 <= i < t.len() implies t[i] == s[i + 1] by {}
        lemma_name_len(t, n - 1);
        if notcolon_run(s, n) {
            assert(notcolon_run(t, n - 1)) by {
                assert forall|i: int| 0 <= i < n - 1 implies a_notcolon(#[trigger] t[i]) by {
                    assert(a_notcolon(s[i + 1]));
                }
            }
        }
        if n == name_len(s) {
            assert(notcolon_run(t, n - 1));
            assert forall|i: int| 0 <= i < n implies a_notcolon(#[trigger] s[i]) by {
                if i > 0 {
                    assert(a_notcolon(t[i - 1]));
                }
            }
        }
    }
}

/// `UTF8-non-ascii` for a whole span: the bytes are well-formed UTF-8 and none
/// of them is ASCII.
pub open spec fn utf8_non_ascii(s: Seq<u8>) -> bool {
    &&& valid_utf8(s)
    &&& forall|i: int| 0 <= i < s.len() ==> #[trigger] s[i] >= 0x80
}

/// The first `n` bytes of `s` are there and are `UTF8-non-ascii`.
pub open spec fn utf8_non_ascii_prefix(s: Seq<u8>, n: int) -> bool {
    n <= s.len() && utf8_non_ascii(s.take(n))
}

/// The length of the shortest prefix of `s`, of 1 to 4 bytes, that is
/// `UTF8-non-ascii`; 0 when there is none.
pub open spec fn utf8_non_ascii_len(s: Seq<u8>) -> int {
    if utf8_non_ascii_prefix(s, 1) {
        1
    } else if utf8_non_ascii_prefix(s, 2) {
        2
    } else if utf8_non_ascii_prefix(s, 3) {
        3
    } else if utf8_non_ascii_prefix(s, 4) {
        4
    } else {
        0
    }
}

/// `P-CHAR`: 1 for an `A-CHAR` at the front of `s`, else the length of the
/// `UTF8-non-ascii` there; 0 when `s` starts with neither.
pub open spec fn p_char_len(s: Seq<u8>) -> int {
    if s.len() > 0 && a_char(s[0]) {
        1
    } else {
        utf8_non_ascii_len(s)
    }
}

/// `token`: the length of the run of `P-CHAR`s at the front of `s`; 0 when `s`
/// starts with no token.
pub open spec fn token_len(s: Seq<u8>) -> int
    decreases s.len(),
{
    let n = p_char_len(s);
    if 0 < n <= s.len() {
        n + token_len(s.skip(n))
    } else {
        0
    }
}

/// `[WS CRLF]`: the length of the line fold at the front of `s`, trailing
/// whitespace of the folded line included; 0 when `s` starts with no fold.
pub open spec fn fold_len(s: Seq<u8>) -> int {
    let w = ws_len(s);
    if at_crlf(s.skip(w)) {
        w + 2
    } else {
        0
    }
}

/// `[WS CRLF] WS token`: the length of the continuation segment at the front
/// of `s`; 0 when `s` starts with none.
pub open spec fn segment_len(s: Seq<u8>) -> int {
    let f = fold_len(s);
    let w = ws_len(s.skip(f));
    let t = token_len(s.skip(f + w));
    if w > 0 && t > 0 {
        f + w + t
    } else {
        0
    }
}

/// `*( [WS CRLF] WS token )`: the length of the continuation segments at the
/// front of `s`.
pub open spec fn segments_len(s: Seq<u8>) -> int
    decreases s.len(),
{
    let n = segment_len(s);
    if 0 < n <= s.len() {
        n + segments_len(s.skip(n))
    } else {
        0
    }
}

/// `header-content`: the length of the content at the front of `s`, folds and
/// trailing whitespace included; 0 when `s` starts with no content.
pub open spec fn content_len(s: Seq<u8>) -> int {
    let w = ws_len(s);
    let t = token_len(s.skip(w));
    if t > 0 {
        let m = w + t + segments_len(s.skip(w + t));
        m + ws_len(s.skip(m))
    } else {
        0
    }
}

/// The offset of the content in a header line that starts `s`: behind the
/// name, the colon and the space.
pub open spec fn header_content_start(s: Seq<u8>) -> int {
    name_len(s) + 2
}

/// The length of the content in a header line that starts `s`; 0 when the
/// line has none.
pub open spec fn header_content_len(s: Seq<u8>) -> int {
    content_len(s.skip(header_content_start(s)))
}

/// The offset of the line break that ends a header line that starts `s`.
pub open spec fn header_content_end(s: Seq<u8>) -> int {
    header_content_start(s) + header_content_len(s)
}

/// Where `header` stops matching at the front of `s`: `None` when `s` starts
/// with a whole header line, else the offset of the first place where one of
/// name, colon, space and line break is missing.
pub open spec fn header_stop(s: Seq<u8>) -> Option<int> {
    let n = name_len(s);
    if n == 0 {
        Some(0)
    } else if !(n < s.len() && s[n] == 0x3a) {
        Some(n)
    } else if !(n + 1 < s.len() && s[n + 1] == 0x20) {
        Some(n + 1)
    } else if !at_crlf(s.skip(header_content_end(s))) {
        Some(header_content_end(s))
    } else {
        None
    }
}

/// `header`: `s` starts with a whole header line.
pub open spec fn is_header(s: Seq<u8>) -> bool {
    header_stop(s) is None
}

/// The length of the header line at the front of `s`, its line break
/// included.
pub open spec fn header_len(s: Seq<u8>) -> int {
    header_content_end(s) + 2
}

/// The name of the header line at the front of `s`.
pub open spec fn header_name(s: Seq<u8>) -> Seq<u8> {
    s.take(name_len(s))
}

/// The content of the header line at the front of `s`: empty when the line
/// has none, and without the line break that ends the line.
pub open spec fn header_content(s: Seq<u8>) -> Seq<u8> {
    s.subrange(header_content_start(s), header_content_end(s))
}

/// `*header`: the length of the run of header lines at the front of `s`.
pub open spec fn lines_len(s: Seq<u8>) -> int
    decreases s.len(),
{
    let n = header_len(s);
    if is_header(s) && 0 < n <= s.len() {
        n + lines_len(s.skip(n))
    } else {
        0
    }
}

/// `*header`: the header lines at the front of `s` in the order in which they
/// stand there, each as its name and its content.
pub open spec fn lines(s: Seq<u8>) -> Seq<(Seq<u8>, Seq<u8>)>
    decreases s.len(),
{
    let n = header_len(s);
    if is_header(s) && 0 < n <= s.len() {
        seq![(header_name(s), header_content(s))] + lines(s.skip(n))
    } else {
        seq![]
    }
}

/// `headers`: `s` starts with a header block, one header line or more and
/// then an empty line.
pub open spec fn is_block(s: Seq<u8>) -> bool {
    lines_len(s) > 0 && at_crlf(s.skip(lines_len(s)))
}

/// The length of the header block at the front of `s`, the empty line
/// included.
pub open spec fn block_len(s: Seq<u8>) -> int {
    lines_len(s) + 2
}

} // verus!
