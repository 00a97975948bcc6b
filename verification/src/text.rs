//! Why a header can be stored as text without loss: every span that the
//! grammar admits as a name or as a content is well-formed UTF-8.

use vstd::prelude::*;
use vstd::utf8::{
    decode_utf8, decode_utf8_encode_utf8, encode_utf8, length_of_first_scalar,
    partial_valid_utf8_extend_ascii_block, pop_first_scalar, valid_first_scalar, valid_utf8,
    valid_utf8_concat,
};
use crate::classify::a_char;
use crate::grammar::{
    content_len, fold_len, header_content, header_content_start, header_name, is_header,
    lemma_name_len, lemma_ws_len, name_len, p_char_len, segment_len, segments_len, token_len,
    utf8_non_ascii_len, utf8_non_ascii_prefix, ws_len,
};

verus! {

/// A sequence of ASCII bytes is well-formed UTF-8.
pub proof fn lemma_ascii_is_utf8(s: Seq<u8>)
    requires
        forall|i: int| 0 <= i < s.len() ==> #[trigger] s[i] < 0x80,
    ensures
        valid_utf8(s),
{
    partial_valid_utf8_extend_ascii_block(s, 0, s.len() as int);
    assert(s.subrange(0, s.len() as int) =~= s);
}

/// A well-formed prefix stays well-formed when well-formed bytes follow it.
pub proof fn lemma_utf8_extend(s: Seq<u8>, x: int, y: int)
    requires
        0 <= x,
        0 <= y,
        x + y <= s.len(),
        valid_utf8(s.take(x)),
        valid_utf8(s.skip(x).take(y)),
    ensures
        valid_utf8(s.take(x + y)),
{
    valid_utf8_concat(s.take(x), s.skip(x).take(y));
    assert(s.take(x + y) =~= s.take(x) + s.skip(x).take(y));
}

/// `s` starts with the UTF-8 encoding of one character that is not ASCII.
pub open spec fn at_non_ascii_scalar(s: Seq<u8>) -> bool {
    valid_first_scalar(s) && s[0] >= 0x80
}

/// A byte that may stand in a token: printable ASCII, or a byte of a
/// character that is not ASCII. What is left are the space, the ASCII
/// control bytes and DEL.
pub open spec fn token_byte(c: u8) -> bool {
    a_char(c) || c >= 0x80
}

/// The first scalar of `s`, as a span of its own, is `UTF8-non-ascii`.
proof fn lemma_scalar_is_utf8_non_ascii(s: Seq<u8>)
    requires
        at_non_ascii_scalar(s),
    ensures
        2 <= length_of_first_scalar(s) <= 4,
        utf8_non_ascii_prefix(s, length_of_first_scalar(s)),
        forall|n: int| 1 <= n < length_of_first_scalar(s) ==> !utf8_non_ascii_prefix(s, n),
{
    let len = length_of_first_scalar(s);
    let t = s.take(len);
    assert(valid_utf8(pop_first_scalar(t)));
    assert forall|n: int| 1 <= n < len implies !utf8_non_ascii_prefix(s, n) by {
        assert(!valid_first_scalar(s.take(n)));
    }
}

/// What [`utf8_non_ascii_len`] finds is one character: the shortest span of
/// one to four bytes that is UTF-8 without an ASCII byte is the encoding of
/// the first scalar, where that is not ASCII, and there is no such span where
/// the input starts with anything else.
pub proof fn lemma_utf8_non_ascii_is_one_scalar(s: Seq<u8>)
    ensures
        at_non_ascii_scalar(s) ==> utf8_non_ascii_len(s) == length_of_first_scalar(s),
        !at_non_ascii_scalar(s) ==> utf8_non_ascii_len(s) == 0,
{
    if at_non_ascii_scalar(s) {
        lemma_scalar_is_utf8_non_ascii(s);
    } else {
        let n = utf8_non_ascii_len(s);
        if n > 0 {
            assert(valid_first_scalar(s.take(n)));
        }
    }
}

/// A token holds no space and no control byte, and it is as long as it can
/// be: behind it stands nothing that a token could go on with.
pub proof fn lemma_token_is_maximal(s: Seq<u8>)
    ensures
        0 <= token_len(s) <= s.len(),
        forall|i: int| 0 <= i < token_len(s) ==> token_byte(#[trigger] s[i]),
        p_char_len(s.skip(token_len(s))) == 0,
    decreases s.len(),
{
    let n = p_char_len(s);
    if 0 < n <= s.len() {
        let rest = s.skip(n);
        lemma_token_is_maximal(rest);
        assert(rest.skip(token_len(rest)) =~= s.skip(token_len(s)));
        assert forall|i: int| 0 <= i < token_len(s) implies token_byte(#[trigger] s[i]) by {
            if i < n {
                if !a_char(s[0]) {
                    assert(s.take(n)[i] == s[i]);
                }
            } else {
                assert(rest[i - n] == s[i]);
            }
        }
    } else {
        assert(s.skip(0) =~= s);
    }
}

/// Token extraction is greedy: where the input starts with `k` bytes of
/// well-formed UTF-8 that hold printable ASCII and characters beyond ASCII
/// only, and then ends or goes on with a space or a control byte, the token
/// is exactly those `k` bytes.
pub proof fn lemma_token_is_greedy(s: Seq<u8>, k: int)
    requires
        0 <= k <= s.len(),
        valid_utf8(s.take(k)),
        forall|i: int| 0 <= i < k ==> token_byte(#[trigger] s[i]),
        k < s.len() ==> !token_byte(s[k]),
    ensures
        token_len(s) == k,
    decreases k,
{
    if k == 0 {
        lemma_utf8_non_ascii_is_one_scalar(s);
    } else {
        let t = s.take(k);
        let len = length_of_first_scalar(t);
        lemma_utf8_non_ascii_is_one_scalar(s);
        assert(s.skip(len).take(k - len) =~= pop_first_scalar(t));
        assert forall|i: int| 0 <= i < k - len implies token_byte(#[trigger] s.skip(len)[i]) by {}
        lemma_token_is_greedy(s.skip(len), k - len);
    }
}

/// The horizontal whitespace at the front of `s` lies within `s` and is
/// well-formed UTF-8.
pub proof fn lemma_ws_is_utf8(s: Seq<u8>)
    ensures
        0 <= ws_len(s) <= s.len(),
        valid_utf8(s.take(ws_len(s))),
{
    lemma_ws_len(s, ws_len(s));
    let t = s.take(ws_len(s));
    assert forall|i: int| 0 <= i < t.len() implies #[trigger] t[i] < 0x80 by {}
    lemma_ascii_is_utf8(t);
}

/// The header name at the front of `s` lies within `s` and is well-formed
/// UTF-8.
pub proof fn lemma_name_is_utf8(s: Seq<u8>)
    ensures
        0 <= name_len(s) <= s.len(),
        valid_utf8(s.take(name_len(s))),
{
    lemma_name_len(s, name_len(s));
    let t = s.take(name_len(s));
    assert forall|i: int| 0 <= i < t.len() implies #[trigger] t[i] < 0x80 by {}
    lemma_ascii_is_utf8(t);
}

/// The token at the front of `s` lies within `s` and is well-formed UTF-8.
pub proof fn lemma_token_is_utf8(s: Seq<u8>)
    ensures
        0 <= token_len(s) <= s.len(),
        valid_utf8(s.take(token_len(s))),
    decreases s.len(),
{
    let n = p_char_len(s);
    if 0 < n <= s.len() {
        lemma_token_is_utf8(s.skip(n));
        if a_char(s[0]) {
            let t = s.take(1);
            assert forall|i: int| 0 <= i < t.len() implies #[trigger] t[i] < 0x80 by {}
            lemma_ascii_is_utf8(t);
        }
        lemma_utf8_extend(s, n, token_len(s.skip(n)));
    }
}

/// The line fold at the front of `s` lies within `s` and is well-formed
/// UTF-8.
pub proof fn lemma_fold_is_utf8(s: Seq<u8>)
    ensures
        0 <= fold_len(s) <= s.len(),
        valid_utf8(s.take(fold_len(s))),
{
    lemma_ws_len(s, ws_len(s));
    let t = s.take(fold_len(s));
    assert forall|i: int| 0 <= i < t.len() implies #[trigger] t[i] < 0x80 by {}
    lemma_ascii_is_utf8(t);
}

/// The continuation segment at the front of `s` lies within `s` and is
/// well-formed UTF-8.
pub proof fn lemma_segment_is_utf8(s: Seq<u8>)
    ensures
        0 <= segment_len(s) <= s.len(),
        valid_utf8(s.take(segment_len(s))),
{
    let f = fold_len(s);
    lemma_fold_is_utf8(s);
    let w = ws_len(s.skip(f));
    lemma_ws_is_utf8(s.skip(f));
    let t = token_len(s.skip(f + w));
    lemma_token_is_utf8(s.skip(f + w));
    if w > 0 && t > 0 {
        lemma_utf8_extend(s, f, w);
        lemma_utf8_extend(s, f + w, t);
    }
}

/// The continuation segments at the front of `s` lie within `s` and are
/// well-formed UTF-8.
pub proof fn lemma_segments_are_utf8(s: Seq<u8>)
    ensures
        0 <= segments_len(s) <= s.len(),
        valid_utf8(s.take(segments_len(s))),
    decreases s.len(),
{
    let n = segment_len(s);
    lemma_segment_is_utf8(s);
    if 0 < n <= s.len() {
        lemma_segments_are_utf8(s.skip(n));
        lemma_utf8_extend(s, n, segments_len(s.skip(n)));
    }
}

/// The content at the front of `s` lies within `s` and is well-formed UTF-8,
/// its folds included.
pub proof fn lemma_content_is_utf8(s: Seq<u8>)
    ensures
        0 <= content_len(s) <= s.len(),
        valid_utf8(s.take(content_len(s))),
{
    let w = ws_len(s);
    lemma_ws_is_utf8(s);
    let t = token_len(s.skip(w));
    lemma_token_is_utf8(s.skip(w));
    if t > 0 {
        lemma_utf8_extend(s, w, t);
        let g = segments_len(s.skip(w + t));
        lemma_segments_are_utf8(s.skip(w + t));
        lemma_utf8_extend(s, w + t, g);
        let m = w + t + g;
        lemma_ws_is_utf8(s.skip(m));
        lemma_utf8_extend(s, m, ws_len(s.skip(m)));
    }
}

/// Name and content of a header line are well-formed UTF-8, so the text that
/// they decode to encodes back to the very bytes of the line: no byte of a
/// fold, of its line break or of its indentation, is changed or dropped.
pub proof fn lemma_header_text_is_verbatim(s: Seq<u8>)
    requires
        is_header(s),
    ensures
        valid_utf8(header_name(s)),
        valid_utf8(header_content(s)),
        encode_utf8(decode_utf8(header_name(s))) == header_name(s),
        encode_utf8(decode_utf8(header_content(s))) == header_content(s),
{
    lemma_name_is_utf8(s);
    let start = header_content_start(s);
    lemma_content_is_utf8(s.skip(start));
    assert(header_content(s) =~= s.skip(start).take(content_len(s.skip(start))));
    decode_utf8_encode_utf8(header_name(s));
    decode_utf8_encode_utf8(header_content(s));
}

} // verus!
