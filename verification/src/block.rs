//! The extractor for the header block as a whole.

use vstd::prelude::*;
use vstd::utf8::decode_utf8;
use crate::error::{failed, ParseError};
use crate::grammar::{
    block_len, header_content, header_content_end, header_content_start, header_len,
    header_name, is_block, is_header, lines, lines_len,
};
use crate::header::take_header;
use crate::headers::{collect, first_seen, Headers};
use crate::scan::{crlf, from_utf8_lossy};
use crate::text::{lemma_content_is_utf8, lemma_header_text_is_verbatim, lemma_name_is_utf8};

verus! {

/// The header lines as text: name and content of each line, decoded from
/// UTF-8.
pub open spec fn text_lines(lines: Seq<(Seq<u8>, Seq<u8>)>) -> Seq<(Seq<char>, Seq<char>)> {
    lines.map_values(|line: (Seq<u8>, Seq<u8>)| (decode_utf8(line.0), decode_utf8(line.1)))
}

/// Takes the header block: one header line or more, then the empty line that
/// ends the block. Returns what follows the empty line, and the headers that
/// the lines add up to.
///
/// A block that does not parse gives no headers at all. The failure is
/// anchored behind the last well-formed header line, at the line that is
/// neither a header nor empty.
pub fn take_headers<'a>(b: &'a [u8]) -> (r: Result<(&'a [u8], Headers), ParseError>)
    ensures
        is_block(b@) ==> 0 < block_len(b@) <= b@.len(),
        is_block(b@) ==> (r matches Ok((rest, headers)) && rest@ == b@.skip(block_len(b@))
            && headers.wf() && headers@ == collect(text_lines(lines(b@))) && headers.names()
            == first_seen(text_lines(lines(b@))) && headers.line_count() == lines(b@).len()),
        !is_block(b@) ==> failed(r, b@, lines_len(b@)),
{
    let mut headers = Headers::new();
    let mut rest = b;
    let ghost mut seen: Seq<(Seq<u8>, Seq<u8>)> = seq![];
    let ghost mut pos: int = 0;
    loop
        invariant
            0 <= pos <= b@.len() == b.len(),
            rest@ == b@.skip(pos),
            lines(b@) == seen + lines(rest@),
            lines_len(b@) == pos + lines_len(rest@),
            seen.len() <= pos,
            seen.len() == 0 <==> pos == 0,
            headers.wf(),
            headers@ == collect(text_lines(seen)),
            headers.names() == first_seen(text_lines(seen)),
            headers.line_count() == seen.len(),
        ensures
            lines(b@) == seen,
            lines_len(b@) == pos,
        decreases rest@.len(),
    {
        match take_header(rest) {
            Ok((next, (name, content))) => {
                proof {
                    lemma_header_text_is_verbatim(rest@);
                }
                let name = from_utf8_lossy(name);
                let content = from_utf8_lossy(content);
                headers.push(name, content);
                proof {
                    let line = (header_name(rest@), header_content(rest@));
                    assert(text_lines(seen.push(line)) == text_lines(seen).push(
                        (name@, content@),
                    ));
                    assert(text_lines(seen.push(line)).drop_last() == text_lines(seen));
                    seen = seen.push(line);
                    pos = pos + header_len(rest@);
                }
                rest = next;
            },
            Err(_) => {
                break ;
            },
        }
    }
    if headers.is_empty() {
        return Err(ParseError::at(b, 0));
    }
    match crlf(rest) {
        Some((rest, _)) => Ok((rest, headers)),
        None => Err(ParseError::at(b, b.len() - rest.len())),
    }
}

/// A run of header lines ends with the line break of its last line.
pub proof fn lemma_lines_end_with_crlf(s: Seq<u8>)
    ensures
        0 <= lines_len(s) <= s.len(),
        lines_len(s) > 0 ==> lines_len(s) >= 2 && s[lines_len(s) - 2] == 0x0d && s[lines_len(s)
            - 1] == 0x0a,
    decreases s.len(),
{
    let n = header_len(s);
    if is_header(s) && 0 < n <= s.len() {
        lemma_name_is_utf8(s);
        lemma_content_is_utf8(s.skip(header_content_start(s)));
        let rest = s.skip(n);
        lemma_lines_end_with_crlf(rest);
        if lines_len(rest) > 0 {
        } else {
            let end = s.skip(header_content_end(s));
        }
    }
}

/// A header block ends with an empty line: the line break of its last header
/// line, and directly behind it the line break that ends the block.
pub proof fn lemma_block_ends_with_empty_line(s: Seq<u8>)
    requires
        is_block(s),
    ensures
        4 <= block_len(s) <= s.len(),
        s.subrange(block_len(s) - 4, block_len(s)) == seq![0x0du8, 0x0a, 0x0d, 0x0a],
{
    lemma_lines_end_with_crlf(s);
    let n = lines_len(s);
    let end = s.skip(n);
}

} // verus!
