use nntp_headers::{take_headers, Cause, Headers, ParseError};

fn failure(offset: usize, cause: Cause) -> ParseError {
    ParseError { offset, cause }
}

fn content_of(headers: &Headers, name: &str) -> Vec<String> {
    headers.get(name).unwrap().content.clone()
}

#[test]
fn block_of_one_header() {
    let block = b"Xref: number.nntp.giganews.com mozilla.dev.platform:47661\r\n\r\n";
    let (rest, headers) = take_headers(block).unwrap();
    assert_eq!(rest, b"");
    assert_eq!(headers.len(), 1);
    assert_eq!(headers.entries(), 1);
    let xref = headers.get("Xref").unwrap();
    assert_eq!(xref.name, "Xref");
    assert_eq!(xref.content, vec!["number.nntp.giganews.com mozilla.dev.platform:47661"]);
}

#[test]
fn block_with_a_header_without_content() {
    let (rest, headers) = take_headers(b"X-Spam-Level: \r\n\r\n").unwrap();
    assert_eq!(rest, b"");
    assert_eq!(content_of(&headers, "X-Spam-Level"), vec![""]);
    assert_eq!(headers.len(), 1);
}

#[test]
fn block_with_a_folded_header() {
    let block = b"Received: from a.example\r\n    by b.example\r\n\r\n";
    let (_rest, headers) = take_headers(block).unwrap();
    let expected = format!("{}{}{}{}", "from a.example", "\r\n", "    ", "by b.example");
    assert_eq!(content_of(&headers, "Received"), vec![expected]);
}

#[test]
fn block_with_a_repeated_name() {
    let block = b"X-Received: first\r\nSubject: hello\r\nX-Received: second\r\n\r\nbody";
    let (rest, headers) = take_headers(block).unwrap();
    assert_eq!(rest, b"body");
    assert_eq!(content_of(&headers, "X-Received"), vec!["first", "second"]);
    assert_eq!(content_of(&headers, "Subject"), vec!["hello"]);
    assert_eq!(headers.len(), 3);
    assert_eq!(headers.entries(), 2);
}

#[test]
fn block_without_the_separator_behind_a_name() {
    assert!(take_headers(b"Subject hello\r\n\r\n").is_err());
    assert_eq!(
        take_headers(b"Subject hello\r\n\r\n").err(),
        Some(failure(0, Cause::UnexpectedByte))
    );
    assert_eq!(
        take_headers(b"From: a\r\nSubject:hello\r\n\r\n").err(),
        Some(failure(9, Cause::UnexpectedByte))
    );
}

#[test]
fn rest_is_all_that_follows_the_empty_line() {
    let body: &[u8] = b"\r\n\r\nFrom: not a header\r\n\xff\xfe\x00 raw bytes \r\n.\r\n";
    let mut input = b"From: a@example.org\r\nSubject: hello \r\n  world\r\n\r\n".to_vec();
    let block_len = input.len();
    input.extend_from_slice(body);
    let (rest, headers) = take_headers(&input).unwrap();
    assert_eq!(rest, body);
    assert_eq!(rest, &input[block_len..]);
    assert_eq!(&input[block_len - 4..block_len], b"\r\n\r\n");
    assert_eq!(headers.len(), 2);
}

#[test]
fn lookup_tells_upper_case_from_lower_case() {
    let (_rest, headers) = take_headers(b"Subject: hello\r\nsubject: again\r\n\r\n").unwrap();
    assert_eq!(content_of(&headers, "Subject"), vec!["hello"]);
    assert_eq!(content_of(&headers, "subject"), vec!["again"]);
    assert!(headers.get("SUBJECT").is_none());
    assert!(!headers.contains_key("SUBJECT"));
    assert!(headers.get("Subjec").is_none());
    assert!(headers.get("Subject ").is_none());
    assert!(headers.get("").is_none());
    assert_eq!(headers.entries(), 2);
}

#[test]
fn line_count_is_the_sum_of_the_content_lists() {
    let block = b"A: 1\r\nB: 2\r\nA: 3\r\nC: 4\r\nA: 5\r\nB: 6\r\n\r\n";
    let (_rest, headers) = take_headers(block).unwrap();
    assert_eq!(headers.len(), 6);
    assert_eq!(headers.entries(), 3);
    let mut sum = 0;
    let mut index = 0;
    while let Some(header) = headers.entry(index) {
        assert!(!header.content.is_empty());
        sum += header.content.len();
        index += 1;
    }
    assert_eq!(index, 3);
    assert_eq!(sum, 6);
    assert_eq!(content_of(&headers, "A"), vec!["1", "3", "5"]);
    assert_eq!(content_of(&headers, "B"), vec!["2", "6"]);
    assert_eq!(content_of(&headers, "C"), vec!["4"]);
}

#[test]
fn entries_stand_in_the_order_of_their_first_line() {
    let (_rest, headers) = take_headers(b"B: 1\r\nA: 2\r\nB: 3\r\n\r\n").unwrap();
    assert_eq!(headers.entry(0).unwrap().name, "B");
    assert_eq!(headers.entry(1).unwrap().name, "A");
    assert!(headers.entry(2).is_none());
}

#[test]
fn folds_stay_in_the_text_as_they_are() {
    let block = b"X-A: one \r\n\t two\r\n   three \r\n\r\n";
    let (_rest, headers) = take_headers(block).unwrap();
    let text = &headers.get("X-A").unwrap().content[0];
    assert_eq!(text, "one \r\n\t two\r\n   three ");
    assert_eq!(text.as_bytes(), &block[5..block.len() - 4]);
}

#[test]
fn text_beyond_ascii_is_decoded() {
    let block = "Subject: héllo 🤘\r\nFrom: ぎ <a@example.org>\r\n\r\n";
    let (_rest, headers) = take_headers(block.as_bytes()).unwrap();
    assert_eq!(content_of(&headers, "Subject"), vec!["héllo 🤘"]);
    assert_eq!(content_of(&headers, "From"), vec!["ぎ <a@example.org>"]);
    assert_eq!(headers.get("Subject").unwrap().content[0].chars().count(), 7);
}

#[test]
fn block_without_a_header() {
    assert_eq!(take_headers(b"\r\nbody").err(), Some(failure(0, Cause::UnexpectedByte)));
    assert_eq!(take_headers(b" A: b\r\n\r\n").err(), Some(failure(0, Cause::UnexpectedByte)));
    assert_eq!(take_headers(b"").err(), Some(failure(0, Cause::EndOfInput)));
}

#[test]
fn block_without_the_empty_line() {
    assert_eq!(take_headers(b"A: b\r\n").err(), Some(failure(6, Cause::EndOfInput)));
    assert_eq!(take_headers(b"A: b\r\nbody").err(), Some(failure(6, Cause::UnexpectedByte)));
    assert_eq!(take_headers(b"A: b\r\n\r").err(), Some(failure(6, Cause::UnexpectedByte)));
    assert_eq!(
        take_headers(b"A: b\r\nC: d\r\nE f\r\n\r\n").err(),
        Some(failure(12, Cause::UnexpectedByte))
    );
}

#[test]
fn block_with_bytes_that_are_not_utf8_in_a_content() {
    assert_eq!(take_headers(b"A: b\xff\r\n\r\n").err(), Some(failure(0, Cause::UnexpectedByte)));
    assert_eq!(
        take_headers(b"A: b\r\nC: d\xff\r\n\r\n").err(),
        Some(failure(6, Cause::UnexpectedByte))
    );
}

#[test]
fn headers_are_built_line_by_line() {
    let mut headers = Headers::new();
    assert!(headers.is_empty());
    assert_eq!(headers.len(), 0);
    assert_eq!(headers.entries(), 0);
    assert!(headers.get("A").is_none());
    assert!(headers.entry(0).is_none());
    headers.push(String::from("A"), String::from("1"));
    headers.push(String::from("B"), String::from("2"));
    headers.push(String::from("A"), String::from(""));
    assert!(!headers.is_empty());
    assert_eq!(headers.len(), 3);
    assert_eq!(headers.entries(), 2);
    assert!(headers.contains_key("A"));
    assert!(!headers.contains_key("a"));
    assert_eq!(headers.get("A").unwrap().name, "A");
    assert_eq!(content_of(&headers, "A"), vec!["1", ""]);
    assert_eq!(content_of(&headers, "B"), vec!["2"]);
}

#[test]
fn failure_at_the_end_of_the_input() {
    let input = b"abc";
    assert_eq!(ParseError::at(input, 3), failure(3, Cause::EndOfInput));
    assert_eq!(ParseError::at(input, 0), failure(0, Cause::UnexpectedByte));
    assert_eq!(ParseError::at(input, 2), failure(2, Cause::UnexpectedByte));
    assert_eq!(ParseError::at(b"", 0), failure(0, Cause::EndOfInput));
}
