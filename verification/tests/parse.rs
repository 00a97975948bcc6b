use nntp_headers::{
    is_utf8_non_ascii, take_ascii_byte, take_header, take_header_content, take_header_name,
    take_headers, take_token, take_utf8_non_ascii,
};
use std::str::from_utf8;

const TEXT_ARTICLE: &str = "220 47661 <mailman.366.1588281655.24343.dev-platform@lists.mozilla.org> article\r\n\
Path: buffer2.nntp.dca1.giganews.com!border2.nntp.dca1.giganews.com!nntp.giganews.com!nntp.mozilla.org!news.mozilla.org.POSTED!not-for-mail\r\n\
NNTP-Posting-Date: Thu, 04 Jun 2020 12:13:42 -0500\r\n\
Return-Path: <jdoe@mozilla.com>\r\n\
X-Envelope-To: dev-platform@lists.mozilla.org\r\n\
Delivered-To: dev-platform@lists.mozilla.org\r\n\
X-Virus-Scanned: amavisd-new at mozilla.org\r\n\
X-Spam-Flag: NO\r\n\
X-Spam-Score: -0.099\r\n\
X-Spam-Level: \r\n\
X-Spam-Status: No, score=-0.099 tagged_above=-999 required=5\r\n\
\ttests=[DKIM_SIGNED=0.1, DKIM_VALID=-0.1, DKIM_VALID_AU=-0.1,\r\n\
\tHTML_MESSAGE=0.001] autolearn=unavailable autolearn_force=no\r\n\
X-Google-DKIM-Signature: v=1; a=rsa-sha256; c=relaxed/relaxed;\r\n        \
d=1e100.net; s=20161025;\r\n        \
h=x-gm-message-state:mime-version:from:date:message-id:subject:to;\r\n\
X-Received: by 2002:ac8:2aed:: with SMTP id c42mr5587158qta.202.1591290821135;\r\n        \
Thu, 05 Jun 2020 10:13:41 -0700 (PDT)\r\n\
X-Received: by 2002:a05:620a:1244:: with SMTP id a4mr5573436qkl.133.1591290820795;\r\n \
Thu, 04 Jun 2020 10:13:40 -0700 (PDT)\r\n\
MIME-Version: 1.0\r\n\
From: Jane Doe <jdoe@mozilla.com>\r\n\
Date: Thu, 4 Jun 2020 10:13:29 -0700\r\n\
Message-ID: <mailman.366.1588281655.24343.dev-platform@lists.mozilla.org>\r\n\
Subject: Intent to deprecate: stretching MathML operators with STIXGeneral fonts\r\n\
To: dev-platform <dev-platform@lists.mozilla.org>\r\n\
Content-Type: text/plain; charset=\"UTF-8\"\r\n\
Newsgroups: mozilla.dev.platform\r\n\
Lines: 36\r\n\
Xref: number.nntp.giganews.com mozilla.dev.platform:47661\r\n\
\r\n\
In bug 1630935 [1], I intend to deprecate support for drawing\r\n\
stretched MathML operators using the STIXGeneral fonts.\r\n";

const TEXT_ARTICLE_TRAILING_WHITESPACE: &str = "220 47661 <mailman.366.1588281655.24343.dev-platform@lists.mozilla.org> article\r\n\
Path: buffer2.nntp.dca1.giganews.com!nntp.mozilla.org!news.mozilla.org.POSTED!not-for-mail\r\n\
Subject: ThisSubjectHasTrailingWhitespace \r\n\
X-HeaderA: this folded header has trailing whitespace on the first line \r\n \
and also has it at the end of this line. \r\n\
X-HeaderB: this folded header has no trailing whitespace on the first line\r\n \
but does have it on this line. \r\n\
Newsgroups: mozilla.dev.platform\r\n\
\r\n\
In bug 1630935 [1], I intend to deprecate support for drawing\r\n\
stretched MathML operators using the STIXGeneral fonts.\r\n";

const FOLDED_HEADER: &[u8; 127] =
    b"X-Received: by 2002:ac8:2aed:: with SMTP id c42mr5587158qta.202.1591290821135;\r\n        \
            Thu, 05 Jun 2020 10:13:41 -0700 (PDT)\r\n";

#[test]
fn happy_path() {
    ["🤘".as_bytes(), "¥".as_bytes(), "🚃".as_bytes()]
        .iter()
        .for_each(|b| {
            println!("Testing `{}` -- {:?}", from_utf8(b).unwrap(), b);
            assert_eq!(is_utf8_non_ascii(b), true)
        });
}

#[test]
fn fail_ascii() {
    assert_eq!(is_utf8_non_ascii(b"1"), false)
}

#[test]
fn parse_happy_path() {
    ["🤘", "¢", "ぎ", "🚃5"].iter().for_each(|s| {
        println!("Testing `{}` -- {:?}", s, s.as_bytes());
        let (rest, byte) = take_utf8_non_ascii(s.as_bytes()).unwrap();

        assert_eq!(from_utf8(byte).unwrap().chars().next(), s.chars().next());
        assert_eq!(rest.is_empty(), s.chars().count() == 1);
    })
}

#[test]
fn test_token() {
    let (rest, token) = take_token("📯1🤘 some words 🐒 ".as_bytes()).unwrap();
    println!("{:?}", from_utf8(rest).unwrap());
    println!("{:?}", from_utf8(token).unwrap());

    assert_eq!(token, "📯1🤘".as_bytes());
    assert_eq!(rest, " some words 🐒 ".as_bytes())
}

#[test]
fn take_ascii_byte_happy_path() {
    let (_rest, _char) = take_ascii_byte(b"5").unwrap();
}

#[test]
fn fail_on_unicode() {
    assert!(take_ascii_byte("🤘 ".as_bytes()).is_err());
}

#[test]
fn test_take_header_name() {
    let (rest, header_name) = take_header_name(FOLDED_HEADER).unwrap();
    assert_eq!(header_name, b"X-Received");
    assert_ne!(rest.len(), 0);
}

#[test]
fn test_header_content() {
    let content =
        b"by 2002:ac8:2aed:: with SMTP id c42mr5587158qta.202.1591290821135;\r\n        \
            Thu, 05 Jun 2020 10:13:41 -0700 (PDT)\r\n";

    let (_rest, parsed_header) = take_header_content(&content[..]).unwrap();

    // the content does not hold the final CRLF: that one ends the header
    assert_eq!(&content[..content.len() - 2], parsed_header)
}

#[test]
fn test_folded() {
    let content =
        b"by 2002:ac8:2aed:: with SMTP id c42mr5587158qta.202.1591290821135;\r\n        \
            Thu, 05 Jun 2020 10:13:41 -0700 (PDT)\r\n";

    let (rest, (header_name, parsed_content)) = take_header(FOLDED_HEADER).unwrap();
    println!("{:?}", from_utf8(&header_name).unwrap());
    println!("{:?}", from_utf8(&rest).unwrap());
    assert_eq!(rest.len(), 0);
    assert_eq!(header_name, &b"X-Received"[..]);
    assert_eq!(parsed_content, &content[..content.len() - 2])
}

#[test]
fn test_simple() {
    let header = "Xref: number.nntp.giganews.com mozilla.dev.platform:47661\r\n";

    let (rest, (name, content)) = take_header(header.as_bytes()).unwrap();

    assert_eq!(rest.len(), 0);
    assert_eq!(name, header.split(':').next().unwrap().as_bytes());
    assert_eq!(
        from_utf8(content).unwrap(),
        header.splitn(2, ':').nth(1).map(|s| s.trim()).unwrap()
    )
}

#[test]
fn test_empty_contents() {
    let header = b"X-Spam-Level: \r\n";
    let (_rest, (name, content)) = take_header(header).unwrap();
    assert_eq!(name, b"X-Spam-Level");
    assert_eq!(content, b"");
}

#[test]
fn test_non_compliant_whitespace() {
    let header = b"X-Received: by 2002:a65:508c:: with SMTP id r12mr626047pgp.233.1591751885013; \r\n Tue, 09 Jun 2020 18:18:05 -0700 (PDT)\r\n";

    let (_rest, (name, content)) = take_header(header).unwrap();
    assert_eq!(name, b"X-Received");
    assert_eq!(
        content,
        &b"by 2002:a65:508c:: with SMTP id r12mr626047pgp.233.1591751885013; \r\n Tue, 09 Jun 2020 18:18:05 -0700 (PDT)"[..]);
}

#[test]
fn test_take_headers() {
    // strip the initial response line
    let article = TEXT_ARTICLE.splitn(2, '\n').nth(1).unwrap();
    let (rest, headers) = take_headers(article.as_bytes()).unwrap();

    println!("{:#?}", headers);

    assert!(rest.starts_with(b"In bug 1630935 [1], I intend to deprecate support for drawing"));
    assert!(headers.contains_key("X-Received"));
    assert_eq!(headers.get("X-Received").unwrap().content.len(), 2);
}

#[test]
fn test_take_headers_with_trailing_whitespace() {
    let article = TEXT_ARTICLE_TRAILING_WHITESPACE.splitn(2, '\n').nth(1).unwrap();
    let (rest, headers) = take_headers(article.as_bytes()).unwrap();
    assert!(rest.starts_with(b"In bug 1630935 [1], I intend to deprecate support for drawing"));
    assert!(headers.contains_key("Subject"));
    let subject = headers.get("Subject").unwrap();
    assert_eq!(subject.content, vec!["ThisSubjectHasTrailingWhitespace "]);

    assert!(headers.contains_key("X-HeaderA"));
    let header_a = headers.get("X-HeaderA").unwrap();
    assert_eq!(header_a.content, vec![String::from_utf8_lossy(b"this folded header has trailing whitespace on the first line \r\n and also has it at the end of this line. ")]);

    assert!(headers.contains_key("X-HeaderB"));
    let header_b = headers.get("X-HeaderB").unwrap();
    assert_eq!(header_b.content, vec![String::from_utf8_lossy(b"this folded header has no trailing whitespace on the first line\r\n but does have it on this line. ")]);
}
