use server::parser::{MessageParser, ParseError};

fn req(text: &str) -> Vec<u8> {
    text.as_bytes().to_vec()
}

fn header<'a>(r: &'a server::request::Request, name: &str) -> Option<&'a Vec<u8>> {
    r.header_value(&name.as_bytes().to_vec())
}

#[test]
fn well_formed_request_parses() {
    let input = req("GET /index.html HTTP/1.1\r\nHost: localhost\r\nContent-Length: 5\r\n\r\nhello");
    let r = MessageParser::parse_request(&input, 1024).unwrap();
    assert_eq!(r.method, b"GET".to_vec());
    assert_eq!(r.path, b"/index.html".to_vec());
    assert_eq!(r.body, b"hello".to_vec());
    assert_eq!(header(&r, "Host"), Some(&b"localhost".to_vec()));
    assert_eq!(header(&r, "Content-Length"), Some(&b"5".to_vec()));
}

#[test]
fn body_is_exactly_declared_length() {
    let input = req("POST /x HTTP/1.1\r\nContent-Length: 5\r\n\r\nhello world, extra bytes");
    let r = MessageParser::parse_request(&input, 1024).unwrap();
    assert_eq!(r.body, b"hello".to_vec());
    assert_eq!(r.body.len(), 5);
}

#[test]
fn oversized_declaration_rejected_before_body() {
    let input = req("POST /x HTTP/1.1\r\nContent-Length: 10\r\n\r\n");
    let r = MessageParser::parse_request(&input, 5);
    assert_eq!(r.unwrap_err(), ParseError::PayloadTooLarge);
    // the same head is rejected whatever follows it
    let input2 = req("POST /x HTTP/1.1\r\nContent-Length: 10\r\n\r\n0123456789");
    let r2 = MessageParser::parse_request(&input2, 5);
    assert_eq!(r2.unwrap_err(), ParseError::PayloadTooLarge);
}

#[test]
fn declaration_at_limit_accepted() {
    let input = req("POST /x HTTP/1.1\r\nContent-Length: 5\r\n\r\nhello");
    let r = MessageParser::parse_request(&input, 5).unwrap();
    assert_eq!(r.body, b"hello".to_vec());
}

#[test]
fn short_request_line_rejected() {
    let input = req("GET /\r\nHost: localhost\r\n\r\n");
    let r = MessageParser::parse_request(&input, 1024);
    assert_eq!(r.unwrap_err(), ParseError::MalformedRequestLine);
}

#[test]
fn empty_input_rejected() {
    let input: Vec<u8> = Vec::new();
    let r = MessageParser::parse_request(&input, 1024);
    assert_eq!(r.unwrap_err(), ParseError::MalformedRequestLine);
}

#[test]
fn request_line_without_newline_parses_when_complete() {
    let input = req("GET / HTTP/1.1");
    let r = MessageParser::parse_request(&input, 1024).unwrap();
    assert_eq!(r.method, b"GET".to_vec());
    assert_eq!(r.path, b"/".to_vec());
    assert_eq!(r.headers.len(), 0);
    assert_eq!(r.body.len(), 0);
}

#[test]
fn extra_whitespace_between_tokens_tolerated() {
    let input = req("GET   /a\t HTTP/1.1\r\n\r\n");
    let r = MessageParser::parse_request(&input, 1024).unwrap();
    assert_eq!(r.method, b"GET".to_vec());
    assert_eq!(r.path, b"/a".to_vec());
}

#[test]
fn header_line_without_separator_skipped() {
    let input = req("GET / HTTP/1.1\r\nNoSeparatorHere\r\nHost: h\r\n\r\n");
    let r = MessageParser::parse_request(&input, 1024).unwrap();
    assert_eq!(r.headers.len(), 1);
    assert_eq!(header(&r, "Host"), Some(&b"h".to_vec()));
}

#[test]
fn duplicate_header_last_occurrence_wins() {
    let input = req("GET / HTTP/1.1\r\nHost: first\r\nHost: second\r\n\r\n");
    let r = MessageParser::parse_request(&input, 1024).unwrap();
    assert_eq!(header(&r, "Host"), Some(&b"second".to_vec()));
}

#[test]
fn content_length_key_is_case_insensitive() {
    let input = req("POST / HTTP/1.1\r\ncontent-LENGTH: 3\r\n\r\nabcdef");
    let r = MessageParser::parse_request(&input, 1024).unwrap();
    assert_eq!(r.body, b"abc".to_vec());
}

#[test]
fn other_header_keys_keep_exact_case() {
    let input = req("GET / HTTP/1.1\r\nX-Thing: v\r\n\r\n");
    let r = MessageParser::parse_request(&input, 1024).unwrap();
    assert_eq!(header(&r, "X-Thing"), Some(&b"v".to_vec()));
    assert_eq!(header(&r, "x-thing"), None);
}

#[test]
fn unparsable_content_length_reads_as_zero() {
    let input = req("POST / HTTP/1.1\r\nContent-Length: abc\r\n\r\nignored");
    let r = MessageParser::parse_request(&input, 1024).unwrap();
    assert_eq!(r.body.len(), 0);
}

#[test]
fn negative_content_length_reads_as_zero() {
    let input = req("POST / HTTP/1.1\r\nContent-Length: -4\r\n\r\nignored");
    let r = MessageParser::parse_request(&input, 1024).unwrap();
    assert_eq!(r.body.len(), 0);
}

#[test]
fn plus_signed_content_length_accepted() {
    let input = req("POST / HTTP/1.1\r\nContent-Length: +4\r\n\r\nabcdef");
    let r = MessageParser::parse_request(&input, 1024).unwrap();
    assert_eq!(r.body, b"abcd".to_vec());
}

#[test]
fn huge_content_length_reads_as_zero() {
    let input = req("POST / HTTP/1.1\r\nContent-Length: 99999999999999999999999999\r\n\r\nabc");
    let r = MessageParser::parse_request(&input, 1024).unwrap();
    assert_eq!(r.body.len(), 0);
}

#[test]
fn duplicate_content_length_last_wins() {
    let input = req("POST / HTTP/1.1\r\nContent-Length: 1\r\nContent-Length: 2\r\n\r\nabc");
    let r = MessageParser::parse_request(&input, 1024).unwrap();
    assert_eq!(r.body, b"ab".to_vec());
}

#[test]
fn short_body_is_io_error() {
    let input = req("POST / HTTP/1.1\r\nContent-Length: 5\r\n\r\nab");
    let r = MessageParser::parse_request(&input, 1024);
    assert_eq!(r.unwrap_err(), ParseError::Io);
}

#[test]
fn bare_lf_line_endings_accepted() {
    let input = req("GET / HTTP/1.1\nHost: h\n\n");
    let r = MessageParser::parse_request(&input, 1024).unwrap();
    assert_eq!(header(&r, "Host"), Some(&b"h".to_vec()));
}

#[test]
fn invalid_utf8_body_decoded_lossily() {
    let mut input = req("POST / HTTP/1.1\r\nContent-Length: 2\r\n\r\n");
    input.push(0xff);
    input.push(0x61);
    let r = MessageParser::parse_request(&input, 1024).unwrap();
    let expected = String::from_utf8_lossy(&[0xff, 0x61]).into_owned().into_bytes();
    assert_eq!(r.body, expected);
}

#[test]
fn declared_body_len_reports_content_length() {
    let input = req("POST / HTTP/1.1\r\nContent-Length: 42\r\n\r\n");
    assert_eq!(MessageParser::declared_body_len(&input), 42);
    let none = req("GET / HTTP/1.1\r\nHost: h\r\n\r\n");
    assert_eq!(MessageParser::declared_body_len(&none), 0);
}
