use http_engine::request::{
    content_length, parse_request, read_header, read_method, read_request_line, Method, Request,
};
use http_engine::headers::Headers;
use http_engine::wire::{ConnectionError, WireReader};

fn parsed(bytes: &[u8]) -> Result<(Request, usize), ConnectionError> {
    let mut reader = WireReader::new(bytes);
    let request = parse_request(&mut reader)?;
    Ok((request, reader.position()))
}

fn failure(bytes: &[u8]) -> (ConnectionError, usize) {
    let mut reader = WireReader::new(bytes);
    match parse_request(&mut reader) {
        Ok(request) => panic!("parsed {:?}", request),
        Err(error) => (error, reader.position()),
    }
}

#[test]
fn read_method_knows_get_and_post() {
    assert_eq!(read_method(b"GET"), Method::Get);
    assert_eq!(read_method(b"POST"), Method::Post);
}

#[test]
fn read_method_keeps_other_tokens() {
    assert_eq!(read_method(b"DELETE"), Method::Other(b"DELETE".to_vec()));
    assert_eq!(read_method(b"get"), Method::Other(b"get".to_vec()));
    assert_eq!(read_method(b"GETS"), Method::Other(b"GETS".to_vec()));
    assert_eq!(read_method(b"POS"), Method::Other(b"POS".to_vec()));
    assert_eq!(read_method(b""), Method::Other(Vec::new()));
}

#[test]
fn read_request_line_splits_three_tokens() {
    assert_eq!(
        read_request_line(b"GET /index.html HTTP/1.1"),
        Some((Method::Get, b"/index.html".to_vec()))
    );
    assert_eq!(
        read_request_line(b"POST /files/a%20b HTTP/1.0"),
        Some((Method::Post, b"/files/a%20b".to_vec()))
    );
    assert_eq!(
        read_request_line(b"PUT x y"),
        Some((Method::Other(b"PUT".to_vec()), b"x".to_vec()))
    );
}

#[test]
fn read_request_line_takes_any_whitespace_between_tokens() {
    assert_eq!(
        read_request_line(b"  GET \t /a\x0bHTTP/1.1 \x0c"),
        Some((Method::Get, b"/a".to_vec()))
    );
    assert_eq!(read_request_line(b"GET\n/\rHTTP/1.1"), Some((Method::Get, b"/".to_vec())));
}

#[test]
fn read_request_line_refuses_fewer_than_three_tokens() {
    assert_eq!(read_request_line(b""), None);
    assert_eq!(read_request_line(b"   "), None);
    assert_eq!(read_request_line(b"GET"), None);
    assert_eq!(read_request_line(b"GET /"), None);
    assert_eq!(read_request_line(b"GET / "), None);
    assert_eq!(read_request_line(b" GET /"), None);
}

#[test]
fn read_request_line_refuses_more_than_three_tokens() {
    assert_eq!(read_request_line(b"GET / HTTP/1.1 x"), None);
    assert_eq!(read_request_line(b"GET /a b HTTP/1.1"), None);
}

#[test]
fn read_header_splits_at_the_first_separator() {
    assert_eq!(read_header(b"Host: localhost:4221"), Some((b"Host".to_vec(), b"localhost:4221".to_vec())));
    assert_eq!(read_header(b"X: a: b"), Some((b"X".to_vec(), b"a: b".to_vec())));
    assert_eq!(read_header(b": v"), Some((Vec::new(), b"v".to_vec())));
    assert_eq!(read_header(b"A: : "), Some((b"A".to_vec(), b":".to_vec())));
}

#[test]
fn read_header_strips_the_ends_of_the_line() {
    assert_eq!(read_header(b"  Name: value \t"), Some((b"Name".to_vec(), b"value".to_vec())));
    assert_eq!(read_header(b"Name:  value"), Some((b"Name".to_vec(), b" value".to_vec())));
    assert_eq!(read_header(b"Name : value"), Some((b"Name ".to_vec(), b"value".to_vec())));
}

#[test]
fn read_header_skips_a_line_without_separator() {
    assert_eq!(read_header(b"Bogus"), None);
    assert_eq!(read_header(b"Name:value"), None);
    assert_eq!(read_header(b"Name:"), None);
    assert_eq!(read_header(b"Name: "), None);
    assert_eq!(read_header(b"Name:\tvalue"), None);
    assert_eq!(read_header(b""), None);
    assert_eq!(read_header(b"   "), None);
}

#[test]
fn content_length_reads_the_field() {
    let mut headers = Headers::new();
    assert_eq!(content_length(&headers), 0);
    headers.insert(b"Content-Length".to_vec(), b"12".to_vec());
    assert_eq!(content_length(&headers), 12);
    headers.insert(b"Content-Length".to_vec(), b"+7".to_vec());
    assert_eq!(content_length(&headers), 7);
}

#[test]
fn content_length_is_zero_where_the_field_spells_no_length() {
    for value in [&b"abc"[..], b"", b"-1", b"1.0", b" 5", b"99999999999999999999999999"] {
        let mut headers = Headers::new();
        headers.insert(b"Content-Length".to_vec(), value.to_vec());
        assert_eq!(content_length(&headers), 0);
    }
    let mut headers = Headers::new();
    headers.insert(b"content-length".to_vec(), b"5".to_vec());
    assert_eq!(content_length(&headers), 0);
}

#[test]
fn parse_reads_a_request_without_body() {
    let bytes =
        b"GET /echo/abc HTTP/1.1\r\nHost: localhost:4221\r\nUser-Agent: curl/7.64.1\r\nAccept: */*\r\n\r\n";
    let (request, end) = parsed(bytes).unwrap();
    assert_eq!(request.method, Method::Get);
    assert_eq!(request.path, b"/echo/abc");
    assert_eq!(request.headers.get(b"Host"), Some(&b"localhost:4221"[..]));
    assert_eq!(request.headers.get(b"User-Agent"), Some(&b"curl/7.64.1"[..]));
    assert_eq!(request.headers.get(b"Accept"), Some(&b"*/*"[..]));
    assert_eq!(request.headers.get(b"Content-Length"), None);
    assert_eq!(request.body, b"");
    assert_eq!(end, bytes.len());
}

#[test]
fn parse_reads_a_request_without_headers() {
    let (request, end) = parsed(b"GET / HTTP/1.1\r\n\r\n").unwrap();
    assert_eq!(request.method, Method::Get);
    assert_eq!(request.path, b"/");
    assert_eq!(request.headers.get(b"Host"), None);
    assert_eq!(request.body, b"");
    assert_eq!(end, 18);
}

#[test]
fn parse_reads_the_declared_body_and_no_more() {
    let bytes = b"POST /files/x HTTP/1.1\r\nContent-Length: 5\r\n\r\nhelloGET / HTTP/1.1\r\n\r\n";
    let (request, end) = parsed(bytes).unwrap();
    assert_eq!(request.method, Method::Post);
    assert_eq!(request.path, b"/files/x");
    assert_eq!(request.body, b"hello");
    assert_eq!(end, 50);
    assert_eq!(&bytes[end..], b"GET / HTTP/1.1\r\n\r\n");
}

#[test]
fn parse_reads_a_body_of_exactly_the_declared_length() {
    let bytes = b"POST /files/x HTTP/1.1\r\nContent-Length: 5\r\n\r\n12345";
    let (request, end) = parsed(bytes).unwrap();
    assert_eq!(request.body, b"12345");
    assert_eq!(request.body.len(), 5);
    assert_eq!(end, bytes.len());
}

#[test]
fn parse_keeps_the_body_as_it_was_sent() {
    let mut bytes = b"POST /files/x HTTP/1.1\r\nContent-Length: 6\r\n\r\n".to_vec();
    let body = [0xffu8, 0xfe, 0x00, 0x0d, 0x0a, 0x80];
    bytes.extend_from_slice(&body);
    let (request, end) = parsed(&bytes).unwrap();
    assert_eq!(request.body, body);
    assert_eq!(end, bytes.len());
}

#[test]
fn parse_leaves_the_body_empty_without_a_length() {
    let (request, end) = parsed(b"POST /files/x HTTP/1.1\r\nHost: h\r\n\r\nhello").unwrap();
    assert_eq!(request.body, b"");
    assert_eq!(end, 35);
    let (request, _) = parsed(b"POST /files/x HTTP/1.1\r\nContent-Length: 0\r\n\r\nhello").unwrap();
    assert_eq!(request.body, b"");
}

#[test]
fn parse_takes_a_length_that_is_no_number_as_zero() {
    let (request, end) = parsed(b"POST /f HTTP/1.1\r\nContent-Length: five\r\n\r\nhello").unwrap();
    assert_eq!(request.body, b"");
    assert_eq!(end, 42);
    let (request, _) = parsed(b"POST /f HTTP/1.1\r\nContent-Length: -5\r\n\r\nhello").unwrap();
    assert_eq!(request.body, b"");
    let (request, _) = parsed(b"POST /f HTTP/1.1\r\nContent-Length:  5\r\n\r\nhello").unwrap();
    assert_eq!(request.body, b"");
}

#[test]
fn parse_goes_by_the_last_content_length() {
    let bytes = b"POST /f HTTP/1.1\r\nContent-Length: 2\r\nContent-Length: 4\r\n\r\nhello";
    let (request, _) = parsed(bytes).unwrap();
    assert_eq!(request.body, b"hell");
    let bytes = b"POST /f HTTP/1.1\r\nContent-Length: 4\r\nContent-Length: x\r\n\r\nhello";
    let (request, _) = parsed(bytes).unwrap();
    assert_eq!(request.body, b"");
}

#[test]
fn parse_matches_content_length_by_its_exact_name() {
    let (request, _) = parsed(b"POST /f HTTP/1.1\r\ncontent-length: 5\r\n\r\nhello").unwrap();
    assert_eq!(request.body, b"");
    assert_eq!(request.headers.get(b"content-length"), Some(&b"5"[..]));
}

#[test]
fn parse_skips_header_lines_without_separator() {
    let (request, end) =
        parsed(b"GET / HTTP/1.1\r\nBogus\r\nA: b\r\nNo:separator\r\n\r\n").unwrap();
    assert_eq!(request.headers.get(b"A"), Some(&b"b"[..]));
    assert_eq!(request.headers.get(b"Bogus"), None);
    assert_eq!(request.headers.get(b"No"), None);
    assert_eq!(end, 45);
}

#[test]
fn parse_does_not_end_the_headers_at_a_line_of_whitespace() {
    let (request, end) = parsed(b"GET / HTTP/1.1\r\n  \r\nA: b\r\n\r\n").unwrap();
    assert_eq!(request.headers.get(b"A"), Some(&b"b"[..]));
    assert_eq!(end, 28);
}

#[test]
fn parse_keeps_the_case_of_names_and_the_last_value() {
    let bytes = b"GET / HTTP/1.1\r\nx-Id: 1\r\nX-ID: 2\r\nx-Id: 3\r\n\r\n";
    let (request, _) = parsed(bytes).unwrap();
    assert_eq!(request.headers.get(b"x-Id"), Some(&b"3"[..]));
    assert_eq!(request.headers.get(b"X-ID"), Some(&b"2"[..]));
    assert_eq!(request.headers.get(b"X-Id"), None);
}

#[test]
fn parse_keeps_an_unknown_method() {
    let (request, _) = parsed(b"DELETE /files/x HTTP/1.1\r\n\r\n").unwrap();
    assert_eq!(request.method, Method::Other(b"DELETE".to_vec()));
    assert_eq!(request.path, b"/files/x");
}

#[test]
fn parse_does_not_decode_the_target() {
    let (request, _) = parsed(b"GET /echo/a%20b?x=1#y HTTP/1.1\r\n\r\n").unwrap();
    assert_eq!(request.path, b"/echo/a%20b?x=1#y");
}

#[test]
fn parse_starts_where_the_reader_stands() {
    let bytes = b"junk\r\nGET /a HTTP/1.1\r\n\r\n";
    let mut reader = WireReader::new(bytes);
    assert_eq!(reader.read_line(), Ok(&b"junk"[..]));
    let request = parse_request(&mut reader).unwrap();
    assert_eq!(request.path, b"/a");
    assert_eq!(reader.position(), bytes.len());
}

#[test]
fn parse_fails_on_a_request_line_without_end() {
    assert_eq!(failure(b""), (ConnectionError::UnexpectedEof, 0));
    assert_eq!(failure(b"GET / HTTP/1.1"), (ConnectionError::UnexpectedEof, 0));
    assert_eq!(failure(b"GET / HTTP/1.1\r"), (ConnectionError::UnexpectedEof, 0));
    assert_eq!(failure(b"GET / HTTP/1.1\n\n"), (ConnectionError::UnexpectedEof, 0));
}

#[test]
fn parse_fails_on_headers_without_end() {
    assert_eq!(failure(b"GET / HTTP/1.1\r\n"), (ConnectionError::UnexpectedEof, 0));
    assert_eq!(failure(b"GET / HTTP/1.1\r\nHost: x"), (ConnectionError::UnexpectedEof, 0));
    assert_eq!(failure(b"GET / HTTP/1.1\r\nHost: x\r\n"), (ConnectionError::UnexpectedEof, 0));
    assert_eq!(failure(b"GET / HTTP/1.1\r\nHost: x\r\n\r"), (ConnectionError::UnexpectedEof, 0));
}

#[test]
fn parse_fails_on_a_body_that_is_too_short() {
    let bytes = b"POST /files/x HTTP/1.1\r\nContent-Length: 5\r\n\r\nhell";
    assert_eq!(failure(bytes), (ConnectionError::UnexpectedEof, 0));
    let bytes = b"POST /files/x HTTP/1.1\r\nContent-Length: 5\r\n\r\n";
    assert_eq!(failure(bytes), (ConnectionError::UnexpectedEof, 0));
}

#[test]
fn parse_fails_on_a_malformed_request_line() {
    assert_eq!(failure(b"GET /\r\n\r\n"), (ConnectionError::MalformedRequestLine, 0));
    assert_eq!(failure(b"GET\r\n\r\n"), (ConnectionError::MalformedRequestLine, 0));
    assert_eq!(failure(b"\r\n\r\n"), (ConnectionError::MalformedRequestLine, 0));
    assert_eq!(failure(b"GET / HTTP/1.1 x\r\n\r\n"), (ConnectionError::MalformedRequestLine, 0));
}

#[test]
fn parse_reports_a_malformed_request_line_before_the_headers_end() {
    assert_eq!(failure(b"GET /\r\n"), (ConnectionError::MalformedRequestLine, 0));
    assert_eq!(failure(b"GET /\r\nHost"), (ConnectionError::MalformedRequestLine, 0));
}

#[test]
fn parse_leaves_the_reader_where_it_was_on_failure() {
    let bytes = b"skip\r\nGET / HTTP/1.1\r\nHost: x\r\n";
    let mut reader = WireReader::new(bytes);
    assert_eq!(reader.read_line(), Ok(&b"skip"[..]));
    assert!(matches!(parse_request(&mut reader), Err(ConnectionError::UnexpectedEof)));
    assert_eq!(reader.position(), 6);
    assert_eq!(reader.read_line(), Ok(&b"GET / HTTP/1.1"[..]));
}

#[test]
fn body_text_of_utf8_is_the_text() {
    let (request, _) =
        parsed("POST /f HTTP/1.1\r\nContent-Length: 7\r\n\r\nh\u{e9}llo!".as_bytes()).unwrap();
    assert_eq!(request.body_text(), "h\u{e9}llo!");
    assert_eq!(request.body_text().as_bytes(), &request.body[..]);
}

#[test]
fn body_text_replaces_what_is_not_utf8() {
    let request = Request {
        method: Method::Post,
        path: b"/f".to_vec(),
        headers: Headers::new(),
        body: vec![b'a', 0xff, b'b'],
    };
    assert_eq!(request.body_text(), "a\u{fffd}b");
    assert_eq!(request.body, [b'a', 0xff, b'b']);
}

#[test]
fn body_text_of_no_body_is_empty() {
    let (request, _) = parsed(b"GET / HTTP/1.1\r\n\r\n").unwrap();
    assert_eq!(request.body_text(), "");
}

#[test]
fn parse_needs_only_the_bytes_of_the_request() {
    let bytes = b"POST /files/x HTTP/1.1\r\nA: b\r\nContent-Length: 3\r\n\r\nabcdef\r\n\r\n";
    let (whole, end) = parsed(bytes).unwrap();
    let (cut, cut_end) = parsed(&bytes[..end]).unwrap();
    assert_eq!(cut_end, end);
    assert_eq!(cut.method, whole.method);
    assert_eq!(cut.path, whole.path);
    assert_eq!(cut.body, whole.body);
    assert_eq!(cut.headers.get(b"A"), whole.headers.get(b"A"));
    assert_eq!(failure(&bytes[..end - 1]), (ConnectionError::UnexpectedEof, 0));
}
