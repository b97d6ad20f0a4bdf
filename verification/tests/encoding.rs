use http_engine::encoding::{list_has, supports_gzip};
use http_engine::headers::Headers;
use http_engine::request::{Method, Request};

fn request_with(name: &[u8], value: &[u8]) -> Request {
    let mut headers = Headers::new();
    headers.insert(name.to_vec(), value.to_vec());
    Request { method: Method::Get, path: b"/".to_vec(), headers, body: Vec::new() }
}

#[test]
fn list_has_finds_a_member() {
    assert!(list_has(b"gzip", b"gzip"));
    assert!(list_has(b"deflate,gzip,br", b"gzip"));
    assert!(list_has(b"deflate,gzip,br", b"deflate"));
    assert!(list_has(b"deflate,gzip,br", b"br"));
    assert!(list_has(b"a,b,a", b"a"));
}

#[test]
fn list_has_strips_the_whitespace_of_an_element() {
    assert!(list_has(b" gzip ", b"gzip"));
    assert!(list_has(b"deflate, gzip , br", b"gzip"));
    assert!(list_has(b"deflate,\tgzip\r\n,br", b"gzip"));
    assert!(list_has(b"x ,\x0b\x0cgzip", b"gzip"));
    assert!(list_has(b"a b , c", b"a b"));
}

#[test]
fn list_has_takes_an_element_whole() {
    assert!(!list_has(b"notgzip", b"gzip"));
    assert!(!list_has(b"xgzipx", b"gzip"));
    assert!(!list_has(b"not-gzip", b"gzip"));
    assert!(!list_has(b"ggzip", b"gzip"));
    assert!(!list_has(b"gzip;q=0.5", b"gzip"));
    assert!(!list_has(b"gzip gzip", b"gzip"));
    assert!(!list_has(b"g zip", b"gzip"));
    assert!(!list_has(b"gzi,p", b"gzip"));
    assert!(!list_has(b"deflate, br", b"gzip"));
}

#[test]
fn list_has_compares_exactly() {
    assert!(!list_has(b"GZIP", b"gzip"));
    assert!(!list_has(b"Gzip", b"gzip"));
    assert!(!list_has(b"gzip", b"GZIP"));
    assert!(!list_has(b"gzip\x00", b"gzip"));
}

#[test]
fn list_has_knows_empty_elements() {
    assert!(list_has(b"", b""));
    assert!(list_has(b"a,,b", b""));
    assert!(list_has(b"a, ,b", b""));
    assert!(list_has(b"a,", b""));
    assert!(list_has(b",a", b""));
    assert!(!list_has(b"a,b", b""));
    assert!(!list_has(b"", b"gzip"));
    assert!(list_has(b",gzip,", b"gzip"));
    assert!(list_has(b",,,gzip", b"gzip"));
}

#[test]
fn list_has_looks_for_a_token_without_comma_or_outer_whitespace() {
    assert!(!list_has(b"a,b", b"a,b"));
    assert!(!list_has(b" gzip", b" gzip"));
    assert!(!list_has(b"gzip ", b"gzip "));
}

#[test]
fn gzip_is_supported_where_the_header_lists_it() {
    assert!(supports_gzip(&request_with(b"Accept-Encoding", b"gzip")));
    assert!(supports_gzip(&request_with(b"Accept-Encoding", b"deflate, gzip, br")));
    assert!(supports_gzip(&request_with(b"Accept-Encoding", b"gzip,deflate")));
    assert!(supports_gzip(&request_with(b"Accept-Encoding", b"br,  gzip")));
    assert!(supports_gzip(&request_with(b"Accept-Encoding", b" gzip ")));
}

#[test]
fn gzip_inside_another_token_is_not_supported() {
    assert!(!supports_gzip(&request_with(b"Accept-Encoding", b"notgzip")));
    assert!(!supports_gzip(&request_with(b"Accept-Encoding", b"xgzipx")));
    assert!(!supports_gzip(&request_with(b"Accept-Encoding", b"not-gzip")));
    assert!(!supports_gzip(&request_with(b"Accept-Encoding", b"ggzip")));
    assert!(!supports_gzip(&request_with(b"Accept-Encoding", b"gzip;q=0.5")));
    assert!(!supports_gzip(&request_with(b"Accept-Encoding", b"deflate, x-gzip")));
}

#[test]
fn gzip_is_not_supported_where_the_header_does_not_list_it() {
    assert!(!supports_gzip(&request_with(b"Accept-Encoding", b"")));
    assert!(!supports_gzip(&request_with(b"Accept-Encoding", b"deflate, br")));
    assert!(!supports_gzip(&request_with(b"Accept-Encoding", b"gzi")));
    assert!(!supports_gzip(&request_with(b"Accept-Encoding", b"g zip")));
    assert!(!supports_gzip(&request_with(b"Accept-Encoding", b"GZIP")));
    assert!(!supports_gzip(&request_with(b"Accept-Encoding", b"Gzip")));
}

#[test]
fn gzip_is_not_supported_without_the_header() {
    let request = Request {
        method: Method::Get,
        path: b"/".to_vec(),
        headers: Headers::new(),
        body: b"gzip".to_vec(),
    };
    assert!(!supports_gzip(&request));
    assert!(!supports_gzip(&request_with(b"accept-encoding", b"gzip")));
    assert!(!supports_gzip(&request_with(b"Accept", b"gzip")));
    assert!(!supports_gzip(&request_with(b"Content-Encoding", b"gzip")));
}

#[test]
fn the_last_accept_encoding_decides() {
    let mut headers = Headers::new();
    headers.insert(b"Accept-Encoding".to_vec(), b"gzip".to_vec());
    headers.insert(b"Accept-Encoding".to_vec(), b"identity".to_vec());
    let request = Request { method: Method::Get, path: b"/".to_vec(), headers, body: Vec::new() };
    assert!(!supports_gzip(&request));
}
