use http_engine::headers::{Header, Headers};

#[test]
fn new_headers_hold_nothing() {
    let headers = Headers::new();
    assert_eq!(headers.get(b"Host"), None);
    assert_eq!(headers.get(b""), None);
}

#[test]
fn get_returns_what_was_inserted() {
    let mut headers = Headers::new();
    headers.insert(b"Host".to_vec(), b"localhost".to_vec());
    headers.insert(b"Accept".to_vec(), b"*/*".to_vec());
    assert_eq!(headers.get(b"Host"), Some(&b"localhost"[..]));
    assert_eq!(headers.get(b"Accept"), Some(&b"*/*"[..]));
    assert_eq!(headers.get(b"User-Agent"), None);
}

#[test]
fn the_last_field_of_a_name_wins() {
    let mut headers = Headers::new();
    headers.insert(b"X".to_vec(), b"1".to_vec());
    headers.insert(b"Y".to_vec(), b"other".to_vec());
    headers.insert(b"X".to_vec(), b"2".to_vec());
    assert_eq!(headers.get(b"X"), Some(&b"2"[..]));
    assert_eq!(headers.get(b"Y"), Some(&b"other"[..]));
    headers.insert(b"X".to_vec(), b"3".to_vec());
    assert_eq!(headers.get(b"X"), Some(&b"3"[..]));
}

#[test]
fn names_are_looked_up_by_their_exact_bytes() {
    let mut headers = Headers::new();
    headers.insert(b"Content-Length".to_vec(), b"5".to_vec());
    assert_eq!(headers.get(b"content-length"), None);
    assert_eq!(headers.get(b"Content-Length "), None);
    assert_eq!(headers.get(b"Content-Lengt"), None);
    assert_eq!(headers.get(b"Content-Length"), Some(&b"5"[..]));
}

#[test]
fn empty_names_and_values_are_fields_too() {
    let mut headers = Headers::new();
    headers.insert(Vec::new(), b"v".to_vec());
    headers.insert(b"Empty".to_vec(), Vec::new());
    assert_eq!(headers.get(b""), Some(&b"v"[..]));
    assert_eq!(headers.get(b"Empty"), Some(&b""[..]));
}

#[test]
fn a_header_holds_its_name_and_value() {
    let header = Header { name: b"A".to_vec(), value: b"b".to_vec() };
    assert_eq!(header.clone(), header);
    assert_eq!(header.name, b"A");
    assert_eq!(header.value, b"b");
}
