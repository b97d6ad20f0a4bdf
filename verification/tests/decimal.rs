use http_engine::decimal::{push_decimal, read_length};

fn written(n: usize) -> String {
    let mut out = String::new();
    push_decimal(&mut out, n);
    out
}

#[test]
fn read_length_reads_digits() {
    assert_eq!(read_length(b"0"), Some(0));
    assert_eq!(read_length(b"5"), Some(5));
    assert_eq!(read_length(b"42"), Some(42));
    assert_eq!(read_length(b"1234567890"), Some(1234567890));
}

#[test]
fn read_length_takes_leading_zeros() {
    assert_eq!(read_length(b"005"), Some(5));
    assert_eq!(read_length(b"0000000000000000000000000000000000007"), Some(7));
    assert_eq!(read_length(b"00"), Some(0));
}

#[test]
fn read_length_takes_one_plus_sign() {
    assert_eq!(read_length(b"+5"), Some(5));
    assert_eq!(read_length(b"+0"), Some(0));
    assert_eq!(read_length(b"++5"), None);
    assert_eq!(read_length(b"+"), None);
    assert_eq!(read_length(b"5+"), None);
}

#[test]
fn read_length_refuses_what_is_no_number() {
    assert_eq!(read_length(b""), None);
    assert_eq!(read_length(b"-1"), None);
    assert_eq!(read_length(b"-0"), None);
    assert_eq!(read_length(b" 5"), None);
    assert_eq!(read_length(b"5 "), None);
    assert_eq!(read_length(b"5a"), None);
    assert_eq!(read_length(b"a5"), None);
    assert_eq!(read_length(b"1.5"), None);
    assert_eq!(read_length(b"0x10"), None);
    assert_eq!(read_length(b"/"), None);
    assert_eq!(read_length(b":"), None);
}

#[test]
fn read_length_stops_at_the_largest_usize() {
    let max = usize::MAX.to_string();
    assert_eq!(read_length(max.as_bytes()), Some(usize::MAX));
    let mut over = max.clone().into_bytes();
    let last = over.len() - 1;
    over[last] += 1;
    assert_eq!(read_length(&over), None);
    let mut longer = max.into_bytes();
    longer.push(b'0');
    assert_eq!(read_length(&longer), None);
    assert_eq!(read_length(b"99999999999999999999999999999999999999999"), None);
}

#[test]
fn read_length_agrees_with_the_standard_parser() {
    let samples: [&str; 12] =
        ["0", "7", "+7", "007", "", "+", "-7", "7 ", " 7", "12a", "4294967296", "65535"];
    for s in samples {
        assert_eq!(read_length(s.as_bytes()), s.parse::<usize>().ok(), "input {:?}", s);
    }
}

#[test]
fn push_decimal_writes_one_digit() {
    assert_eq!(written(0), "0");
    assert_eq!(written(7), "7");
    assert_eq!(written(9), "9");
}

#[test]
fn push_decimal_writes_many_digits() {
    assert_eq!(written(10), "10");
    assert_eq!(written(99), "99");
    assert_eq!(written(100), "100");
    assert_eq!(written(1234567890), "1234567890");
    assert_eq!(written(usize::MAX), usize::MAX.to_string());
}

#[test]
fn push_decimal_appends() {
    let mut out = String::from("Content-Length: ");
    push_decimal(&mut out, 305);
    assert_eq!(out, "Content-Length: 305");
}

#[test]
fn a_written_length_reads_back() {
    for n in [0usize, 1, 9, 10, 11, 99, 100, 101, 4096, 65535, 65536, 1 << 31, usize::MAX] {
        assert_eq!(read_length(written(n).as_bytes()), Some(n));
    }
}
