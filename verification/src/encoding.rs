//! Content negotiation: whether a client takes gzip, and the compressor.

use vstd::prelude::*;
use vstd::slice::slice_subrange;
use crate::bytes::{same_bytes, text, text_bytes, trim, trimmed, COMMA};
use crate::request::Request;

verus! {

/// The gzip stream that the compressor makes of `data`, or `None` where it
/// reports an error.
pub uninterp spec fn gzip_encoding(data: Seq<u8>) -> Option<Seq<u8>>;

/// Compresses `data` with `flate2::write::GzEncoder`: an encoder made by
/// `GzEncoder::new` over an empty `Vec` at `Compression::default()`, fed by
/// `write_all` and closed by `finish`. The stream depends on `data` alone:
/// the header that flate2 writes holds no time and no file name. An error of
/// either call is handed on as `None`.
#[verifier::external_body]
pub(crate) fn gzip(data: &[u8]) -> (stream: Option<Vec<u8>>)
    ensures
        match stream {
            Some(bytes) => gzip_encoding(data@) == Some(bytes@),
            None => gzip_encoding(data@) is None,
        },
{
    let mut encoder = flate2::write::GzEncoder::new(Vec::new(), flate2::Compression::default());
    std::io::Write::write_all(&mut encoder, data).ok()?;
    encoder.finish().ok()
}

/// The bytes of `value` from `from` to `to` are one element of the list
/// that `value` spells: they hold no comma, and on either side of them is a
/// comma or an end of `value`.
pub open spec fn element(value: Seq<u8>, from: int, to: int) -> bool {
    &&& 0 <= from <= to <= value.len()
    &&& (from == 0 || value[from - 1] == COMMA)
    &&& (to == value.len() || value[to] == COMMA)
    &&& forall|k: int| from <= k < to ==> #[trigger] value[k] != COMMA
}

/// `token` is a member of the list that `value` spells: some element of
/// `value`, without the whitespace at its ends, is `token`.
pub open spec fn lists(value: Seq<u8>, token: Seq<u8>) -> bool {
    exists|from: int, to: int| #[trigger]
        element(value, from, to) && trim(value.subrange(from, to)) == token
}

/// The headers ask for gzip: there is an `Accept-Encoding` field, and
/// `gzip` is a member of the list that its value spells.
pub open spec fn accepts_gzip(headers: Map<Seq<u8>, Seq<u8>>) -> bool {
    &&& headers.contains_key(text("Accept-Encoding"))
    &&& lists(headers[text("Accept-Encoding")], text("gzip"))
}

/// Elements do not overlap: an element that ends at or behind the start of
/// another one is that one.
proof fn lemma_element_is_next(value: Seq<u8>, start: int, end: int, from: int, to: int)
    requires
        element(value, start, end),
        element(value, from, to),
        start <= to,
    ensures
        to < end ==> false,
        to == end ==> from == start,
{
    if to < end {
        assert(value[to] == COMMA);
    }
    if to == end {
        if from < start {
            assert(value[start - 1] == COMMA);
        }
        if from > start {
            assert(value[from - 1] == COMMA);
        }
    }
}

/// A value without comma is a list of one element: the value itself.
pub proof fn lemma_list_of_one(value: Seq<u8>, token: Seq<u8>)
    requires
        forall|k: int| 0 <= k < value.len() ==> #[trigger] value[k] != COMMA,
    ensures
        lists(value, token) == (trim(value) == token),
{
    let n = value.len() as int;
    assert(value.subrange(0, n) =~= value);
    assert(element(value, 0, n));
    if lists(value, token) {
        let (from, to) = choose|from: int, to: int| #[trigger]
            element(value, from, to) && trim(value.subrange(from, to)) == token;
        lemma_element_is_next(value, 0, n, from, to);
    }
}

/// Tells whether `token` is a member of the comma-separated list `value`.
pub fn list_has(value: &[u8], token: &[u8]) -> (yes: bool)
    ensures
        yes == lists(value@, token@),
{
    let n = value.len();
    let mut start: usize = 0;
    let mut i: usize = 0;
    while i < n
        invariant
            n == value@.len(),
            start <= i <= n,
            start == 0 || value@[start - 1] == COMMA,
            forall|k: int| start <= k < i ==> #[trigger] value@[k] != COMMA,
            forall|from: int, to: int|
                #[trigger] element(value@, from, to) && to < start ==> trim(
                    value@.subrange(from, to),
                ) != token@,
        decreases n - i,
    {
        if value[i] == COMMA {
            assert(element(value@, start as int, i as int));
            if same_bytes(trimmed(slice_subrange(value, start, i)), token) {
                return true;
            }
            assert forall|from: int, to: int|
                #[trigger] element(value@, from, to) && to < i + 1 implies trim(
                value@.subrange(from, to),
            ) != token@ by {
                if start <= to {
                    lemma_element_is_next(value@, start as int, i as int, from, to);
                }
            }
            start = i + 1;
        }
        i = i + 1;
    }
    assert(element(value@, start as int, n as int));
    let yes = same_bytes(trimmed(slice_subrange(value, start, n)), token);
    assert forall|from: int, to: int| #[trigger]
        element(value@, from, to) && trim(value@.subrange(from, to)) == token@ implies yes by {
        if start <= to {
            lemma_element_is_next(value@, start as int, n as int, from, to);
        }
    }
    yes
}

/// Tells whether the client that sent `request` takes a gzip body.
pub fn supports_gzip(request: &Request) -> (yes: bool)
    ensures
        yes == accepts_gzip(request@.headers),
{
    match request.headers.get(text_bytes("Accept-Encoding")) {
        Some(encodings) => list_has(encodings, text_bytes("gzip")),
        None => false,
    }
}

} // verus!
