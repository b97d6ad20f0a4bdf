//! Responses, and their wire format: a head of text lines, a blank line, and
//! the body as it is.

use vstd::prelude::*;
use vstd::slice::slice_to_vec;
use vstd::string::{StringExecFns, StringSliceAdditionalSpecFns};
use vstd::utf8::encode_utf8;
use crate::bytes::same_bytes;
use crate::decimal::{decimal_text, push_decimal};
use crate::encoding::{gzip, gzip_encoding};

verus! {

/// One response. The body holds the bytes that are sent: where the response
/// names a content encoding, they are the encoded ones.
#[derive(Debug, Clone, PartialEq, Eq)]
pub struct Response {
    /// The status line: version, code and reason.
    pub status_line: String,
    /// The media type of the body.
    pub content_type: String,
    /// The encoding of the body, where it was encoded.
    pub content_encoding: Option<String>,
    /// The body.
    pub body: Vec<u8>,
}

/// What a `Response` stands for.
pub struct ResponseView {
    pub status_line: Seq<char>,
    pub content_type: Seq<char>,
    pub content_encoding: Option<Seq<char>>,
    pub body: Seq<u8>,
}

impl View for Response {
    type V = ResponseView;

    open spec fn view(&self) -> ResponseView {
        ResponseView {
            status_line: self.status_line@,
            content_type: self.content_type@,
            content_encoding: match self.content_encoding {
                Some(encoding) => Some(encoding@),
                None => None,
            },
            body: self.body@,
        }
    }
}

/// One header line: the name, a colon and a space, the value, and the line
/// terminator.
pub open spec fn header_line(name: Seq<char>, value: Seq<char>) -> Seq<char> {
    name + ": "@ + value + "\r\n"@
}

impl ResponseView {
    /// The line that names the content encoding, where there is one.
    pub open spec fn encoding_line(self) -> Seq<char> {
        match self.content_encoding {
            Some(encoding) => header_line("Content-Encoding"@, encoding),
            None => Seq::empty(),
        }
    }

    /// The head: the status line, the content type, the length of the body
    /// as it is sent, the content encoding if there is one, and a blank line.
    pub open spec fn head(self) -> Seq<char> {
        self.status_line + "\r\n"@ + header_line("Content-Type"@, self.content_type)
            + header_line("Content-Length"@, decimal_text(self.body.len()))
            + self.encoding_line() + "\r\n"@
    }

    /// The bytes that go to the peer: the head as text, then the body.
    pub open spec fn wire(self) -> Seq<u8> {
        encode_utf8(self.head()) + self.body
    }
}

/// The response whose body is sent as it is.
pub open spec fn plain(status_line: Seq<char>, content_type: Seq<char>, body: Seq<u8>)
    -> ResponseView {
    ResponseView { status_line, content_type, content_encoding: None, body }
}

/// The response to a client that takes gzip, given what the compressor made
/// of the body: its stream, named as gzip; or, where it made none, the body
/// as it is.
pub open spec fn compressed(
    status_line: Seq<char>,
    content_type: Seq<char>,
    body: Seq<u8>,
    stream: Option<Seq<u8>>,
) -> ResponseView {
    match stream {
        Some(bytes) => ResponseView {
            status_line,
            content_type,
            content_encoding: Some("gzip"@),
            body: bytes,
        },
        None => plain(status_line, content_type, body),
    }
}

/// The response in the encoding asked for. Gzip is the one encoding there
/// is; with any other the body is sent as it is.
pub open spec fn encoded(
    status_line: Seq<char>,
    content_type: Seq<char>,
    body: Seq<u8>,
    encoding: Seq<char>,
) -> ResponseView {
    if encoding == "gzip"@ {
        compressed(status_line, content_type, body, gzip_encoding(body))
    } else {
        plain(status_line, content_type, body)
    }
}

/// Tells whether `a` and `b` are the same text.
pub fn same_text(a: &str, b: &str) -> (yes: bool)
    ensures
        yes == (a@ == b@),
{
    proof {
        vstd::utf8::encode_utf8_decode_utf8(a@);
        vstd::utf8::encode_utf8_decode_utf8(b@);
    }
    same_bytes(a.as_bytes(), b.as_bytes())
}

/// Appends the header line of `name` and `value` to `head`.
fn push_header(head: &mut String, name: &str, value: &str)
    ensures
        final(head)@ == old(head)@ + header_line(name@, value@),
{
    head.append(name);
    head.append(": ");
    head.append(value);
    head.append("\r\n");
    assert(head@ =~= old(head)@ + header_line(name@, value@));
}

impl Response {
    /// A response with the body `body`, not encoded.
    pub fn new(status_line: &str, content_type: &str, body: &[u8]) -> (response: Response)
        ensures
            response@ == plain(status_line@, content_type@, body@),
    {
        Response {
            status_line: status_line.to_owned(),
            content_type: content_type.to_owned(),
            content_encoding: None,
            body: slice_to_vec(body),
        }
    }

    /// The response to a client that takes gzip, where `stream` is what the
    /// compressor made of `body`.
    pub fn with_compressed(
        status_line: &str,
        content_type: &str,
        body: &[u8],
        stream: Option<Vec<u8>>,
    ) -> (response: Response)
        ensures
            response@ == compressed(
                status_line@,
                content_type@,
                body@,
                match stream {
                    Some(bytes) => Some(bytes@),
                    None => None,
                },
            ),
    {
        match stream {
            Some(bytes) => Response {
                status_line: status_line.to_owned(),
                content_type: content_type.to_owned(),
                content_encoding: Some("gzip".to_owned()),
                body: bytes,
            },
            None => Response::new(status_line, content_type, body),
        }
    }

    /// A response with the body `body` in the encoding `encoding`.
    pub fn with_encoding(status_line: &str, content_type: &str, body: &[u8], encoding: &str) -> (response:
        Response)
        ensures
            response@ == encoded(status_line@, content_type@, body@, encoding@),
    {
        if same_text(encoding, "gzip") {
            Response::with_compressed(status_line, content_type, body, gzip(body))
        } else {
            Response::new(status_line, content_type, body)
        }
    }

    /// The head of the response, as it goes to the peer before the body.
    pub fn to_string(&self) -> (head: String)
        ensures
            head@ == self@.head(),
    {
        let mut length = String::new();
        push_decimal(&mut length, self.body.len());
        assert(length@ =~= decimal_text(self.body@.len()));
        let mut head = self.status_line.clone();
        head.append("\r\n");
        push_header(&mut head, "Content-Type", self.content_type.as_str());
        push_header(&mut head, "Content-Length", length.as_str());
        match &self.content_encoding {
            Some(encoding) => {
                push_header(&mut head, "Content-Encoding", encoding.as_str());
            },
            None => {
                assert(head@ + Seq::<char>::empty() =~= head@);
            },
        }
        head.append("\r\n");
        head
    }

    /// The response in wire format.
    pub fn to_bytes(&self) -> (wire: Vec<u8>)
        ensures
            wire@ == self@.wire(),
    {
        let head = self.to_string();
        let mut wire = slice_to_vec(head.as_str().as_bytes());
        let n = self.body.len();
        let mut i: usize = 0;
        while i < n
            invariant
                n == self.body@.len(),
                i <= n,
                wire@ == encode_utf8(self@.head()) + self.body@.take(i as int),
            decreases n - i,
        {
            wire.push(self.body[i]);
            assert(self.body@.take(i + 1) =~= self.body@.take(i as int).push(self.body@[i as int]));
            i = i + 1;
        }
        assert(self.body@.take(n as int) =~= self.body@);
        wire
    }
}

} // verus!
