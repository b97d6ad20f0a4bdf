//! A response frames its own body: read the way this engine reads requests,
//! its head ends where its body starts, and the length that it declares is
//! the length of the body.

use vstd::prelude::*;
use vstd::utf8::encode_utf8;
use crate::bytes::{is_whitespace, text, COLON, CR};
use crate::decimal::{decimal_text, is_digit, lemma_written_length_reads_back};
use crate::headers::{header_map, lemma_header_map_push};
use crate::request::{
    declared_length, header_block, lemma_header_block_end, lemma_header_block_line,
    lemma_header_of_field, lemma_header_of_name, line_fields, preceded_by, separator, RequestView,
};
use crate::response::{header_line, ResponseView};
use crate::router::{after_read, after_write, dispatch, ActionView};
use crate::wire::{crlf, lemma_line_end_here, line_end};

verus! {

/// The text, as bytes, holds no carriage return.
pub open spec fn one_line(t: Seq<char>) -> bool {
    forall|i: int| 0 <= i < encode_utf8(t).len() ==> #[trigger] encode_utf8(t)[i] != CR
}

/// The bytes of two texts in a row are the bytes of the one, then those of
/// the other.
pub proof fn lemma_encode_concat(a: Seq<char>, b: Seq<char>)
    ensures
        encode_utf8(a + b) == encode_utf8(a) + encode_utf8(b),
    decreases a.len(),
{
    if a.len() == 0 {
        assert(a + b =~= b);
        assert(encode_utf8(a) + encode_utf8(b) =~= encode_utf8(b));
    } else {
        lemma_encode_concat(a.drop_first(), b);
        assert((a + b).drop_first() =~= a.drop_first() + b);
        assert((a + b)[0] == a[0]);
        assert(encode_utf8(a + b) =~= encode_utf8(a) + encode_utf8(b));
    }
}

/// The bytes of one header line.
spec fn field_bytes(name: Seq<u8>, value: Seq<u8>) -> Seq<u8> {
    name + separator() + value + crlf()
}

/// A name that a header line can start with.
spec fn field_name(name: Seq<u8>) -> bool {
    &&& name.len() > 0
    &&& !is_whitespace(name[0])
    &&& forall|i: int| 0 <= i < name.len() ==> #[trigger] name[i] != COLON && name[i] != CR
}

/// The bytes of the separator and of the line terminator.
proof fn lemma_marks()
    ensures
        encode_utf8(": "@) == separator(),
        encode_utf8("\r\n"@) == crlf(),
{
    reveal_strlit(": ");
    reveal_strlit("\r\n");
    vstd::string::is_ascii_spec_bytes(": ");
    vstd::string::is_ascii_spec_bytes("\r\n");
    assert(text(": ") =~= separator());
    assert(text("\r\n") =~= crlf());
}

/// The names of the header lines of a response can start a header line,
/// and are apart.
proof fn lemma_names()
    ensures
        field_name(text("Content-Type")),
        field_name(text("Content-Length")),
        field_name(text("Content-Encoding")),
        text("Content-Type") != text("Content-Length"),
        text("Content-Encoding") != text("Content-Length"),
{
    reveal_strlit("Content-Type");
    reveal_strlit("Content-Length");
    reveal_strlit("Content-Encoding");
    vstd::string::is_ascii_spec_bytes("Content-Type");
    vstd::string::is_ascii_spec_bytes("Content-Length");
    vstd::string::is_ascii_spec_bytes("Content-Encoding");
    assert(text("Content-Type").len() == 12);
    assert(text("Content-Length").len() == 14);
    assert(text("Content-Encoding").len() == 16);
}

/// The bytes of a header line of text.
proof fn lemma_header_line_bytes(name: Seq<char>, value: Seq<char>)
    ensures
        encode_utf8(header_line(name, value)) == field_bytes(encode_utf8(name), encode_utf8(value)),
{
    lemma_marks();
    lemma_encode_concat(name, ": "@);
    lemma_encode_concat(name + ": "@, value);
    lemma_encode_concat(name + ": "@ + value, "\r\n"@);
}

/// Where the bytes of a header line lie at `pos`, the header block from
/// `pos` on is the fields of that line before the block behind it.
proof fn lemma_field_in_block(buf: Seq<u8>, pos: int, name: Seq<u8>, value: Seq<u8>)
    requires
        0 <= pos,
        field_name(name),
        forall|i: int| 0 <= i < value.len() ==> #[trigger] value[i] != CR,
        pos + field_bytes(name, value).len() <= buf.len(),
        buf.subrange(pos, pos + field_bytes(name, value).len()) == field_bytes(name, value),
    ensures
        header_block(buf, pos) == preceded_by(
            line_fields(name + separator() + value),
            header_block(buf, pos + field_bytes(name, value).len()),
        ),
{
    let line = name + separator() + value;
    let bytes = field_bytes(name, value);
    let width = line.len() as int;
    let end = pos + width;
    assert(bytes.len() == width + 2);
    assert forall|j: int| pos <= j < end + 2 implies buf[j] == bytes[j - pos] by {
        assert(buf.subrange(pos, pos + bytes.len())[j - pos] == buf[j]);
    }
    assert(bytes[width] == CR);
    assert(bytes[width + 1] == crate::bytes::LF);
    assert forall|j: int| pos <= j < end implies #[trigger] buf[j] != CR by {
        let k = j - pos;
        assert(buf[j] == bytes[k]);
        assert(bytes[k] == line[k]);
        if k < name.len() {
            assert(line[k] == name[k]);
        } else if k < name.len() + 2 {
            assert(line[k] == separator()[k - name.len()]);
        } else {
            assert(line[k] == value[k - name.len() - 2]);
        }
    }
    lemma_header_block_line(buf, pos, end);
    assert(buf.subrange(pos, end) =~= line);
}

/// The bytes of a header block: its lines, then a blank line.
spec fn block_bytes(lines: Seq<(Seq<u8>, Seq<u8>)>) -> Seq<u8>
    decreases lines.len(),
{
    if lines.len() == 0 {
        crlf()
    } else {
        field_bytes(lines[0].0, lines[0].1) + block_bytes(lines.drop_first())
    }
}

/// The fields that are read from the lines of a header block.
spec fn block_fields(lines: Seq<(Seq<u8>, Seq<u8>)>) -> Seq<(Seq<u8>, Seq<u8>)>
    decreases lines.len(),
{
    if lines.len() == 0 {
        Seq::empty()
    } else {
        line_fields(lines[0].0 + separator() + lines[0].1) + block_fields(lines.drop_first())
    }
}

/// Each line has a name that a header line can start with, and a value
/// without carriage return.
spec fn writable(lines: Seq<(Seq<u8>, Seq<u8>)>) -> bool {
    forall|k: int|
        0 <= k < lines.len() ==> {
            &&& field_name(#[trigger] lines[k].0)
            &&& forall|i: int| 0 <= i < lines[k].1.len() ==> #[trigger] lines[k].1[i] != CR
        }
}

/// A header block that was written is read back: where its bytes lie at
/// `pos`, the block from `pos` on holds the fields of its lines and ends
/// behind its blank line.
proof fn lemma_block(buf: Seq<u8>, pos: int, lines: Seq<(Seq<u8>, Seq<u8>)>)
    requires
        0 <= pos,
        writable(lines),
        pos + block_bytes(lines).len() <= buf.len(),
        buf.subrange(pos, pos + block_bytes(lines).len()) == block_bytes(lines),
    ensures
        header_block(buf, pos) == Some((block_fields(lines), pos + block_bytes(lines).len())),
    decreases lines.len(),
{
    let bytes = block_bytes(lines);
    if lines.len() == 0 {
        assert(buf[pos] == buf.subrange(pos, pos + bytes.len())[0]);
        assert(buf[pos + 1] == buf.subrange(pos, pos + bytes.len())[1]);
        lemma_header_block_end(buf, pos);
    } else {
        let name = lines[0].0;
        let value = lines[0].1;
        let first = field_bytes(name, value);
        let rest = lines.drop_first();
        let next = pos + first.len();
        assert(field_name(name));
        assert(buf.subrange(pos, next) =~= first) by {
            assert(buf.subrange(pos, pos + bytes.len()).subrange(0, first.len() as int)
                =~= buf.subrange(pos, next));
        }
        assert(buf.subrange(next, next + block_bytes(rest).len()) =~= block_bytes(rest)) by {
            assert(buf.subrange(pos, pos + bytes.len()).subrange(
                first.len() as int,
                bytes.len() as int,
            ) =~= buf.subrange(next, next + block_bytes(rest).len()));
        }
        assert(writable(rest)) by {
            assert forall|k: int| 0 <= k < rest.len() implies {
                &&& field_name(#[trigger] rest[k].0)
                &&& forall|i: int| 0 <= i < rest[k].1.len() ==> #[trigger] rest[k].1[i] != CR
            } by {
                assert(rest[k] == lines[k + 1]);
                assert(field_name(lines[k + 1].0));
            }
        }
        lemma_field_in_block(buf, pos, name, value);
        lemma_block(buf, next, rest);
    }
}

/// The header lines of a response.
spec fn response_lines(response: ResponseView) -> Seq<(Seq<u8>, Seq<u8>)> {
    let fixed = seq![
        (text("Content-Type"), encode_utf8(response.content_type)),
        (text("Content-Length"), encode_utf8(decimal_text(response.body.len()))),
    ];
    match response.content_encoding {
        Some(encoding) => fixed.push((text("Content-Encoding"), encode_utf8(encoding))),
        None => fixed,
    }
}

/// The head of a response, in bytes: the status line and the header block.
proof fn lemma_head_bytes(response: ResponseView)
    ensures
        encode_utf8(response.head()) == encode_utf8(response.status_line) + crlf()
            + block_bytes(response_lines(response)),
{
    lemma_marks();
    let length = decimal_text(response.body.len());
    let media_line = header_line("Content-Type"@, response.content_type);
    let length_line = header_line("Content-Length"@, length);
    let first = response.status_line + "\r\n"@;
    let second = first + media_line;
    let third = second + length_line;
    let fourth = third + response.encoding_line();
    lemma_encode_concat(response.status_line, "\r\n"@);
    lemma_encode_concat(first, media_line);
    lemma_encode_concat(second, length_line);
    lemma_encode_concat(third, response.encoding_line());
    lemma_encode_concat(fourth, "\r\n"@);
    lemma_header_line_bytes("Content-Type"@, response.content_type);
    lemma_header_line_bytes("Content-Length"@, length);
    let lines = response_lines(response);
    let media_field = field_bytes(lines[0].0, lines[0].1);
    let length_field = field_bytes(lines[1].0, lines[1].1);
    assert(encode_utf8(media_line) == media_field);
    assert(encode_utf8(length_line) == length_field);
    let after_media = lines.drop_first();
    let after_length = after_media.drop_first();
    assert(after_media[0] == lines[1]);
    assert(block_bytes(lines) == media_field + block_bytes(after_media));
    assert(block_bytes(after_media) == length_field + block_bytes(after_length));
    match response.content_encoding {
        Some(encoding) => {
            lemma_header_line_bytes("Content-Encoding"@, encoding);
            assert(after_length[0] == lines[2]);
            assert(after_length.drop_first().len() == 0);
            assert(block_bytes(after_length.drop_first()) == crlf());
            assert(block_bytes(after_length) == encode_utf8(response.encoding_line()) + crlf());
        },
        None => {
            assert(after_length.len() == 0);
            assert(encode_utf8(response.encoding_line()) =~= Seq::<u8>::empty());
            assert(block_bytes(after_length) =~= encode_utf8(response.encoding_line()) + crlf());
        },
    }
    let tail = encode_utf8(response.encoding_line()) + crlf();
    assert(encode_utf8(response.head()) == encode_utf8(response.status_line) + crlf()
        + media_field + length_field + encode_utf8(response.encoding_line()) + crlf());
    assert(encode_utf8(response.status_line) + crlf() + media_field + length_field
        + encode_utf8(response.encoding_line()) + crlf() =~= encode_utf8(response.status_line)
        + crlf() + (media_field + (length_field + tail)));
}

/// The fields of the header lines of a response declare the length of its
/// body.
proof fn lemma_declared(response: ResponseView)
    requires
        response.body.len() <= usize::MAX,
    ensures
        declared_length(header_map(block_fields(response_lines(response))))
            == response.body.len(),
{
    lemma_names();
    let none = Seq::<(Seq<u8>, Seq<u8>)>::empty();
    let lines = response_lines(response);
    let digits = encode_utf8(decimal_text(response.body.len()));
    let length_name = text("Content-Length");
    lemma_written_length_reads_back(response.body.len());
    let after_media = lines.drop_first();
    let after_length = after_media.drop_first();
    assert(after_media[0] == lines[1]);
    let media_fields = line_fields(lines[0].0 + separator() + lines[0].1);
    let length_fields = line_fields(length_name + separator() + digits);
    lemma_header_of_name(lines[0].0, lines[0].1);
    assert(is_digit(digits.last()));
    lemma_header_of_field(length_name, digits);
    assert(length_fields == seq![(length_name, digits)]);
    let encoding_fields = block_fields(after_length);
    let fields = block_fields(lines);
    assert(lines[1] == (length_name, digits));
    assert(block_fields(after_media) == length_fields + encoding_fields);
    assert(fields == media_fields + (length_fields + encoding_fields));
    let up_to_length = media_fields.push((length_name, digits));
    lemma_header_map_push(media_fields, (length_name, digits));
    match response.content_encoding {
        Some(encoding) => {
            assert(after_length[0] == lines[2]);
            assert(after_length.drop_first().len() == 0);
            assert(block_fields(after_length.drop_first()) == none);
            let found = line_fields(lines[2].0 + separator() + lines[2].1);
            assert(encoding_fields =~= found);
            lemma_header_of_name(lines[2].0, lines[2].1);
            if found.len() == 0 {
                assert(fields =~= up_to_length);
            } else {
                assert(found =~= seq![found[0]]);
                assert(found[0].0 == text("Content-Encoding"));
                assert(fields =~= up_to_length.push(found[0]));
                lemma_header_map_push(up_to_length, found[0]);
            }
        },
        None => {
            assert(after_length.len() == 0);
            assert(fields =~= up_to_length);
        },
    }
    assert(header_map(fields).contains_key(length_name));
    assert(header_map(fields)[length_name] == digits);
}

impl ResponseView {
    /// The status line, the content type and the content encoding are one
    /// line each.
    pub open spec fn lines_are_whole(self) -> bool {
        &&& one_line(self.status_line)
        &&& one_line(self.content_type)
        &&& self.content_encoding matches Some(encoding) ==> one_line(encoding)
    }
}

/// A response frames its own body. Read line by line, the bytes of a
/// response hold the status line, then a header block that ends where the
/// head ends; the length that the fields of that block declare is the length
/// of the body, and the bytes behind the head are the body and nothing else.
/// This holds of every response whose status line, content type and content
/// encoding hold no carriage return.
pub proof fn lemma_response_frames_its_body(response: ResponseView)
    requires
        response.lines_are_whole(),
        response.body.len() <= usize::MAX,
    ensures
        ({
            let wire = response.wire();
            let status_end = encode_utf8(response.status_line).len() as int;
            let head_end = encode_utf8(response.head()).len() as int;
            &&& line_end(wire, 0) == Some(status_end)
            &&& wire.subrange(0, status_end) == encode_utf8(response.status_line)
            &&& header_block(wire, status_end + 2) matches Some((fields, body_start))
            &&& body_start == head_end
            &&& declared_length(header_map(fields)) == response.body.len()
            &&& wire.subrange(body_start, body_start + response.body.len()) == response.body
            &&& wire.len() == body_start + response.body.len()
        }),
{
    let status = encode_utf8(response.status_line);
    let lines = response_lines(response);
    let block = block_bytes(lines);
    let wire = response.wire();
    let status_end = status.len() as int;
    let block_at = status_end + 2;
    let body_at = block_at + block.len();
    lemma_head_bytes(response);
    lemma_declared(response);
    assert(wire == status + crlf() + block + response.body);
    assert(wire.subrange(0, status_end) =~= status);
    assert(wire.subrange(status_end, block_at) =~= crlf());
    assert(wire.subrange(block_at, body_at) =~= block);
    assert(wire.subrange(body_at, body_at + response.body.len()) =~= response.body);

    assert(wire[status_end] == wire.subrange(status_end, block_at)[0]);
    assert(wire[status_end + 1] == wire.subrange(status_end, block_at)[1]);
    assert forall|j: int| 0 <= j < status_end implies #[trigger] wire[j] != CR by {
        assert(wire[j] == status[j]);
    }
    lemma_line_end_here(wire, 0, status_end);

    assert(writable(lines)) by {
        lemma_names();
        lemma_written_length_reads_back(response.body.len());
        let digits = encode_utf8(decimal_text(response.body.len()));
        assert forall|i: int| 0 <= i < digits.len() implies #[trigger] digits[i] != CR by {
            assert(is_digit(digits[i]));
        }
    }
    lemma_block(wire, block_at, lines);
}

/// The status lines of the engine are one line each.
proof fn lemma_status_lines()
    ensures
        one_line("HTTP/1.1 200 OK"@),
        one_line("HTTP/1.1 201 Created"@),
        one_line("HTTP/1.1 400 Bad Request"@),
        one_line("HTTP/1.1 404 Not Found"@),
        one_line("HTTP/1.1 500 Internal Server Error"@),
{
    reveal_strlit("HTTP/1.1 200 OK");
    reveal_strlit("HTTP/1.1 201 Created");
    reveal_strlit("HTTP/1.1 400 Bad Request");
    reveal_strlit("HTTP/1.1 404 Not Found");
    reveal_strlit("HTTP/1.1 500 Internal Server Error");
    vstd::string::is_ascii_spec_bytes("HTTP/1.1 200 OK");
    vstd::string::is_ascii_spec_bytes("HTTP/1.1 201 Created");
    vstd::string::is_ascii_spec_bytes("HTTP/1.1 400 Bad Request");
    vstd::string::is_ascii_spec_bytes("HTTP/1.1 404 Not Found");
    vstd::string::is_ascii_spec_bytes("HTTP/1.1 500 Internal Server Error");
    assert(one_line("HTTP/1.1 200 OK"@)) by {
        assert(encode_utf8("HTTP/1.1 200 OK"@) == text("HTTP/1.1 200 OK"));
    }
    assert(one_line("HTTP/1.1 201 Created"@)) by {
        assert(encode_utf8("HTTP/1.1 201 Created"@) == text("HTTP/1.1 201 Created"));
    }
    assert(one_line("HTTP/1.1 400 Bad Request"@)) by {
        assert(encode_utf8("HTTP/1.1 400 Bad Request"@) == text("HTTP/1.1 400 Bad Request"));
    }
    assert(one_line("HTTP/1.1 404 Not Found"@)) by {
        assert(encode_utf8("HTTP/1.1 404 Not Found"@) == text("HTTP/1.1 404 Not Found"));
    }
    assert(one_line("HTTP/1.1 500 Internal Server Error"@)) by {
        assert(encode_utf8("HTTP/1.1 500 Internal Server Error"@) == text(
            "HTTP/1.1 500 Internal Server Error",
        ));
    }
}

/// The content types and the encoding of the engine are one line each.
proof fn lemma_media_types()
    ensures
        one_line("text/html"@),
        one_line("text/plain"@),
        one_line("application/octet-stream"@),
        one_line("gzip"@),
{
    reveal_strlit("text/html");
    reveal_strlit("text/plain");
    reveal_strlit("application/octet-stream");
    reveal_strlit("gzip");
    vstd::string::is_ascii_spec_bytes("text/html");
    vstd::string::is_ascii_spec_bytes("text/plain");
    vstd::string::is_ascii_spec_bytes("application/octet-stream");
    vstd::string::is_ascii_spec_bytes("gzip");
    assert(encode_utf8("text/html"@) == text("text/html"));
    assert(encode_utf8("text/plain"@) == text("text/plain"));
    assert(encode_utf8("application/octet-stream"@) == text("application/octet-stream"));
    assert(encode_utf8("gzip"@) == text("gzip"));
}

/// Every response that the engine makes is one that frames its body: the
/// responses of the routes, the response to a file that was or was not
/// read, and the response to a file that was or was not written.
pub proof fn lemma_engine_responses_are_whole(
    request: RequestView,
    directory: Seq<u8>,
    file: Option<Seq<u8>>,
    gzip: bool,
    written: bool,
)
    ensures
        dispatch(request, directory) matches ActionView::Respond(response)
            ==> response.lines_are_whole(),
        after_read(file, gzip).lines_are_whole(),
        after_write(written).lines_are_whole(),
{
    lemma_status_lines();
    lemma_media_types();
}

} // verus!
