//! Requests, and how one is read from the bytes of a connection: a request
//! line, header lines up to a blank one, and a body of the declared length.

use vstd::prelude::*;
use vstd::slice::slice_to_vec;
use vstd::utf8::{decode_utf8, encode_utf8, valid_utf8};
use crate::bytes::{
    find, first_occurrence, is_whitespace, lemma_first_occurrence, lemma_first_occurrence_extends,
    lemma_first_occurrence_within, lemma_run_end, lemma_trim_end, lemma_trim_tight, occurs_at,
    run_end, same_bytes, skip_run, text, text_bytes, trim, trimmed, COLON, CR, LF, SPACE,
};
use crate::decimal::{parse_length, read_length};
use crate::headers::{header_map, lemma_header_map_push, Headers};
use crate::wire::{
    crlf, lemma_line_end, lemma_line_end_here, line_end, ConnectionError, WireReader,
};

verus! {

/// A request method. A method that the server has no route for is kept as
/// it was received.
#[derive(Debug, Clone, PartialEq, Eq)]
pub enum Method {
    Get,
    Post,
    Other(Vec<u8>),
}

/// What a `Method` stands for.
pub enum MethodView {
    Get,
    Post,
    Other(Seq<u8>),
}

impl View for Method {
    type V = MethodView;

    open spec fn view(&self) -> MethodView {
        match self {
            Method::Get => MethodView::Get,
            Method::Post => MethodView::Post,
            Method::Other(token) => MethodView::Other(token@),
        }
    }
}

/// One request.
#[derive(Debug, Clone)]
pub struct Request {
    /// The method.
    pub method: Method,
    /// The request target as it was received, not decoded.
    pub path: Vec<u8>,
    /// The header fields.
    pub headers: Headers,
    /// The body; empty where the request declares no length.
    pub body: Vec<u8>,
}

/// What a `Request` stands for.
pub struct RequestView {
    pub method: MethodView,
    pub path: Seq<u8>,
    pub headers: Map<Seq<u8>, Seq<u8>>,
    pub body: Seq<u8>,
}

impl View for Request {
    type V = RequestView;

    open spec fn view(&self) -> RequestView {
        RequestView {
            method: self.method@,
            path: self.path@,
            headers: self.headers@,
            body: self.body@,
        }
    }
}

/// The text that permissive decoding makes of `bytes`: the text that they
/// encode, with U+FFFD in place of what is not UTF-8.
pub uninterp spec fn lossy_text(bytes: Seq<u8>) -> Seq<char>;

/// Decodes `bytes` with `String::from_utf8_lossy`, which replaces what is
/// not UTF-8 by U+FFFD and rejects nothing. Bytes that are UTF-8 come back
/// as the text that they encode.
#[verifier::external_body]
fn decode_lossy(bytes: &[u8]) -> (text: String)
    ensures
        text@ == lossy_text(bytes@),
        valid_utf8(bytes@) ==> text@ == decode_utf8(bytes@),
{
    String::from_utf8_lossy(bytes).into_owned()
}

impl Request {
    /// The body as text, decoded permissively. A body that is UTF-8 gives
    /// the text that it encodes.
    pub fn body_text(&self) -> (text: String)
        ensures
            text@ == lossy_text(self.body@),
            valid_utf8(self.body@) ==> encode_utf8(text@) == self.body@,
    {
        proof {
            if valid_utf8(self.body@) {
                vstd::utf8::decode_utf8_encode_utf8(self.body@);
            }
        }
        decode_lossy(self.body.as_slice())
    }
}

impl RequestView {
    /// The body has the length that the headers declare.
    pub open spec fn framed(self) -> bool {
        self.body.len() == declared_length(self.headers)
    }
}

/// The method that a token of the request line names.
pub open spec fn method_of(token: Seq<u8>) -> MethodView {
    if token == text("GET") {
        MethodView::Get
    } else if token == text("POST") {
        MethodView::Post
    } else {
        MethodView::Other(token)
    }
}

/// The method and the target of a request line. The line holds three tokens
/// with whitespace between them: a method, a target and a version; around
/// them it may hold whitespace and nothing else.
pub open spec fn request_line(line: Seq<u8>) -> Option<(MethodView, Seq<u8>)> {
    let method_start = run_end(line, 0, true);
    let method_end = run_end(line, method_start, false);
    let target_start = run_end(line, method_end, true);
    let target_end = run_end(line, target_start, false);
    let version_start = run_end(line, target_end, true);
    let version_end = run_end(line, version_start, false);
    if method_start < method_end && target_start < target_end && version_start < version_end
        && run_end(line, version_end, true) == line.len() {
        Some(
            (
                method_of(line.subrange(method_start, method_end)),
                line.subrange(target_start, target_end),
            ),
        )
    } else {
        None
    }
}

/// What parts a name from its value in a header line: a colon and a space.
pub open spec fn separator() -> Seq<u8> {
    seq![COLON, SPACE]
}

/// The field that a header line holds: the line, without the whitespace at
/// its ends, is split at its first separator. A line without a separator
/// holds no field.
pub open spec fn header_of(line: Seq<u8>) -> Option<(Seq<u8>, Seq<u8>)> {
    let field = trim(line);
    match first_occurrence(field, separator(), 0) {
        Some(at) => Some((field.take(at), field.skip(at + 2))),
        None => None,
    }
}

/// The fields of the header lines that start at `pos`, in their order, and
/// the index at which the body starts: behind the first blank line. `None`
/// where the bytes end before a blank line does.
pub open spec fn header_block(buf: Seq<u8>, pos: int) -> Option<(Seq<(Seq<u8>, Seq<u8>)>, int)>
    decreases buf.len() - pos,
    via header_block_decreases
{
    match line_end(buf, pos) {
        None => None,
        Some(end) => if end == pos {
            Some((Seq::empty(), end + 2))
        } else {
            preceded_by(line_fields(buf.subrange(pos, end)), header_block(buf, end + 2))
        },
    }
}

#[via_fn]
proof fn header_block_decreases(buf: Seq<u8>, pos: int) {
    if 0 <= pos {
        lemma_line_end(buf, pos);
    }
}

/// The fields that one header line contributes: its field, or none.
pub open spec fn line_fields(line: Seq<u8>) -> Seq<(Seq<u8>, Seq<u8>)> {
    match header_of(line) {
        Some(field) => seq![field],
        None => Seq::empty(),
    }
}

/// The header block `rest` with `fields` before its own.
pub open spec fn preceded_by(
    fields: Seq<(Seq<u8>, Seq<u8>)>,
    rest: Option<(Seq<(Seq<u8>, Seq<u8>)>, int)>,
) -> Option<(Seq<(Seq<u8>, Seq<u8>)>, int)> {
    match rest {
        None => None,
        Some((more, body_start)) => Some((fields + more, body_start)),
    }
}

/// The length of the body that the headers declare: what `Content-Length`
/// spells, and zero where there is no such field or it spells no length.
pub open spec fn declared_length(headers: Map<Seq<u8>, Seq<u8>>) -> usize {
    if headers.contains_key(text("Content-Length")) {
        match parse_length(headers[text("Content-Length")]) {
            Some(length) => length,
            None => 0,
        }
    } else {
        0
    }
}

/// The request that the bytes of `buf` hold from index `start` on, and the
/// index at which it ends.
pub open spec fn parse(buf: Seq<u8>, start: int) -> Result<(RequestView, int), ConnectionError> {
    match line_end(buf, start) {
        None => Err(ConnectionError::UnexpectedEof),
        Some(end) => match request_line(buf.subrange(start, end)) {
            None => Err(ConnectionError::MalformedRequestLine),
            Some((method, path)) => match header_block(buf, end + 2) {
                None => Err(ConnectionError::UnexpectedEof),
                Some((fields, body_start)) => {
                    let headers = header_map(fields);
                    let body_end = body_start + declared_length(headers);
                    if body_end <= buf.len() {
                        Ok(
                            (
                                RequestView {
                                    method,
                                    path,
                                    headers,
                                    body: buf.subrange(body_start, body_end),
                                },
                                body_end,
                            ),
                        )
                    } else {
                        Err(ConnectionError::UnexpectedEof)
                    }
                },
            },
        },
    }
}

/// The header block lies behind its start and inside the buffer.
pub proof fn lemma_header_block(buf: Seq<u8>, pos: int)
    requires
        0 <= pos,
    ensures
        header_block(buf, pos) matches Some((fields, body_start)) ==> pos + 2 <= body_start
            <= buf.len(),
    decreases buf.len() - pos,
{
    lemma_line_end(buf, pos);
    if let Some(end) = line_end(buf, pos) {
        if end != pos {
            lemma_header_block(buf, end + 2);
        }
    }
}

/// A request that was parsed lies inside the buffer, its body is the last
/// part of it, and the body has the length that the headers declare.
pub proof fn lemma_parse(buf: Seq<u8>, start: int)
    requires
        0 <= start,
    ensures
        parse(buf, start) matches Ok((request, end)) ==> {
            &&& request.framed()
            &&& start + 4 <= end - request.body.len()
            &&& end <= buf.len()
            &&& request.body == buf.subrange(end - request.body.len(), end)
        },
{
    lemma_line_end(buf, start);
    if let Some(end) = line_end(buf, start) {
        lemma_header_block(buf, end + 2);
    }
}

/// The target of a request line is a token: it is not empty and holds no
/// whitespace.
pub proof fn lemma_request_line(line: Seq<u8>)
    ensures
        request_line(line) matches Some((method, path)) ==> {
            &&& path.len() > 0
            &&& forall|i: int| 0 <= i < path.len() ==> !is_whitespace(#[trigger] path[i])
            &&& method matches MethodView::Other(token) ==> {
                &&& token.len() > 0
                &&& forall|i: int| 0 <= i < token.len() ==> !is_whitespace(#[trigger] token[i])
                &&& token != text("GET")
                &&& token != text("POST")
            }
        },
{
    let method_start = run_end(line, 0, true);
    lemma_run_end(line, 0, true);
    let method_end = run_end(line, method_start, false);
    lemma_run_end(line, method_start, false);
    let target_start = run_end(line, method_end, true);
    lemma_run_end(line, method_end, true);
    let target_end = run_end(line, target_start, false);
    lemma_run_end(line, target_start, false);
}

/// A header block starts with the fields of its first line, where that
/// line is not blank.
pub proof fn lemma_header_block_line(buf: Seq<u8>, pos: int, end: int)
    requires
        0 <= pos < end,
        end + 2 <= buf.len(),
        buf[end] == CR,
        buf[end + 1] == LF,
        forall|j: int| pos <= j < end ==> #[trigger] buf[j] != CR,
    ensures
        header_block(buf, pos) == preceded_by(
            line_fields(buf.subrange(pos, end)),
            header_block(buf, end + 2),
        ),
{
    lemma_line_end_here(buf, pos, end);
}

/// A header block ends at its first blank line.
pub proof fn lemma_header_block_end(buf: Seq<u8>, pos: int)
    requires
        0 <= pos,
        pos + 2 <= buf.len(),
        buf[pos] == CR,
        buf[pos + 1] == LF,
    ensures
        header_block(buf, pos) == Some((Seq::<(Seq<u8>, Seq<u8>)>::empty(), pos + 2)),
{
    lemma_line_end_here(buf, pos, pos);
}

/// A line that starts with a name without colon, then holds a separator,
/// holds a field of that name or none.
pub proof fn lemma_header_of_name(name: Seq<u8>, rest: Seq<u8>)
    requires
        name.len() > 0,
        !is_whitespace(name[0]),
        forall|i: int| 0 <= i < name.len() ==> #[trigger] name[i] != COLON,
    ensures
        header_of(name + separator() + rest) matches Some((found, value)) ==> found == name,
{
    let line = name + separator() + rest;
    let n = name.len() as int;
    assert(line[0] == name[0]);
    assert(line[n] == COLON);
    assert(line[n + 1] == SPACE);
    assert(line.skip(0) =~= line);
    lemma_trim_end(line);
    let field = trim(line);
    let k = field.len() as int;
    assert(n < k) by {
        if k <= n {
            assert(is_whitespace(line[n]));
        }
    }
    lemma_first_occurrence(field, separator(), 0);
    if let Some(at) = first_occurrence(field, separator(), 0) {
        assert(field.subrange(at, at + 2)[0] == COLON);
        assert(field[at] == line[at]);
        if at < n {
            assert(line[at] == name[at]);
        }
        if at > n {
            assert(field.subrange(n, n + 2) =~= separator());
            assert(occurs_at(field, separator(), n));
        }
        assert(field.take(at) =~= name);
    }
}

/// A line that is a name without colon, a separator and a value, with no
/// whitespace at either end, holds the field of that name and value.
pub proof fn lemma_header_of_field(name: Seq<u8>, value: Seq<u8>)
    requires
        name.len() > 0,
        !is_whitespace(name[0]),
        forall|i: int| 0 <= i < name.len() ==> #[trigger] name[i] != COLON,
        value.len() > 0,
        !is_whitespace(value.last()),
    ensures
        header_of(name + separator() + value) == Some((name, value)),
{
    let line = name + separator() + value;
    let n = name.len() as int;
    assert(line[0] == name[0]);
    assert(line.last() == value.last());
    lemma_trim_tight(line);
    lemma_header_of_name(name, value);
    lemma_first_occurrence(line, separator(), 0);
    assert(line.subrange(n, n + 2) =~= separator());
    assert(occurs_at(line, separator(), n));
    let at = first_occurrence(line, separator(), 0)->Some_0;
    assert(line.take(at) == name);
    assert(at == n) by {
        assert(line.take(at).len() == at);
    }
    assert(line.skip(n + 2) =~= value);
}

/// More bytes behind a header block that has ended change nothing in it.
pub proof fn lemma_header_block_extends(buf: Seq<u8>, more: Seq<u8>, pos: int)
    requires
        header_block(buf, pos) is Some,
    ensures
        header_block(buf + more, pos) == header_block(buf, pos),
    decreases buf.len() - pos,
{
    let longer = buf + more;
    if 0 <= pos {
        lemma_line_end(buf, pos);
    }
    lemma_first_occurrence_extends(buf, more, crlf(), pos);
    let end = line_end(buf, pos)->Some_0;
    if end != pos {
        lemma_header_block_extends(buf, more, end + 2);
        assert(longer.subrange(pos, end) =~= buf.subrange(pos, end));
    }
}

/// What was parsed stays parsed: a request that the bytes hold is the
/// request that they hold when more bytes have come in behind them, and a
/// request line that is malformed stays so.
pub proof fn lemma_parse_extends(buf: Seq<u8>, more: Seq<u8>, start: int)
    ensures
        parse(buf, start) is Ok ==> parse(buf + more, start) == parse(buf, start),
        parse(buf, start) == Err::<(RequestView, int), ConnectionError>(
            ConnectionError::MalformedRequestLine,
        ) ==> parse(buf + more, start) == parse(buf, start),
{
    let longer = buf + more;
    if let Some(end) = line_end(buf, start) {
        lemma_line_end(buf, start);
        lemma_first_occurrence_extends(buf, more, crlf(), start);
        assert(longer.subrange(start, end) =~= buf.subrange(start, end));
        if parse(buf, start) is Ok {
            lemma_header_block_extends(buf, more, end + 2);
            lemma_header_block(buf, end + 2);
            let (fields, body_start) = header_block(buf, end + 2)->Some_0;
            let body_end = body_start + declared_length(header_map(fields));
            assert(longer.subrange(body_start, body_end) =~= buf.subrange(body_start, body_end));
        }
    }
}

/// A header block is read from its own bytes: the bytes behind its blank
/// line have no part in it.
pub proof fn lemma_header_block_within(buf: Seq<u8>, pos: int, cut: int)
    requires
        header_block(buf, pos) matches Some((fields, body_start)) && body_start <= cut,
        cut <= buf.len(),
    ensures
        header_block(buf.take(cut), pos) == header_block(buf, pos),
    decreases buf.len() - pos,
{
    let shorter = buf.take(cut);
    if 0 <= pos {
        lemma_line_end(buf, pos);
    }
    let end = line_end(buf, pos)->Some_0;
    if end != pos {
        lemma_header_block(buf, end + 2);
        lemma_header_block_within(buf, end + 2, cut);
        assert(shorter.subrange(pos, end) =~= buf.subrange(pos, end));
    }
    lemma_first_occurrence_within(buf, crlf(), pos, cut);
}

/// A request is read from its own bytes: what lies behind its end has no
/// part in it.
pub proof fn lemma_parse_within(buf: Seq<u8>, start: int)
    requires
        parse(buf, start) is Ok,
    ensures
        parse(buf.take(parse(buf, start)->Ok_0.1), start) == parse(buf, start),
{
    let cut = parse(buf, start)->Ok_0.1;
    let shorter = buf.take(cut);
    let end = line_end(buf, start)->Some_0;
    lemma_line_end(buf, start);
    lemma_header_block(buf, end + 2);
    let (fields, body_start) = header_block(buf, end + 2)->Some_0;
    lemma_first_occurrence_within(buf, crlf(), start, cut);
    lemma_header_block_within(buf, end + 2, cut);
    assert(shorter.subrange(start, end) =~= buf.subrange(start, end));
    assert(shorter.subrange(body_start, cut) =~= buf.subrange(body_start, cut));
}

/// The method that `token` names.
pub fn read_method(token: &[u8]) -> (method: Method)
    ensures
        method@ == method_of(token@),
{
    if same_bytes(token, text_bytes("GET")) {
        Method::Get
    } else if same_bytes(token, text_bytes("POST")) {
        Method::Post
    } else {
        Method::Other(slice_to_vec(token))
    }
}

/// Splits a request line into its method and its target.
pub fn read_request_line(line: &[u8]) -> (parts: Option<(Method, Vec<u8>)>)
    ensures
        match parts {
            Some((method, path)) => request_line(line@) == Some((method@, path@)),
            None => request_line(line@) is None,
        },
{
    let method_start = skip_run(line, 0, true);
    let method_end = skip_run(line, method_start, false);
    let target_start = skip_run(line, method_end, true);
    let target_end = skip_run(line, target_start, false);
    let version_start = skip_run(line, target_end, true);
    let version_end = skip_run(line, version_start, false);
    let end = skip_run(line, version_end, true);
    if method_start < method_end && target_start < target_end && version_start < version_end && end
        == line.len() {
        let method = read_method(vstd::slice::slice_subrange(line, method_start, method_end));
        let path = slice_to_vec(vstd::slice::slice_subrange(line, target_start, target_end));
        Some((method, path))
    } else {
        None
    }
}

/// The bytes of the separator.
fn separator_bytes() -> (bytes: &'static [u8])
    ensures
        bytes@ == separator(),
{
    let s = ": ";
    proof {
        reveal_strlit(": ");
        vstd::string::is_ascii_spec_bytes(s);
    }
    let bytes = text_bytes(s);
    assert(bytes@ =~= separator());
    bytes
}

/// Splits a header line into the name and the value of its field.
pub fn read_header(line: &[u8]) -> (field: Option<(Vec<u8>, Vec<u8>)>)
    ensures
        match field {
            Some((name, value)) => header_of(line@) == Some((name@, value@)),
            None => header_of(line@) is None,
        },
{
    let field = trimmed(line);
    proof {
        lemma_first_occurrence(field@, separator(), 0);
    }
    let n = field.len();
    match find(field, separator_bytes(), 0) {
        Some(at) => {
            assert(at + separator().len() <= n);
            let name = slice_to_vec(vstd::slice::slice_subrange(field, 0, at));
            let value = slice_to_vec(vstd::slice::slice_subrange(field, at + 2, n));
            assert(name@ =~= field@.take(at as int));
            assert(value@ =~= field@.skip(at + 2));
            Some((name, value))
        },
        None => None,
    }
}

/// Reads the length that the headers declare.
pub fn content_length(headers: &Headers) -> (length: usize)
    ensures
        length == declared_length(headers@),
{
    match headers.get(text_bytes("Content-Length")) {
        Some(value) => match read_length(value) {
            Some(length) => length,
            None => 0,
        },
        None => 0,
    }
}

/// Reads the header lines from `reader`, up to and with the blank line
/// that ends them. Where the bytes end before a blank line does, the reader
/// stays where it was.
pub fn read_headers(reader: &mut WireReader) -> (result: Result<Headers, ConnectionError>)
    ensures
        final(reader).buffer() == old(reader).buffer(),
        match result {
            Ok(headers) => {
                &&& header_block(old(reader).buffer(), old(reader).offset()) matches Some(
                    (fields, body_start),
                )
                &&& headers@ == header_map(fields)
                &&& final(reader).offset() == body_start
            },
            Err(error) => {
                &&& error == ConnectionError::UnexpectedEof
                &&& header_block(old(reader).buffer(), old(reader).offset()) is None
                &&& final(reader).offset() == old(reader).offset()
            },
        },
{
    let ghost buf = reader.buffer();
    let start = reader.position();
    let mut headers = Headers::new();
    let ghost mut fields = Seq::<(Seq<u8>, Seq<u8>)>::empty();
    assert(preceded_by(fields, header_block(buf, start as int)) == header_block(
        buf,
        start as int,
    )) by {
        if let Some((more, body_start)) = header_block(buf, start as int) {
            assert(fields + more =~= more);
        }
    }
    let mut done = false;
    while !done
        invariant
            buf == old(reader).buffer(),
            start == old(reader).offset(),
            reader.buffer() == buf,
            start <= reader.offset() <= buf.len(),
            headers@ == header_map(fields),
            done ==> header_block(buf, start as int) == Some((fields, reader.offset())),
            !done ==> header_block(buf, start as int) == preceded_by(
                fields,
                header_block(buf, reader.offset()),
            ),
        decreases
            buf.len() - reader.offset() + (if done {
                0int
            } else {
                1int
            }),
    {
        let line_start = reader.position();
        proof {
            lemma_line_end(buf, line_start as int);
        }
        let line = match reader.read_line() {
            Ok(line) => line,
            Err(error) => {
                reader.rewind(start);
                return Err(error);
            },
        };
        let ghost rest = header_block(buf, reader.offset());
        if line.len() == 0 {
            assert(fields + Seq::<(Seq<u8>, Seq<u8>)>::empty() =~= fields);
            done = true;
        } else {
            match read_header(line) {
                Some((name, value)) => {
                    proof {
                        lemma_header_map_push(fields, (name@, value@));
                        if let Some((more, body_start)) = rest {
                            assert(fields + (seq![(name@, value@)] + more) =~= fields.push(
                                (name@, value@),
                            ) + more);
                        }
                        fields = fields.push((name@, value@));
                    }
                    headers.insert(name, value);
                },
                None => {
                    proof {
                        if let Some((more, body_start)) = rest {
                            assert(Seq::<(Seq<u8>, Seq<u8>)>::empty() + more =~= more);
                        }
                    }
                },
            }
        }
    }
    Ok(headers)
}

/// Reads one request from `reader`: its request line, its header lines and
/// the body that they declare. Where the bytes hold no whole request, or
/// the request line is malformed, the reader stays where it was.
pub fn parse_request(reader: &mut WireReader) -> (result: Result<Request, ConnectionError>)
    ensures
        final(reader).buffer() == old(reader).buffer(),
        match result {
            Ok(request) => {
                &&& parse(old(reader).buffer(), old(reader).offset()) == Ok::<
                    (RequestView, int),
                    ConnectionError,
                >((request@, final(reader).offset()))
                &&& request@.framed()
            },
            Err(error) => {
                &&& parse(old(reader).buffer(), old(reader).offset()) == Err::<
                    (RequestView, int),
                    ConnectionError,
                >(error)
                &&& final(reader).offset() == old(reader).offset()
            },
        },
{
    let start = reader.position();
    let line = match reader.read_line() {
        Ok(line) => line,
        Err(error) => {
            return Err(error);
        },
    };
    proof {
        lemma_line_end(reader.buffer(), start as int);
    }
    let (method, path) = match read_request_line(line) {
        Some(parts) => parts,
        None => {
            reader.rewind(start);
            return Err(ConnectionError::MalformedRequestLine);
        },
    };
    proof {
        lemma_header_block(reader.buffer(), reader.offset());
    }
    let headers = match read_headers(reader) {
        Ok(headers) => headers,
        Err(error) => {
            reader.rewind(start);
            return Err(error);
        },
    };
    let length = content_length(&headers);
    let body = match reader.read_exact(length) {
        Ok(block) => slice_to_vec(block),
        Err(error) => {
            reader.rewind(start);
            return Err(error);
        },
    };
    Ok(Request { method, path, headers, body })
}

} // verus!
