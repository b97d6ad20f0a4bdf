//! The routes: what the server does with a request. A route that needs the
//! byte store answers with the operation to perform, and the response is
//! made from its outcome.

use vstd::prelude::*;
use vstd::slice::{slice_subrange, slice_to_vec};
use crate::bytes::{same_bytes, starts_with, text, text_bytes};
use crate::encoding::{accepts_gzip, supports_gzip};
use crate::request::{Method, MethodView, Request, RequestView};
use crate::response::{encoded, plain, Response, ResponseView};

verus! {

/// What is to be done for a request.
#[derive(Debug, Clone, PartialEq, Eq)]
pub enum Action {
    /// Send this response.
    Respond(Response),
    /// Read the file at `path` and answer with `file_response`.
    ReadFile { path: Vec<u8>, gzip: bool },
    /// Write `body` to the file at `path` and answer with `write_response`.
    WriteFile { path: Vec<u8>, body: Vec<u8> },
}

/// What an `Action` stands for.
pub enum ActionView {
    Respond(ResponseView),
    ReadFile { path: Seq<u8>, gzip: bool },
    WriteFile { path: Seq<u8>, body: Seq<u8> },
}

impl View for Action {
    type V = ActionView;

    open spec fn view(&self) -> ActionView {
        match self {
            Action::Respond(response) => ActionView::Respond(response@),
            Action::ReadFile { path, gzip } => ActionView::ReadFile { path: path@, gzip: *gzip },
            Action::WriteFile { path, body } => ActionView::WriteFile { path: path@, body: body@ },
        }
    }
}

/// The response that carries content: status 200, and the body in gzip
/// where the client takes it.
pub open spec fn content(content_type: Seq<char>, body: Seq<u8>, gzip: bool) -> ResponseView {
    if gzip {
        encoded("HTTP/1.1 200 OK"@, content_type, body, "gzip"@)
    } else {
        plain("HTTP/1.1 200 OK"@, content_type, body)
    }
}

/// The response that carries a status and no content.
pub open spec fn status_only(status_line: Seq<char>) -> ResponseView {
    plain(status_line, "text/plain"@, Seq::empty())
}

/// What follows `prefix` in `path`.
pub open spec fn remainder(path: Seq<u8>, prefix: Seq<u8>) -> Seq<u8> {
    path.skip(prefix.len() as int)
}

/// The path of the file called `name` under `directory`.
pub open spec fn file_path(directory: Seq<u8>, name: Seq<u8>) -> Seq<u8> {
    directory + text("/") + name
}

/// The route table. The first rule that matches decides.
pub open spec fn dispatch(request: RequestView, directory: Seq<u8>) -> ActionView {
    let gzip = accepts_gzip(request.headers);
    let path = request.path;
    if request.method is Get && path == text("/") {
        ActionView::Respond(content("text/html"@, text("<h1>Hello, World!</h1>"), gzip))
    } else if request.method is Get && text("/echo/").is_prefix_of(path) {
        ActionView::Respond(content("text/plain"@, remainder(path, text("/echo/")), gzip))
    } else if request.method is Get && text("/files/").is_prefix_of(path) {
        ActionView::ReadFile { path: file_path(directory, remainder(path, text("/files/"))), gzip }
    } else if request.method is Post && text("/files/").is_prefix_of(path) {
        ActionView::WriteFile {
            path: file_path(directory, remainder(path, text("/files/"))),
            body: request.body,
        }
    } else if request.method is Get && path == text("/user-agent") {
        if request.headers.contains_key(text("User-Agent")) {
            ActionView::Respond(content("text/plain"@, request.headers[text("User-Agent")], gzip))
        } else {
            ActionView::Respond(status_only("HTTP/1.1 400 Bad Request"@))
        }
    } else {
        ActionView::Respond(status_only("HTTP/1.1 404 Not Found"@))
    }
}

/// The response to a request for a file, given what the byte store read:
/// the bytes of the file, or `None` where it has no such file or cannot
/// read it.
pub open spec fn after_read(file: Option<Seq<u8>>, gzip: bool) -> ResponseView {
    match file {
        Some(bytes) => content("application/octet-stream"@, bytes, gzip),
        None => status_only("HTTP/1.1 404 Not Found"@),
    }
}

/// The response to a request that sent a file, given whether the byte store
/// wrote it.
pub open spec fn after_write(written: bool) -> ResponseView {
    if written {
        status_only("HTTP/1.1 201 Created"@)
    } else {
        status_only("HTTP/1.1 500 Internal Server Error"@)
    }
}

/// Makes the response that carries `body`.
fn content_response(content_type: &str, body: &[u8], gzip: bool) -> (response: Response)
    ensures
        response@ == content(content_type@, body@, gzip),
{
    if gzip {
        Response::with_encoding("HTTP/1.1 200 OK", content_type, body, "gzip")
    } else {
        Response::new("HTTP/1.1 200 OK", content_type, body)
    }
}

/// Makes the response that carries a status and no content.
fn status_response(status_line: &str) -> (response: Response)
    ensures
        response@ == status_only(status_line@),
{
    let nothing: Vec<u8> = Vec::new();
    Response::new(status_line, "text/plain", nothing.as_slice())
}

/// What follows the first `skip` bytes of `path`.
fn rest_of(path: &[u8], skip: usize) -> (rest: &[u8])
    requires
        skip <= path@.len(),
    ensures
        rest@ == path@.skip(skip as int),
{
    slice_subrange(path, skip, path.len())
}

/// Makes the path of the file called `name` under `directory`.
fn join_path(directory: &str, name: &[u8]) -> (path: Vec<u8>)
    ensures
        path@ == file_path(text(directory), name@),
{
    let mut path = slice_to_vec(text_bytes(directory));
    let slash = text_bytes("/");
    let mut i: usize = 0;
    while i < slash.len()
        invariant
            i <= slash@.len(),
            path@ == text(directory) + slash@.take(i as int),
        decreases slash@.len() - i,
    {
        path.push(slash[i]);
        assert(slash@.take(i + 1) =~= slash@.take(i as int).push(slash@[i as int]));
        i = i + 1;
    }
    assert(slash@.take(i as int) =~= slash@);
    let mut j: usize = 0;
    while j < name.len()
        invariant
            j <= name@.len(),
            path@ == text(directory) + text("/") + name@.take(j as int),
        decreases name@.len() - j,
    {
        path.push(name[j]);
        assert(name@.take(j + 1) =~= name@.take(j as int).push(name@[j as int]));
        j = j + 1;
    }
    assert(name@.take(j as int) =~= name@);
    path
}

/// Decides what is to be done for `request`, with the files of the server
/// under `directory`.
pub fn handle_request(request: &Request, directory: &str) -> (action: Action)
    ensures
        action@ == dispatch(request@, text(directory)),
{
    let gzip = supports_gzip(request);
    let path = request.path.as_slice();
    let echo = text_bytes("/echo/");
    let files = text_bytes("/files/");
    match &request.method {
        Method::Get => {
            if same_bytes(path, text_bytes("/")) {
                Action::Respond(
                    content_response("text/html", text_bytes("<h1>Hello, World!</h1>"), gzip),
                )
            } else if starts_with(path, echo) {
                Action::Respond(content_response("text/plain", rest_of(path, echo.len()), gzip))
            } else if starts_with(path, files) {
                Action::ReadFile { path: join_path(directory, rest_of(path, files.len())), gzip }
            } else if same_bytes(path, text_bytes("/user-agent")) {
                match request.headers.get(text_bytes("User-Agent")) {
                    Some(agent) => Action::Respond(content_response("text/plain", agent, gzip)),
                    None => Action::Respond(status_response("HTTP/1.1 400 Bad Request")),
                }
            } else {
                Action::Respond(status_response("HTTP/1.1 404 Not Found"))
            }
        },
        Method::Post => {
            if starts_with(path, files) {
                Action::WriteFile {
                    path: join_path(directory, rest_of(path, files.len())),
                    body: request.body.clone(),
                }
            } else {
                Action::Respond(status_response("HTTP/1.1 404 Not Found"))
            }
        },
        Method::Other(_) => Action::Respond(status_response("HTTP/1.1 404 Not Found")),
    }
}

/// Makes the response to a request for a file from what the byte store
/// read: `Some` with the bytes of the file, `None` where it has no such file
/// or cannot read it.
pub fn file_response(file: Option<Vec<u8>>, gzip: bool) -> (response: Response)
    ensures
        response@ == after_read(
            match file {
                Some(bytes) => Some(bytes@),
                None => None,
            },
            gzip,
        ),
{
    match file {
        Some(bytes) => content_response("application/octet-stream", bytes.as_slice(), gzip),
        None => status_response("HTTP/1.1 404 Not Found"),
    }
}

/// Makes the response to a request that sent a file from whether the byte
/// store wrote it.
pub fn write_response(written: bool) -> (response: Response)
    ensures
        response@ == after_write(written),
{
    if written {
        status_response("HTTP/1.1 201 Created")
    } else {
        status_response("HTTP/1.1 500 Internal Server Error")
    }
}

} // verus!
