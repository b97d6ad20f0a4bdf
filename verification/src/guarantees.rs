//! What the engine guarantees to a client, stated over the models of the
//! parser and the router and proved from their definitions.

use vstd::prelude::*;
use crate::bytes::text;
use crate::encoding::{accepts_gzip, gzip_encoding};
use crate::request::{declared_length, parse, MethodView, RequestView};
use crate::response::ResponseView;
use crate::router::{
    after_read, after_write, content, dispatch, file_path, status_only, ActionView,
};

verus! {

/// The bytes of the texts that the routes are matched against.
pub proof fn lemma_route_texts()
    ensures
        text("/") == seq![47u8],
        text("/echo/") == seq![47u8, 101u8, 99u8, 104u8, 111u8, 47u8],
        text("/files/") == seq![47u8, 102u8, 105u8, 108u8, 101u8, 115u8, 47u8],
{
    reveal_strlit("/");
    reveal_strlit("/echo/");
    reveal_strlit("/files/");
    vstd::string::is_ascii_spec_bytes("/");
    vstd::string::is_ascii_spec_bytes("/echo/");
    vstd::string::is_ascii_spec_bytes("/files/");
    assert(text("/") =~= seq![47u8]);
    assert(text("/echo/") =~= seq![47u8, 101u8, 99u8, 104u8, 111u8, 47u8]);
    assert(text("/files/") =~= seq![47u8, 102u8, 105u8, 108u8, 101u8, 115u8, 47u8]);
}

/// A `GET` of `/echo/` and a text is answered with status 200, the content
/// type `text/plain` and that text: as it is where the client does not take
/// gzip, and else in what the compressor made of it.
pub proof fn lemma_echo(
    echoed: Seq<u8>,
    headers: Map<Seq<u8>, Seq<u8>>,
    body: Seq<u8>,
    directory: Seq<u8>,
)
    ensures
        ({
            let request = RequestView {
                method: MethodView::Get,
                path: text("/echo/") + echoed,
                headers,
                body,
            };
            &&& dispatch(request, directory) matches ActionView::Respond(response)
            &&& response == content("text/plain"@, echoed, accepts_gzip(headers))
            &&& response.status_line == "HTTP/1.1 200 OK"@
            &&& response.content_type == "text/plain"@
            &&& !accepts_gzip(headers) ==> response.body == echoed && response.content_encoding
                is None
        }),
{
    lemma_route_texts();
    let path = text("/echo/") + echoed;
    assert(path.subrange(0, text("/echo/").len() as int) =~= text("/echo/"));
    assert(path.skip(text("/echo/").len() as int) =~= echoed);
}

/// A `GET` of `/files/` and a name asks for the file of that name under
/// the directory. Where the byte store holds it, the answer is status 200,
/// the content type `application/octet-stream` and the bytes of the file;
/// where it does not, status 404 and no content.
pub proof fn lemma_file_download(
    name: Seq<u8>,
    headers: Map<Seq<u8>, Seq<u8>>,
    body: Seq<u8>,
    directory: Seq<u8>,
    file: Seq<u8>,
)
    ensures
        ({
            let request = RequestView {
                method: MethodView::Get,
                path: text("/files/") + name,
                headers,
                body,
            };
            let found = after_read(Some(file), accepts_gzip(headers));
            let missing = after_read(None, accepts_gzip(headers));
            &&& dispatch(request, directory) == (ActionView::ReadFile {
                path: file_path(directory, name),
                gzip: accepts_gzip(headers),
            })
            &&& found == content("application/octet-stream"@, file, accepts_gzip(headers))
            &&& found.status_line == "HTTP/1.1 200 OK"@
            &&& found.content_type == "application/octet-stream"@
            &&& !accepts_gzip(headers) ==> found.body == file && found.content_encoding is None
            &&& missing.status_line == "HTTP/1.1 404 Not Found"@
            &&& missing.body == Seq::<u8>::empty()
        }),
{
    lemma_route_texts();
    let path = text("/files/") + name;
    assert(path.subrange(0, text("/files/").len() as int) =~= text("/files/"));
    assert(path.skip(text("/files/").len() as int) =~= name);
    assert(path.subrange(0, text("/echo/").len() as int)[1] == 102u8);
}

/// What a `POST` to `/files/` and a name sends is what a later `GET` of the
/// same path returns: the upload writes the body of the request to a path,
/// the download reads that path, and the response to it carries the bytes
/// that the byte store holds there.
pub proof fn lemma_file_round_trip(
    store: Map<Seq<u8>, Seq<u8>>,
    name: Seq<u8>,
    directory: Seq<u8>,
    sent: Seq<u8>,
    post_headers: Map<Seq<u8>, Seq<u8>>,
    get_headers: Map<Seq<u8>, Seq<u8>>,
    get_body: Seq<u8>,
)
    ensures
        ({
            let post = RequestView {
                method: MethodView::Post,
                path: text("/files/") + name,
                headers: post_headers,
                body: sent,
            };
            let get = RequestView {
                method: MethodView::Get,
                path: text("/files/") + name,
                headers: get_headers,
                body: get_body,
            };
            &&& dispatch(post, directory) matches ActionView::WriteFile { path: written, body }
            &&& body == sent
            &&& after_write(true).status_line == "HTTP/1.1 201 Created"@
            &&& dispatch(get, directory) matches ActionView::ReadFile { path: read, gzip }
            &&& read == written
            &&& gzip == accepts_gzip(get_headers)
            &&& store.insert(written, body).contains_key(read)
            &&& after_read(Some(store.insert(written, body)[read]), gzip) == content(
                "application/octet-stream"@,
                sent,
                gzip,
            )
            &&& !gzip ==> after_read(Some(store.insert(written, body)[read]), gzip).body == sent
        }),
{
    lemma_file_download(name, get_headers, get_body, directory, sent);
    lemma_route_texts();
    let path = text("/files/") + name;
    assert(path.subrange(0, text("/files/").len() as int) =~= text("/files/"));
    assert(path.skip(text("/files/").len() as int) =~= name);
}

/// To a client that takes gzip, content goes out as the stream that the
/// compressor made of it, named as gzip in the response; where the
/// compressor made none, it goes out as it is and no encoding is named.
pub proof fn lemma_negotiated_content(content_type: Seq<char>, body: Seq<u8>)
    ensures
        match gzip_encoding(body) {
            Some(stream) => content(content_type, body, true) == (ResponseView {
                status_line: "HTTP/1.1 200 OK"@,
                content_type,
                content_encoding: Some("gzip"@),
                body: stream,
            }),
            None => content(content_type, body, true) == content(content_type, body, false),
        },
        content(content_type, body, false).body == body,
        content(content_type, body, false).content_encoding is None,
{
}

/// A `GET` of `/user-agent` is answered with the value of the `User-Agent`
/// field of the request, and with status 400 where the request has no such
/// field.
pub proof fn lemma_user_agent(headers: Map<Seq<u8>, Seq<u8>>, body: Seq<u8>, directory: Seq<u8>)
    ensures
        ({
            let request = RequestView {
                method: MethodView::Get,
                path: text("/user-agent"),
                headers,
                body,
            };
            let agent = headers[text("User-Agent")];
            &&& dispatch(request, directory) matches ActionView::Respond(response)
            &&& headers.contains_key(text("User-Agent")) ==> {
                &&& response == content("text/plain"@, agent, accepts_gzip(headers))
                &&& response.status_line == "HTTP/1.1 200 OK"@
                &&& response.content_type == "text/plain"@
                &&& !accepts_gzip(headers) ==> response.body == agent
                    && response.content_encoding is None
            }
            &&& !headers.contains_key(text("User-Agent")) ==> {
                &&& response == status_only("HTTP/1.1 400 Bad Request"@)
                &&& response.body == Seq::<u8>::empty()
            }
        }),
{
    lemma_route_texts();
    reveal_strlit("/user-agent");
    vstd::string::is_ascii_spec_bytes("/user-agent");
    let path = text("/user-agent");
    assert(path.len() == 11);
    assert(path[1] == 117u8);
    assert(path.subrange(0, text("/echo/").len() as int)[1] == 117u8);
    assert(path.subrange(0, text("/files/").len() as int)[1] == 117u8);
}

/// A response names an encoding only where it carries content, the client
/// takes gzip and the compressor made a stream: the encoding is gzip then,
/// and the body is that stream.
pub proof fn lemma_encoding_is_negotiated(
    request: RequestView,
    directory: Seq<u8>,
    file: Option<Seq<u8>>,
)
    ensures
        dispatch(request, directory) matches ActionView::Respond(response) ==> (
        response.content_encoding matches Some(encoding) ==> {
            &&& accepts_gzip(request.headers)
            &&& encoding == "gzip"@
            &&& response.status_line == "HTTP/1.1 200 OK"@
        }),
        dispatch(request, directory) matches ActionView::ReadFile { path, gzip } ==> (after_read(
            file,
            gzip,
        ).content_encoding matches Some(encoding) ==> {
            &&& accepts_gzip(request.headers)
            &&& encoding == "gzip"@
            &&& file matches Some(bytes)
            &&& gzip_encoding(bytes) == Some(after_read(file, gzip).body)
        }),
        forall|written: bool| (#[trigger] after_write(written)).content_encoding is None,
{
}

/// A request that no route matches is answered with status 404 and no
/// content, whatever its headers and its body hold.
pub proof fn lemma_not_found(request: RequestView, directory: Seq<u8>)
    requires
        !(request.method is Get && request.path == text("/")),
        !(request.method is Get && text("/echo/").is_prefix_of(request.path)),
        !(request.method is Get && text("/files/").is_prefix_of(request.path)),
        !(request.method is Post && text("/files/").is_prefix_of(request.path)),
        !(request.method is Get && request.path == text("/user-agent")),
    ensures
        dispatch(request, directory) == ActionView::Respond(
            status_only("HTTP/1.1 404 Not Found"@),
        ),
        status_only("HTTP/1.1 404 Not Found"@).body == Seq::<u8>::empty(),
        status_only("HTTP/1.1 404 Not Found"@).content_encoding is None,
{
}

/// An upload persists the bytes that the request declares, no more and no
/// fewer: where the bytes of a connection hold a `POST` to `/files/` and a
/// name, the bytes to be written are the last bytes of the request, as many
/// as its `Content-Length` says.
pub proof fn lemma_upload_is_framed(buf: Seq<u8>, directory: Seq<u8>)
    requires
        parse(buf, 0) is Ok,
        parse(buf, 0)->Ok_0.0.method is Post,
        text("/files/").is_prefix_of(parse(buf, 0)->Ok_0.0.path),
    ensures
        ({
            let (request, end) = parse(buf, 0)->Ok_0;
            let length = declared_length(request.headers);
            &&& dispatch(request, directory) matches ActionView::WriteFile { path, body }
            &&& body.len() == length
            &&& 0 <= end - length <= end <= buf.len()
            &&& body == buf.subrange(end - length, end)
        }),
{
    crate::request::lemma_parse(buf, 0);
}

} // verus!
