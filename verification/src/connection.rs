//! One connection carries one request. The bytes arrive in pieces: after
//! each piece the engine says whether the request is whole.

use vstd::prelude::*;
use crate::request::{lemma_parse_extends, parse, parse_request, Request, RequestView};
use crate::wire::{ConnectionError, WireReader};

verus! {

/// How far the request of a connection has come.
#[derive(Debug, Clone)]
pub enum Progress {
    /// The request is not whole, and the peer may send more.
    Wait,
    /// The request is whole.
    Ready(Request),
    /// No request will come: the connection is closed without a response.
    Abort(ConnectionError),
}

/// What a `Progress` stands for.
pub enum ProgressView {
    Wait,
    Ready(RequestView),
    Abort(ConnectionError),
}

impl View for Progress {
    type V = ProgressView;

    open spec fn view(&self) -> ProgressView {
        match self {
            Progress::Wait => ProgressView::Wait,
            Progress::Ready(request) => ProgressView::Ready(request@),
            Progress::Abort(error) => ProgressView::Abort(*error),
        }
    }
}

/// How far the request has come once `received` has arrived, where `closed`
/// says that the peer will send no more. A malformed request line ends the
/// connection at once; bytes that end too early end it once the peer has
/// closed.
pub open spec fn progress(received: Seq<u8>, closed: bool) -> ProgressView {
    match parse(received, 0) {
        Ok((request, end)) => ProgressView::Ready(request),
        Err(ConnectionError::MalformedRequestLine) => ProgressView::Abort(
            ConnectionError::MalformedRequestLine,
        ),
        Err(ConnectionError::UnexpectedEof) => if closed {
            ProgressView::Abort(ConnectionError::UnexpectedEof)
        } else {
            ProgressView::Wait
        },
    }
}

/// What is settled stays settled: once the request is whole, or its request
/// line is found malformed, bytes that come in later change nothing.
pub proof fn lemma_progress_settles(
    received: Seq<u8>,
    closed: bool,
    more: Seq<u8>,
    closed_later: bool,
)
    requires
        progress(received, closed) is Ready || progress(received, closed) == ProgressView::Abort(
            ConnectionError::MalformedRequestLine,
        ),
    ensures
        progress(received + more, closed_later) == progress(received, closed),
{
    lemma_parse_extends(received, more, 0);
}

/// Looks for the request in the bytes received so far.
pub fn receive(received: &[u8], closed: bool) -> (state: Progress)
    ensures
        state@ == progress(received@, closed),
{
    let mut reader = WireReader::new(received);
    match parse_request(&mut reader) {
        Ok(request) => Progress::Ready(request),
        Err(ConnectionError::MalformedRequestLine) => Progress::Abort(
            ConnectionError::MalformedRequestLine,
        ),
        Err(ConnectionError::UnexpectedEof) => if closed {
            Progress::Abort(ConnectionError::UnexpectedEof)
        } else {
            Progress::Wait
        },
    }
}

} // verus!
