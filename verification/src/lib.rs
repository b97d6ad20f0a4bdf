//! The protocol engine of a small HTTP/1.1 server.
//!
//! A connection delivers bytes. `connection::receive` says whether they hold
//! a whole request, `router::handle_request` decides what is to be done for
//! it, and `Response::to_bytes` gives the bytes to send back. The engine
//! performs no input or output: where a route needs a file, it names the
//! operation, and makes the response from what the caller reports of it.
//!
//! Every function states what it computes over a model of its data: bytes
//! are sequences, headers are a map, and the parser and the router are
//! functions on them. `guarantees` and `framing` hold what follows for a
//! client.

pub mod bytes;
pub mod connection;
pub mod decimal;
pub mod encoding;
pub mod framing;
pub mod guarantees;
pub mod headers;
pub mod request;
pub mod response;
pub mod router;
pub mod wire;
