//! A small HTTP/1.1 server as a library: the request parser, the router and
//! the response writer, each with a contract that Verus proves.
//!
//! The library works on bytes and touches neither socket nor file. A caller
//! reads a connection until [`request::head_length`] finds the end of the
//! head, parses what it has read with [`request::parse_request`], and lets
//! the request's [`body::BodyReader`] take what is still to come of a body.
//! [`router::route`] then says what has to be done: send a response, or read
//! or write a file and answer by how that went. The responses are built by
//! the functions of [`response`].
//!
//! What a function returns is stated over plain sequences of bytes: `parsed`
//! in [`request`] says what a sequence of bytes parses to, and `routed` in
//! [`router`] what a request leads to.

pub mod body;
pub mod bytes;
pub mod config;
pub mod headers;
pub mod laws;
pub mod number;
pub mod request;
pub mod response;
pub mod router;
