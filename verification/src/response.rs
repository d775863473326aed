//! The response writer: status line, content headers and body as wire bytes.

use crate::bytes::{append_bytes, crlf, CR, LF, SP};
use crate::number::{append_decimal, decimal};
use vstd::prelude::*;
use vstd::string::StringSliceAdditionalSpecFns;

verus! {

/// The media type of a text body.
pub const CONTENT_TYPE_TEXT: &'static str = "text/plain";

/// The media type of a file's bytes.
pub const CONTENT_TYPE_FILE: &'static str = "application/octet-stream";

/// The status line for `code` and `reason`: the protocol version, the code
/// in decimal, the reason phrase, each parted from the next by one space,
/// and the line's end.
pub open spec fn status_line(code: nat, reason: Seq<u8>) -> Seq<u8> {
    "HTTP/1.1 ".spec_bytes() + decimal(code) + seq![SP] + reason + crlf()
}

/// A response without a body: the status line and the blank line, and no
/// content header.
pub open spec fn status_response(code: nat, reason: Seq<u8>) -> Seq<u8> {
    status_line(code, reason) + crlf()
}

/// The head of a response that carries a body of `content_length` bytes of
/// type `content_type`: the status line of success, the two content
/// headers, and the blank line.
pub open spec fn content_head(content_type: Seq<u8>, content_length: nat) -> Seq<u8> {
    status_line(200, "OK".spec_bytes()) + "Content-Type: ".spec_bytes() + content_type + crlf()
        + "Content-Length: ".spec_bytes() + decimal(content_length) + crlf() + crlf()
}

/// A text response: the head for `text/plain` with the length of `content`,
/// then `content`, then one more line end, which the length does not count.
pub open spec fn text_response(content: Seq<u8>) -> Seq<u8> {
    content_head(CONTENT_TYPE_TEXT.spec_bytes(), content.len()) + content + crlf()
}

/// A file response: the head for `application/octet-stream` with the length
/// of `content`, then exactly the bytes of `content`.
pub open spec fn file_response(content: Seq<u8>) -> Seq<u8> {
    content_head(CONTENT_TYPE_FILE.spec_bytes(), content.len()) + content
}

/// Puts a line end at the end of `dst`.
fn append_crlf(dst: &mut Vec<u8>)
    ensures
        final(dst)@ == old(dst)@ + crlf(),
{
    dst.push(CR);
    dst.push(LF);
}

/// Puts the status line for `code` and `reason` at the end of `dst`.
fn append_status_line(dst: &mut Vec<u8>, code: u32, reason: &str)
    ensures
        final(dst)@ == old(dst)@ + status_line(code as nat, reason.spec_bytes()),
{
    append_bytes(dst, "HTTP/1.1 ".as_bytes());
    append_decimal(dst, code as u64);
    dst.push(SP);
    append_bytes(dst, reason.as_bytes());
    append_crlf(dst);
}

/// The bytes of a response that has a status and no body.
pub fn write_status(code: u32, message: &str) -> (buffer: Vec<u8>)
    ensures
        buffer@ == status_response(code as nat, message.spec_bytes()),
{
    let mut buffer: Vec<u8> = Vec::new();
    append_status_line(&mut buffer, code, message);
    append_crlf(&mut buffer);
    buffer
}

/// Puts the head of a successful response with a body at the end of
/// `lines`: status line, content type, content length, blank line.
pub fn write_header(lines: &mut Vec<u8>, content_type: &str, content_length: usize)
    ensures
        final(lines)@ == old(lines)@ + content_head(
            content_type.spec_bytes(),
            content_length as nat,
        ),
{
    append_status_line(lines, 200, "OK");
    append_bytes(lines, "Content-Type: ".as_bytes());
    append_bytes(lines, content_type.as_bytes());
    append_crlf(lines);
    append_bytes(lines, "Content-Length: ".as_bytes());
    append_decimal(lines, content_length as u64);
    append_crlf(lines);
    append_crlf(lines);
}

/// Puts a text response with the body `content` at the end of `lines`.
pub fn write_text(lines: &mut Vec<u8>, content: &[u8])
    ensures
        final(lines)@ == old(lines)@ + text_response(content@),
{
    write_header(lines, CONTENT_TYPE_TEXT, content.len());
    append_bytes(lines, content);
    append_crlf(lines);
}

/// Puts a file response with the body `content` at the end of `buffer`.
pub fn write_file(buffer: &mut Vec<u8>, content: &[u8])
    ensures
        final(buffer)@ == old(buffer)@ + file_response(content@),
{
    write_header(buffer, CONTENT_TYPE_FILE, content.len());
    append_bytes(buffer, content);
}

} // verus!
