//! The request parser: from the bytes of a connection to a request.

use crate::body::{BodyModel, BodyReader};
use crate::bytes::{
    byte_position, crlf, find_byte, find_pair, lemma_byte_position_from, pair_position, trim,
    trimmed, COLON, CR, LF, SP,
};
use crate::headers::Headers;
use crate::number::{parse_unsigned, unsigned_of};
use vstd::prelude::*;
use vstd::slice::{slice_subrange, slice_to_vec};
use vstd::string::StringSliceAdditionalSpecFns;

verus! {

/// The header that declares the length of the body.
pub const HDR_CONTENT_LENGTH: &'static str = "Content-Length";

/// The header that names the client.
pub const HDR_USER_AGENT: &'static str = "User-Agent";

/// Why a sequence of bytes is not a request.
#[derive(Debug, Clone, Copy, PartialEq, Eq)]
pub enum ParseError {
    /// The request line holds no space, so it has fewer than two tokens.
    MalformedRequestLine,
    /// The bytes end before the blank line that closes the headers.
    UnterminatedHead,
    /// The value of `Content-Length` is not an unsigned decimal number of
    /// at most 64 bits.
    InvalidContentLength,
}

/// What a request is in contracts.
pub struct RequestModel {
    pub method: Seq<u8>,
    pub uri: Seq<u8>,
    pub headers: Map<Seq<u8>, Seq<u8>>,
    pub reader: Option<BodyModel>,
}

/// A request: the method and the target of its request line, its headers,
/// and its body where a length was declared for one.
#[derive(Debug)]
pub struct HttpRequest {
    pub method: Vec<u8>,
    pub uri: Vec<u8>,
    pub headers: Headers,
    pub reader: Option<BodyReader>,
}

/// The view of a body that may be absent.
pub open spec fn reader_view(reader: Option<BodyReader>) -> Option<BodyModel> {
    match reader {
        Some(r) => Some(r@),
        None => None,
    }
}

impl View for HttpRequest {
    type V = RequestModel;

    open spec fn view(&self) -> RequestModel {
        RequestModel {
            method: self.method@,
            uri: self.uri@,
            headers: self.headers@,
            reader: reader_view(self.reader),
        }
    }
}

impl HttpRequest {
    /// A request for `method` and `uri` without headers.
    pub fn new(method: &[u8], uri: &[u8], reader: Option<BodyReader>) -> (request: HttpRequest)
        ensures
            request@ == (RequestModel {
                method: method@,
                uri: uri@,
                headers: Map::<Seq<u8>, Seq<u8>>::empty(),
                reader: reader_view(reader),
            }),
    {
        HttpRequest {
            method: slice_to_vec(method),
            uri: slice_to_vec(uri),
            headers: Headers::new(),
            reader,
        }
    }
}

/// The length of the first line of `s`: it reaches to the first line feed
/// and includes it, or is all of `s` where `s` holds no line feed.
pub open spec fn line_length(s: Seq<u8>) -> int {
    let p = byte_position(s, LF);
    if p < s.len() {
        p + 1
    } else {
        s.len() as int
    }
}

/// The first line of a sequence that is not empty is not empty, and no
/// longer than the sequence.
pub proof fn lemma_line_length(s: Seq<u8>)
    ensures
        0 <= line_length(s) <= s.len(),
        s.len() > 0 ==> line_length(s) > 0,
{
    lemma_byte_position_from(s, LF, 0);
}

/// The method and the target of the request line `line`, which is split
/// at single spaces: the method is what stands before the first space, the
/// target what stands between the first space and the second. In a line of
/// two tokens there is no second space, and the target reaches to the end
/// of the line, its line end included. `None` where `line` holds no space.
pub open spec fn request_line(line: Seq<u8>) -> Option<(Seq<u8>, Seq<u8>)> {
    let first = byte_position(line, SP);
    if first < line.len() {
        let rest = line.subrange(first + 1, line.len() as int);
        Some((line.subrange(0, first), rest.subrange(0, byte_position(rest, SP))))
    } else {
        None
    }
}

/// The name and the value that the header line `line` gives: the line
/// without the white space at its ends is split at its first colon that a
/// space follows; the name is what stands before the colon, the value what
/// stands after the space. `None` where no colon is followed by a space.
pub open spec fn header_of(line: Seq<u8>) -> Option<(Seq<u8>, Seq<u8>)> {
    let text = trimmed(line);
    let at = pair_position(text, COLON, SP);
    if at < text.len() {
        Some((text.subrange(0, at), text.subrange(at + 2, text.len() as int)))
    } else {
        None
    }
}

/// `headers` after the header line `line`: the line's value is set for its
/// name, in place of an earlier value for that name; a line that gives no
/// header changes nothing.
pub open spec fn with_line(headers: Map<Seq<u8>, Seq<u8>>, line: Seq<u8>) -> Map<
    Seq<u8>,
    Seq<u8>,
> {
    match header_of(line) {
        Some((name, value)) => headers.insert(name, value),
        None => headers,
    }
}

/// The length of the header section at the start of `s`: the lines up to
/// the first one that is exactly a carriage return and a line feed, that
/// line included. `None` where `s` ends before such a line.
pub open spec fn section_length(s: Seq<u8>) -> Option<int>
    decreases s.len(),
{
    if s.len() == 0 {
        None
    } else {
        let n = line_length(s);
        if s.subrange(0, n) == crlf() {
            Some(n)
        } else {
            proof {
                lemma_line_length(s);
            }
            match section_length(s.subrange(n, s.len() as int)) {
                Some(m) => Some(n + m),
                None => None,
            }
        }
    }
}

/// The headers that the header section at the start of `s` adds to
/// `headers`, line by line, up to the blank line or the end of `s`.
pub open spec fn section_headers(s: Seq<u8>, headers: Map<Seq<u8>, Seq<u8>>) -> Map<
    Seq<u8>,
    Seq<u8>,
>
    decreases s.len(),
{
    if s.len() == 0 {
        headers
    } else {
        let n = line_length(s);
        if s.subrange(0, n) == crlf() {
            headers
        } else {
            proof {
                lemma_line_length(s);
            }
            section_headers(s.subrange(n, s.len() as int), with_line(headers, s.subrange(0, n)))
        }
    }
}

/// The first `limit` bytes of `rest`, or all of `rest` where it is no
/// longer than that.
pub open spec fn bounded(rest: Seq<u8>, limit: nat) -> Seq<u8> {
    if rest.len() <= limit {
        rest
    } else {
        rest.subrange(0, limit as int)
    }
}

/// The request with the given method and target that `rest`, the bytes
/// after the request line, completes.
pub open spec fn completed(method: Seq<u8>, uri: Seq<u8>, rest: Seq<u8>) -> Result<
    RequestModel,
    ParseError,
> {
    match section_length(rest) {
        None => Err(ParseError::UnterminatedHead),
        Some(n) => {
            let headers = section_headers(rest, Map::empty());
            let length = HDR_CONTENT_LENGTH.spec_bytes();
            if !headers.contains_key(length) {
                Ok(RequestModel { method, uri, headers, reader: None })
            } else {
                match unsigned_of(headers[length]) {
                    None => Err(ParseError::InvalidContentLength),
                    Some(limit) => Ok(
                        RequestModel {
                            method,
                            uri,
                            headers,
                            reader: Some(
                                BodyModel {
                                    limit: limit as nat,
                                    data: bounded(
                                        rest.subrange(n, rest.len() as int),
                                        limit as nat,
                                    ),
                                },
                            ),
                        },
                    ),
                }
            }
        },
    }
}

/// What the bytes `input` of a connection parse to.
///
/// The first line is the request line. The lines after it are header
/// lines, up to the blank line; a header that repeats keeps its last value.
/// Where `Content-Length` is among the headers, the body is what follows
/// the blank line, cut off at the declared length; else there is no body.
pub open spec fn parsed(input: Seq<u8>) -> Result<RequestModel, ParseError> {
    let n = line_length(input);
    match request_line(input.subrange(0, n)) {
        None => Err(ParseError::MalformedRequestLine),
        Some((method, uri)) => completed(method, uri, input.subrange(n, input.len() as int)),
    }
}

/// Where the head of the request in `input` ends: the number of bytes up
/// to the blank line after the request line, that line included. `None`
/// where `input` ends before such a line.
pub open spec fn head_end(input: Seq<u8>) -> Option<int> {
    let n = line_length(input);
    match section_length(input.subrange(n, input.len() as int)) {
        Some(m) => Some(n + m),
        None => None,
    }
}

/// A header section that is closed is not longer than the bytes it is
/// found in.
pub proof fn lemma_section_length(s: Seq<u8>)
    ensures
        section_length(s) matches Some(n) ==> 0 < n <= s.len(),
    decreases s.len(),
{
    if s.len() > 0 {
        lemma_line_length(s);
        let n = line_length(s);
        if s.subrange(0, n) != crlf() {
            lemma_section_length(s.subrange(n, s.len() as int));
        }
    }
}

/// The length of the first line of `s`.
fn first_line_length(s: &[u8]) -> (n: usize)
    ensures
        n == line_length(s@),
        n <= s.len(),
        s.len() > 0 ==> n > 0,
{
    let p = find_byte(s, LF);
    if p < s.len() {
        p + 1
    } else {
        s.len()
    }
}

/// Splits the request line `line` into its method and its target.
fn split_request_line(line: &[u8]) -> (tokens: Option<(&[u8], &[u8])>)
    ensures
        match tokens {
            Some((method, uri)) => request_line(line@) == Some((method@, uri@)),
            None => request_line(line@) is None,
        },
{
    let first = find_byte(line, SP);
    if first < line.len() {
        let rest = slice_subrange(line, first + 1, line.len());
        let second = find_byte(rest, SP);
        Some((slice_subrange(line, 0, first), slice_subrange(rest, 0, second)))
    } else {
        None
    }
}

/// Splits the header line `line` into its name and its value.
fn split_header(line: &[u8]) -> (header: Option<(&[u8], &[u8])>)
    ensures
        match header {
            Some((name, value)) => header_of(line@) == Some((name@, value@)),
            None => header_of(line@) is None,
        },
{
    let text = trim(line);
    let at = find_pair(text, COLON, SP);
    if at < text.len() {
        Some((slice_subrange(text, 0, at), slice_subrange(text, at + 2, text.len())))
    } else {
        None
    }
}

/// Whether `line` is exactly a carriage return and a line feed.
fn is_blank(line: &[u8]) -> (r: bool)
    ensures
        r == (line@ == crlf()),
{
    let r = line.len() == 2 && line[0] == CR && line[1] == LF;
    assert(r == (line@ =~= crlf()));
    r
}

/// Where the head of the request in `input` ends, if all of it is there:
/// the offset of the first byte after the blank line.
pub fn head_length(input: &[u8]) -> (end: Option<usize>)
    ensures
        match end {
            Some(n) => head_end(input@) == Some(n as int) && n <= input.len(),
            None => head_end(input@) is None,
        },
{
    let start = first_line_length(input);
    let mut pos: usize = start;
    let ghost section = input@.subrange(start as int, input.len() as int);
    assert(section.len() == input.len() - start);
    while pos < input.len()
        invariant
            start <= pos <= input.len(),
            start == line_length(input@),
            section == input@.subrange(start as int, input.len() as int),
            section_length(section) == match section_length(
                input@.subrange(pos as int, input.len() as int),
            ) {
                Some(m) => Some(pos - start + m),
                None => None,
            },
        decreases input.len() - pos,
    {
        let rest = slice_subrange(input, pos, input.len());
        let n = first_line_length(rest);
        let line = slice_subrange(rest, 0, n);
        proof {
            assert(rest@.subrange(n as int, rest@.len() as int) =~= input@.subrange(
                pos + n,
                input.len() as int,
            ));
        }
        if is_blank(line) {
            return Some(pos + n);
        }
        pos += n;
    }
    None
}

/// Parses the bytes `input` of a connection into a request.
///
/// A body that `input` holds only in part is held in part: the reader then
/// says how many bytes are missing, and takes them when they arrive.
pub fn parse_request(input: &[u8]) -> (result: Result<HttpRequest, ParseError>)
    ensures
        match result {
            Ok(request) => parsed(input@) == Ok::<RequestModel, ParseError>(request@),
            Err(error) => parsed(input@) == Err::<RequestModel, ParseError>(error),
        },
{
    let start = first_line_length(input);
    let (method, uri) = match split_request_line(slice_subrange(input, 0, start)) {
        Some(tokens) => tokens,
        None => {
            return Err(ParseError::MalformedRequestLine);
        },
    };
    let mut headers = Headers::new();
    let mut pos: usize = start;
    let mut body_start: Option<usize> = None;
    let ghost section = input@.subrange(start as int, input.len() as int);
    assert(section.len() == input.len() - start);
    while pos < input.len()
        invariant_except_break
            body_start is None,
            section_length(section) == match section_length(
                input@.subrange(pos as int, input.len() as int),
            ) {
                Some(m) => Some(pos - start + m),
                None => None,
            },
            section_headers(section, Map::empty()) == section_headers(
                input@.subrange(pos as int, input.len() as int),
                headers@,
            ),
        invariant
            start <= pos <= input.len(),
            section == input@.subrange(start as int, input.len() as int),
        ensures
            start <= pos <= input.len(),
            match body_start {
                Some(b) => pos <= b <= input.len() && section_length(section) == Some(b - start),
                None => section_length(section) is None,
            },
            section_headers(section, Map::empty()) == headers@,
        decreases input.len() - pos,
    {
        let rest = slice_subrange(input, pos, input.len());
        let n = first_line_length(rest);
        let line = slice_subrange(rest, 0, n);
        proof {
            assert(rest@.subrange(n as int, rest@.len() as int) =~= input@.subrange(
                pos + n,
                input.len() as int,
            ));
        }
        if is_blank(line) {
            body_start = Some(pos + n);
            break;
        }
        match split_header(line) {
            Some((name, value)) => {
                headers.insert(slice_to_vec(name), slice_to_vec(value));
            },
            None => {},
        }
        pos += n;
    }
    let body_start = match body_start {
        Some(b) => b,
        None => {
            return Err(ParseError::UnterminatedHead);
        },
    };
    let reader = match headers.get(HDR_CONTENT_LENGTH.as_bytes()) {
        None => None,
        Some(value) => match parse_unsigned(value.as_slice()) {
            None => {
                return Err(ParseError::InvalidContentLength);
            },
            Some(limit) => {
                let mut reader = BodyReader::new(limit);
                reader.fill(slice_subrange(input, body_start, input.len()));
                assert(reader@.data =~= bounded(
                    section.subrange(body_start - start, section.len() as int),
                    limit as nat,
                ));
                Some(reader)
            },
        },
    };
    let mut request = HttpRequest::new(method, uri, reader);
    request.headers = headers;
    Ok(request)
}

} // verus!
