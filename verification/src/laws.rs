//! What holds of the parser, the router and the writer, whatever the bytes.

use crate::body::BodyModel;
use crate::bytes::{
    byte_position, crlf, is_space, lemma_byte_position_from, lemma_byte_position_is,
    lemma_pair_position_is, pair_at, trimmed_end, trimmed_start, COLON, CR, LF, SP,
};
use crate::number::{all_digits, decimal, digits_value, is_digit, unsigned_of};
use crate::request::{
    bounded, completed, head_end, header_of, lemma_line_length, lemma_section_length,
    line_length, parsed, section_headers, section_length, with_line, ParseError, RequestModel,
    HDR_CONTENT_LENGTH, HDR_USER_AGENT,
};
use crate::response::{
    content_head, status_line, status_response, text_response, CONTENT_TYPE_FILE,
    CONTENT_TYPE_TEXT,
};
use crate::router::{
    after_prefix, base_directory, header_or_empty, joined_path, read_response, routed,
    write_response, ActionModel, ReadOutcome, WriteOutcome,
};
use vstd::prelude::*;
use vstd::string::{is_ascii_spec_bytes, StringSliceAdditionalSpecFns};

verus! {

/// Whether `s` can stand as a token of the request line: it holds no space
/// and no line feed.
pub open spec fn is_token(s: Seq<u8>) -> bool {
    forall|i: int| 0 <= i < s.len() ==> #[trigger] s[i] != SP && s[i] != LF
}

/// The bytes of a request line that gives `method` and `uri`, then after
/// one more space the bytes `tail`, and its end.
pub open spec fn request_line_bytes(method: Seq<u8>, uri: Seq<u8>, tail: Seq<u8>) -> Seq<u8> {
    method + seq![SP] + uri + seq![SP] + tail + seq![LF]
}

/// A request line of two tokens and more is split into exactly the two:
/// where `method` and `uri` are tokens and `tail` holds no line feed, the
/// line parses to `method` and `uri`, and the bytes before `rest` are the
/// whole line.
pub proof fn lemma_request_line_tokens(
    method: Seq<u8>,
    uri: Seq<u8>,
    tail: Seq<u8>,
    rest: Seq<u8>,
)
    requires
        is_token(method),
        is_token(uri),
        forall|i: int| 0 <= i < tail.len() ==> tail[i] != LF,
    ensures
        parsed(request_line_bytes(method, uri, tail) + rest) == completed(method, uri, rest),
{
    let line = request_line_bytes(method, uri, tail);
    let input = line + rest;
    let n = line.len() as int;
    let first = method.len() as int;
    let second = uri.len() as int;
    // The line feed that ends the line is the first one of the input.
    assert(n == first + second + tail.len() + 3);
    assert(input[n - 1] == LF);
    assert forall|j: int| 0 <= j < n - 1 implies input[j] != LF by {
        if j < first {
            assert(input[j] == method[j]);
        } else if first < j < first + 1 + second {
            assert(input[j] == uri[j - first - 1]);
        } else if j > first + 1 + second {
            assert(input[j] == tail[j - first - second - 2]);
        }
    }
    lemma_byte_position_is(input, LF, n - 1);
    assert(input.subrange(0, n) =~= line);
    assert(input.subrange(n, input.len() as int) =~= rest);
    // The first space of the line follows the method.
    assert(line[first] == SP);
    assert forall|j: int| 0 <= j < first implies line[j] != SP by {
        assert(line[j] == method[j]);
    }
    lemma_byte_position_is(line, SP, first);
    // The next space follows the target.
    let after = line.subrange(first + 1, n);
    assert(after[second] == SP);
    assert forall|j: int| 0 <= j < second implies after[j] != SP by {
        assert(after[j] == uri[j]);
    }
    lemma_byte_position_is(after, SP, second);
    assert(line.subrange(0, first) =~= method);
    assert(after.subrange(0, second) =~= uri);
}

/// For every request line `<method> <uri> HTTP/1.1` with its line end,
/// whatever follows it, the parser takes exactly `method` as the method and
/// `uri` as the target. The line is never malformed; the request is there
/// if and only if the headers after the line are closed by a blank line and
/// declare no length that cannot be read.
pub proof fn lemma_method_and_target(method: Seq<u8>, uri: Seq<u8>, rest: Seq<u8>)
    requires
        is_token(method),
        is_token(uri),
    ensures
        parsed(method + seq![SP] + uri + " HTTP/1.1\r\n".spec_bytes() + rest) == completed(
            method,
            uri,
            rest,
        ),
        match completed(method, uri, rest) {
            Ok(request) => request.method == method && request.uri == uri,
            Err(error) => error != ParseError::MalformedRequestLine,
        },
        completed(method, uri, rest) is Ok <==> section_length(rest) is Some && ({
            let headers = section_headers(rest, Map::empty());
            headers.contains_key(HDR_CONTENT_LENGTH.spec_bytes()) ==> unsigned_of(
                headers[HDR_CONTENT_LENGTH.spec_bytes()],
            ) is Some
        }),
{
    let version = " HTTP/1.1\r\n";
    reveal_strlit(" HTTP/1.1\r\n");
    is_ascii_spec_bytes(version);
    let tail = version.spec_bytes().subrange(1, 10);
    assert(version.spec_bytes().len() == 11);
    assert(version.spec_bytes()[0] == SP);
    assert(version.spec_bytes()[10] == LF);
    assert(version.spec_bytes() =~= seq![SP] + tail + seq![LF]);
    assert(method + seq![SP] + uri + version.spec_bytes() + rest =~= request_line_bytes(
        method,
        uri,
        tail,
    ) + rest);
    lemma_request_line_tokens(method, uri, tail, rest);
}

/// A header line `<name>: <value>` with its line end gives exactly `name`
/// and `value`, where the line neither begins nor ends in white space and
/// `name` holds no colon that a space follows.
pub proof fn lemma_header_line(name: Seq<u8>, value: Seq<u8>)
    requires
        name.len() > 0 ==> !is_space(name[0]),
        value.len() > 0,
        !is_space(value[value.len() - 1]),
        forall|j: int| 0 <= j < name.len() ==> !pair_at(name, COLON, SP, j),
    ensures
        header_of(name + seq![COLON, SP] + value + crlf()) == Some((name, value)),
{
    let text = name + seq![COLON, SP] + value;
    let line = text + crlf();
    let n = text.len() as int;
    let at = name.len() as int;
    // Nothing is trimmed at the start.
    assert(line[0] == if at > 0 { name[0] } else { COLON });
    assert(trimmed_start(line) == line);
    // The line end is trimmed, and nothing more.
    assert(line[n + 1] == LF && line[n] == CR);
    assert(line.subrange(0, n + 2) =~= line);
    assert(line.subrange(0, n + 1).subrange(0, n) =~= text);
    assert(text[n - 1] == value[value.len() - 1]);
    assert(trimmed_end(text) == text);
    assert(trimmed_end(line.subrange(0, n + 1)) == text);
    assert(trimmed_end(line) == text);
    // The first colon that a space follows is the one after the name.
    assert(pair_at(text, COLON, SP, at));
    assert forall|j: int| 0 <= j < at implies !pair_at(text, COLON, SP, j) by {
        if j + 1 < at {
            assert(text[j] == name[j] && text[j + 1] == name[j + 1]);
            assert(!pair_at(name, COLON, SP, j));
        } else {
            assert(text[j + 1] == COLON);
        }
    }
    lemma_pair_position_is(text, COLON, SP, at);
    assert(text.subrange(0, at) =~= name);
    assert(text.subrange(at + 2, n) =~= value);
}

/// A header section of the one line `<name>: <value>` maps `name` to
/// `value` and nothing else, whatever follows its blank line: the header
/// `User-Agent: curl/7.86.0` gives the value `curl/7.86.0` for the name
/// `User-Agent`.
pub proof fn lemma_section_of_one_header(name: Seq<u8>, value: Seq<u8>, body: Seq<u8>)
    requires
        name.len() > 0 ==> !is_space(name[0]),
        value.len() > 0,
        !is_space(value[value.len() - 1]),
        forall|j: int| 0 <= j < name.len() ==> !pair_at(name, COLON, SP, j),
        forall|j: int| 0 <= j < name.len() ==> name[j] != LF,
        forall|j: int| 0 <= j < value.len() ==> value[j] != LF,
    ensures
        section_length(name + seq![COLON, SP] + value + crlf() + crlf() + body) == Some(
            (name.len() + value.len() + 6) as int,
        ),
        section_headers(
            name + seq![COLON, SP] + value + crlf() + crlf() + body,
            Map::empty(),
        ) == Map::<Seq<u8>, Seq<u8>>::empty().insert(name, value),
{
    let line = name + seq![COLON, SP] + value + crlf();
    let s = line + crlf() + body;
    let n = line.len() as int;
    let at = name.len() as int;
    lemma_header_line(name, value);
    // The first line is the header line.
    assert(n == at + value.len() + 4);
    assert(s[n - 1] == LF);
    assert forall|j: int| 0 <= j < n - 1 implies s[j] != LF by {
        if j < at {
            assert(s[j] == name[j]);
        } else if at + 2 <= j < n - 2 {
            assert(s[j] == value[j - at - 2]);
        }
    }
    lemma_byte_position_is(s, LF, n - 1);
    assert(s.subrange(0, n) =~= line);
    assert(line != crlf());
    // The second line is the blank line.
    let rest = s.subrange(n, s.len() as int);
    assert(rest =~= crlf() + body);
    assert(rest[0] == CR && rest[1] == LF);
    lemma_byte_position_is(rest, LF, 1);
    assert(rest.subrange(0, 2) =~= crlf());
    assert(section_length(rest) == Some(2int));
    assert(section_headers(rest, with_line(Map::empty(), line)) == with_line(Map::empty(), line));
}

/// The body never holds more than the declared length, and holds exactly
/// that many bytes where as many follow the head. Its bytes are those that
/// follow the blank line, in their order, and what comes after them is not
/// part of it.
pub proof fn lemma_body_is_bounded(input: Seq<u8>)
    ensures
        match parsed(input) {
            Ok(request) => match request.reader {
                Some(body) => {
                    &&& head_end(input) is Some
                    &&& unsigned_of(request.headers[HDR_CONTENT_LENGTH.spec_bytes()]) == Some(
                        body.limit as u64,
                    )
                    &&& body.limit <= u64::MAX
                    &&& body.data.len() <= body.limit
                    &&& head_end(input)->0 + body.data.len() <= input.len()
                    &&& body.data == input.subrange(
                        head_end(input)->0,
                        head_end(input)->0 + body.data.len(),
                    )
                    &&& (input.len() - head_end(input)->0 >= body.limit ==> body.data.len()
                        == body.limit)
                },
                None => !request.headers.contains_key(HDR_CONTENT_LENGTH.spec_bytes()),
            },
            Err(_) => true,
        },
{
    let n = line_length(input);
    lemma_line_length(input);
    let rest = input.subrange(n, input.len() as int);
    lemma_section_length(rest);
    if parsed(input) is Ok && parsed(input)->Ok_0.reader is Some {
        let m = section_length(rest)->0;
        let body = parsed(input)->Ok_0.reader->0;
        assert(rest.subrange(m, rest.len() as int) =~= input.subrange(
            n + m,
            input.len() as int,
        ));
        assert(body.data =~= input.subrange(n + m, n + m + body.data.len()));
    }
}

/// What a request becomes when the bytes `more` arrive after those it was
/// parsed from: its body takes the bytes of `more` that belong to it, and
/// nothing else changes.
pub open spec fn after_more(request: RequestModel, more: Seq<u8>) -> RequestModel {
    RequestModel {
        method: request.method,
        uri: request.uri,
        headers: request.headers,
        reader: match request.reader {
            Some(body) => Some(body.filled(more)),
            None => None,
        },
    }
}

/// Bytes after the end of a line do not change the line: where `s` holds a
/// line feed, the first line of `s` followed by `more` is that of `s`.
pub proof fn lemma_line_is_closed(s: Seq<u8>, more: Seq<u8>)
    requires
        byte_position(s, LF) < s.len(),
    ensures
        line_length(s + more) == line_length(s),
        (s + more).subrange(0, line_length(s)) == s.subrange(0, line_length(s)),
        (s + more).subrange(line_length(s), (s + more).len() as int) == s.subrange(
            line_length(s),
            s.len() as int,
        ) + more,
{
    let p = byte_position(s, LF);
    lemma_byte_position_from(s, LF, 0);
    assert((s + more)[p] == LF);
    assert forall|j: int| 0 <= j < p implies (s + more)[j] != LF by {
        assert((s + more)[j] == s[j]);
    }
    lemma_byte_position_is(s + more, LF, p);
    assert((s + more).subrange(0, p + 1) =~= s.subrange(0, p + 1));
    assert((s + more).subrange(p + 1, (s + more).len() as int) =~= s.subrange(
        p + 1,
        s.len() as int,
    ) + more);
}

/// Bytes after the blank line do not change the header section: where `s`
/// holds a closed section, `s` followed by `more` holds the same section
/// with the same headers.
pub proof fn lemma_section_is_closed(
    s: Seq<u8>,
    more: Seq<u8>,
    headers: Map<Seq<u8>, Seq<u8>>,
)
    requires
        section_length(s) is Some,
    ensures
        section_length(s + more) == section_length(s),
        section_headers(s + more, headers) == section_headers(s, headers),
    decreases s.len(),
{
    lemma_line_length(s);
    lemma_byte_position_from(s, LF, 0);
    let n = line_length(s);
    let rest = s.subrange(n, s.len() as int);
    if s.subrange(0, n) == crlf() {
        // The first line is the blank line, so it ends in a line feed.
        assert(crlf().len() == 2 && crlf()[1] == LF);
        assert(n == 2 && s[1] == s.subrange(0, n)[1]);
        assert(byte_position(s, LF) < s.len());
        lemma_line_is_closed(s, more);
    } else {
        // The section goes on after the first line, so that line is closed.
        lemma_section_length(rest);
        assert(n < s.len());
        assert(byte_position(s, LF) < s.len());
        lemma_line_is_closed(s, more);
        lemma_section_is_closed(rest, more, with_line(headers, s.subrange(0, n)));
    }
}

/// Once the head of a request is there, the bytes that arrive later only
/// complete the body. Parsing the longer input gives the request that the
/// shorter one gave, with the body filled from the later bytes; an input
/// that was refused stays refused for the same reason; and the head ends
/// where it ended.
pub proof fn lemma_later_bytes(input: Seq<u8>, more: Seq<u8>)
    requires
        head_end(input) is Some,
    ensures
        head_end(input + more) == head_end(input),
        parsed(input + more) == match parsed(input) {
            Ok(request) => Ok::<RequestModel, ParseError>(after_more(request, more)),
            Err(error) => Err::<RequestModel, ParseError>(error),
        },
{
    lemma_line_length(input);
    lemma_byte_position_from(input, LF, 0);
    let n = line_length(input);
    let rest = input.subrange(n, input.len() as int);
    // The head goes on after the request line, so that line is closed.
    lemma_section_length(rest);
    assert(n < input.len());
    assert(byte_position(input, LF) < input.len());
    lemma_line_is_closed(input, more);
    lemma_section_is_closed(rest, more, Map::empty());
    // What follows the head is what followed it, and then the later bytes.
    let m = section_length(rest)->0;
    let body = rest.subrange(m, rest.len() as int);
    assert((rest + more).subrange(m, (rest + more).len() as int) =~= body + more);
    assert forall|limit: nat|
        bounded(body + more, limit) == (BodyModel { limit, data: bounded(body, limit) }).filled(
            more,
        ).data by {
        let held = BodyModel { limit, data: bounded(body, limit) };
        assert(bounded(body + more, limit) =~= held.data + more.subrange(0, held.accepted(more)));
    }
}

/// The response to `GET /echo/<s>` is the text response with the body `s`,
/// whatever else the request holds and whatever is configured. So a request
/// that is repeated gets the same bytes again, and so do two requests that
/// agree on `s`.
pub proof fn lemma_echo_repeats(
    first: RequestModel,
    second: RequestModel,
    first_directory: Option<String>,
    second_directory: Option<String>,
    s: Seq<u8>,
)
    requires
        first.method == "GET".spec_bytes(),
        second.method == "GET".spec_bytes(),
        first.uri == "/echo/".spec_bytes() + s,
        second.uri == "/echo/".spec_bytes() + s,
    ensures
        routed(first, first_directory) == ActionModel::Respond(text_response(s)),
        routed(second, second_directory) == routed(first, first_directory),
{
    let prefix = "/echo/".spec_bytes();
    let uri = prefix + s;
    reveal_strlit("/echo/");
    reveal_strlit("/");
    reveal_strlit("/user-agent");
    is_ascii_spec_bytes("/echo/");
    is_ascii_spec_bytes("/");
    is_ascii_spec_bytes("/user-agent");
    assert(prefix.len() == 6 && "/".spec_bytes().len() == 1);
    assert(uri[1] == prefix[1]);
    assert(uri[1] != "/user-agent".spec_bytes()[1]);
    assert(uri.subrange(0, prefix.len() as int) =~= prefix);
    assert(after_prefix(uri, prefix) =~= s);
}

/// A file that is stored is served from where it was stored, byte for
/// byte. `POST /files/<name>` with a body asks to write the body to a path,
/// and is answered with 201 once it is written; `GET /files/<name>` asks to
/// read the same path, and the response to what is found there ends in
/// exactly the bytes found, with their number as the declared length.
pub proof fn lemma_stored_file_is_served(
    post: RequestModel,
    get: RequestModel,
    directory: Option<String>,
    name: Seq<u8>,
    content: Vec<u8>,
)
    requires
        post.method == "POST".spec_bytes(),
        post.uri == "/files/".spec_bytes() + name,
        post.reader is Some,
        get.method == "GET".spec_bytes(),
        get.uri == "/files/".spec_bytes() + name,
    ensures
        routed(post, directory) == ActionModel::WriteFile(
            joined_path(base_directory(directory), name),
            post.reader->0,
        ),
        write_response(WriteOutcome::Written) == Some(
            status_response(201, "Created".spec_bytes()),
        ),
        routed(get, directory) == ActionModel::ReadFile(
            joined_path(base_directory(directory), name),
        ),
        read_response(ReadOutcome::Found(content)) == Some(
            content_head(CONTENT_TYPE_FILE.spec_bytes(), content@.len()) + content@,
        ),
{
    let prefix = "/files/".spec_bytes();
    let uri = prefix + name;
    reveal_strlit("/files/");
    reveal_strlit("/echo/");
    reveal_strlit("/");
    reveal_strlit("/user-agent");
    reveal_strlit("GET");
    reveal_strlit("POST");
    is_ascii_spec_bytes("/files/");
    is_ascii_spec_bytes("/echo/");
    is_ascii_spec_bytes("/");
    is_ascii_spec_bytes("/user-agent");
    is_ascii_spec_bytes("GET");
    is_ascii_spec_bytes("POST");
    assert("GET".spec_bytes()[0] != "POST".spec_bytes()[0]);
    assert(prefix.len() == 7 && "/".spec_bytes().len() == 1);
    assert(uri[1] == prefix[1]);
    assert(uri[1] != "/user-agent".spec_bytes()[1]);
    assert(uri[1] != "/echo/".spec_bytes()[1]);
    assert(uri.subrange(0, prefix.len() as int) =~= prefix);
    assert(after_prefix(uri, prefix) =~= name);
}

/// Whether `bytes` begins with a status line: the protocol version, a
/// code, a reason phrase and the line's end.
pub open spec fn begins_with_status_line(bytes: Seq<u8>) -> bool {
    exists|code: nat, reason: Seq<u8>| (#[trigger] status_line(code, reason)).is_prefix_of(bytes)
}

/// What `status_line` is the start of: every sequence that it is followed
/// by.
pub proof fn lemma_status_line_first(code: nat, reason: Seq<u8>, rest: Seq<u8>)
    ensures
        begins_with_status_line(status_line(code, reason) + rest),
{
    let line = status_line(code, reason);
    assert((line + rest).subrange(0, line.len() as int) =~= line);
    assert(line.is_prefix_of(line + rest));
}

/// Every response begins with a status line, on the error paths too: the
/// response that routing gives at once, whatever the request, and the
/// response to a file that was read or written, however that went.
pub proof fn lemma_responses_begin_with_a_status_line(
    request: RequestModel,
    directory: Option<String>,
    read: ReadOutcome,
    write: WriteOutcome,
)
    ensures
        routed(request, directory) matches ActionModel::Respond(bytes)
            ==> begins_with_status_line(bytes),
        read_response(read) matches Some(bytes) ==> begins_with_status_line(bytes),
        write_response(write) matches Some(bytes) ==> begins_with_status_line(bytes),
{
    let ok = "OK".spec_bytes();
    assert forall|code: nat, reason: Seq<u8>|
        begins_with_status_line(#[trigger] status_response(code, reason)) by {
        lemma_status_line_first(code, reason, crlf());
    }
    assert forall|kind: Seq<u8>, length: nat, rest: Seq<u8>|
        begins_with_status_line(#[trigger] (content_head(kind, length) + rest)) by {
        let tail = "Content-Type: ".spec_bytes() + kind + crlf() + "Content-Length: ".spec_bytes()
            + decimal(length) + crlf() + crlf() + rest;
        assert(content_head(kind, length) + rest =~= status_line(200, ok) + tail);
        lemma_status_line_first(200, ok, tail);
    }
    if let ActionModel::Respond(bytes) = routed(request, directory) {
        let agent = header_or_empty(request.headers, HDR_USER_AGENT.spec_bytes());
        let echo = after_prefix(request.uri, "/echo/".spec_bytes());
        let kind = CONTENT_TYPE_TEXT.spec_bytes();
        assert(text_response(agent) =~= content_head(kind, agent.len()) + (agent + crlf()));
        assert(text_response(echo) =~= content_head(kind, echo.len()) + (echo + crlf()));
    }
}

/// A request to store a file that declares no body is answered, like every
/// request: with 400, at once, whatever the directory and the name.
pub proof fn lemma_post_without_body_is_answered(
    request: RequestModel,
    directory: Option<String>,
)
    requires
        request.method == "POST".spec_bytes(),
        "/files/".spec_bytes().is_prefix_of(request.uri),
        request.reader is None,
    ensures
        routed(request, directory) == ActionModel::Respond(
            status_response(400, "Bad Request".spec_bytes()),
        ),
{
    reveal_strlit("GET");
    reveal_strlit("POST");
    is_ascii_spec_bytes("GET");
    is_ascii_spec_bytes("POST");
    assert("GET".spec_bytes()[0] != "POST".spec_bytes()[0]);
}

/// The decimal form of a number is made of digits, one at least, and
/// denotes that number.
pub proof fn lemma_decimal_digits(n: nat)
    ensures
        decimal(n).len() > 0,
        all_digits(decimal(n)),
        digits_value(decimal(n)) == n,
    decreases n,
{
    if n < 10 {
        let d = decimal(n);
        assert(d.drop_last() =~= Seq::<u8>::empty());
        assert(digits_value(d.drop_last()) == 0);
    } else {
        lemma_decimal_digits(n / 10);
        let d = decimal(n);
        assert(d.drop_last() =~= decimal(n / 10));
        assert forall|i: int| 0 <= i < d.len() implies is_digit(#[trigger] d[i]) by {
            if i < d.len() - 1 {
                assert(d[i] == decimal(n / 10)[i]);
            }
        }
    }
}

/// A number that fits in 64 bits is read back from its decimal form: what
/// the writer declares as a length is the length that the parser reads.
pub proof fn lemma_decimal_round_trip(n: nat)
    requires
        n <= u64::MAX,
    ensures
        unsigned_of(decimal(n)) == Some(n as u64),
{
    lemma_decimal_digits(n);
    assert(is_digit(decimal(n)[0]));
}

} // verus!
