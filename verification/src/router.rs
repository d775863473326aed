//! The router: from a request to what has to be done for it.
//!
//! Routing decides; it touches no file. Where a request asks for a file the
//! router names the step, the caller takes the step and reports how it
//! went, and the router says what is answered.

use crate::body::{BodyModel, BodyReader};
use crate::bytes::{append_bytes, bytes_eq, starts_with};
use crate::request::{HttpRequest, RequestModel, HDR_USER_AGENT};
use crate::response::{
    file_response, status_response, text_response, write_file, write_status, write_text,
};
use vstd::prelude::*;
use vstd::slice::slice_subrange;
use vstd::string::StringSliceAdditionalSpecFns;
use vstd::utf8::encode_utf8;

verus! {

/// The byte that parts the components of a path.
pub const SLASH: u8 = 47;

/// What has to be done for a request.
#[derive(Debug)]
pub enum Action {
    /// Send these bytes as the response.
    Respond(Vec<u8>),
    /// Read the file at this path, and answer with `respond_to_read`.
    ReadFile(Vec<u8>),
    /// Write the body to the file at this path, which is made or cut to
    /// nothing first, and answer with `respond_to_write`.
    WriteFile(Vec<u8>, BodyReader),
}

/// What an `Action` is in contracts.
pub enum ActionModel {
    Respond(Seq<u8>),
    ReadFile(Seq<u8>),
    WriteFile(Seq<u8>, BodyModel),
}

impl View for Action {
    type V = ActionModel;

    open spec fn view(&self) -> ActionModel {
        match *self {
            Action::Respond(bytes) => ActionModel::Respond(bytes@),
            Action::ReadFile(path) => ActionModel::ReadFile(path@),
            Action::WriteFile(path, body) => ActionModel::WriteFile(path@, body@),
        }
    }
}

/// How reading a file went.
#[derive(Debug)]
pub enum ReadOutcome {
    /// The path names a regular file, and these are its bytes.
    Found(Vec<u8>),
    /// Nothing is at the path.
    Missing,
    /// The path names a directory.
    Directory,
    /// Reading failed for another reason.
    Failed,
}

/// How writing a file went.
#[derive(Debug, Clone, Copy)]
pub enum WriteOutcome {
    /// The file holds the body.
    Written,
    /// The directory that should hold the file is not there.
    MissingParent,
    /// Writing failed for another reason.
    Failed,
}

/// The directory that file names are taken under: the configured one, or
/// the current directory where none is configured.
pub open spec fn base_directory(directory: Option<String>) -> Seq<u8> {
    match directory {
        Some(dir) => encode_utf8(dir@),
        None => ".".spec_bytes(),
    }
}

/// The path of `name` under `dir`, joined as paths are. A name that starts
/// at the root stands for itself. Every other name follows the directory,
/// with one separator between the two unless the directory is empty or
/// ends in a separator. The name is used as it is: nothing is normalised,
/// and a name that climbs out of the directory is not refused.
pub open spec fn joined_path(dir: Seq<u8>, name: Seq<u8>) -> Seq<u8> {
    if name.len() > 0 && name[0] == SLASH {
        name
    } else if dir.len() == 0 || dir[dir.len() - 1] == SLASH {
        dir + name
    } else {
        dir + seq![SLASH] + name
    }
}

/// What is left of `uri` after its first `prefix.len()` bytes.
pub open spec fn after_prefix(uri: Seq<u8>, prefix: Seq<u8>) -> Seq<u8> {
    uri.subrange(prefix.len() as int, uri.len() as int)
}

/// The path of the file that the target `uri` names, which begins with
/// `/files/`: what follows that prefix, under the base directory.
pub open spec fn files_path(uri: Seq<u8>, directory: Option<String>) -> Seq<u8> {
    joined_path(base_directory(directory), after_prefix(uri, "/files/".spec_bytes()))
}

/// The value of the header `name`, or nothing where the request has no
/// such header.
pub open spec fn header_or_empty(headers: Map<Seq<u8>, Seq<u8>>, name: Seq<u8>) -> Seq<u8> {
    if headers.contains_key(name) {
        headers[name]
    } else {
        Seq::empty()
    }
}

/// The response for a path that no rule matches.
pub open spec fn not_found() -> Seq<u8> {
    status_response(404, "Not Found".spec_bytes())
}

/// The response to a request that asks to store a body and declares none.
pub open spec fn bad_request() -> Seq<u8> {
    status_response(400, "Bad Request".spec_bytes())
}

/// What has to be done for a `GET` request. The rules are tried in this
/// order, and the first that matches applies.
pub open spec fn get_action(request: RequestModel, directory: Option<String>) -> ActionModel {
    if request.uri == "/".spec_bytes() {
        ActionModel::Respond(status_response(200, "OK".spec_bytes()))
    } else if request.uri == "/user-agent".spec_bytes() {
        ActionModel::Respond(
            text_response(header_or_empty(request.headers, HDR_USER_AGENT.spec_bytes())),
        )
    } else if "/echo/".spec_bytes().is_prefix_of(request.uri) {
        ActionModel::Respond(text_response(after_prefix(request.uri, "/echo/".spec_bytes())))
    } else if "/files/".spec_bytes().is_prefix_of(request.uri) {
        ActionModel::ReadFile(files_path(request.uri, directory))
    } else {
        ActionModel::Respond(not_found())
    }
}

/// What has to be done for a `POST` request. A target under `/files/`
/// asks to store the body: where the request declared a length, the body is
/// to be written to the file that the target names. Where it declared none
/// there is no body to store, and the request is answered at once with 400;
/// no file is made or changed. Every other target is answered with 404.
pub open spec fn post_action(request: RequestModel, directory: Option<String>) -> ActionModel {
    if "/files/".spec_bytes().is_prefix_of(request.uri) {
        match request.reader {
            Some(body) => ActionModel::WriteFile(files_path(request.uri, directory), body),
            None => ActionModel::Respond(bad_request()),
        }
    } else {
        ActionModel::Respond(not_found())
    }
}

/// What has to be done for a request: by its method, and for a method that
/// is neither `GET` nor `POST` the response 503. Every request that was
/// parsed gets an answer: a response at once, or a step on a file that ends
/// in one.
pub open spec fn routed(request: RequestModel, directory: Option<String>) -> ActionModel {
    if request.method == "GET".spec_bytes() {
        get_action(request, directory)
    } else if request.method == "POST".spec_bytes() {
        post_action(request, directory)
    } else {
        ActionModel::Respond(status_response(503, "Server Internal Error".spec_bytes()))
    }
}

/// What is answered when a file was to be read: its bytes where a regular
/// file was found, 404 where nothing or a directory is at the path, and
/// no response where reading failed otherwise, which ends the connection.
pub open spec fn read_response(outcome: ReadOutcome) -> Option<Seq<u8>> {
    match outcome {
        ReadOutcome::Found(content) => Some(file_response(content@)),
        ReadOutcome::Missing => Some(not_found()),
        ReadOutcome::Directory => Some(not_found()),
        ReadOutcome::Failed => None,
    }
}

/// What is answered when a file was to be written: 201 where it was
/// written, 404 where its directory is missing, and no response where
/// writing failed otherwise, which ends the connection.
pub open spec fn write_response(outcome: WriteOutcome) -> Option<Seq<u8>> {
    match outcome {
        WriteOutcome::Written => Some(status_response(201, "Created".spec_bytes())),
        WriteOutcome::MissingParent => Some(not_found()),
        WriteOutcome::Failed => None,
    }
}

/// The path of `name` under `dir`.
fn join_path(dir: &[u8], name: &[u8]) -> (path: Vec<u8>)
    ensures
        path@ == joined_path(dir@, name@),
{
    let mut path: Vec<u8> = Vec::new();
    if name.len() > 0 && name[0] == SLASH {
        append_bytes(&mut path, name);
    } else {
        append_bytes(&mut path, dir);
        if dir.len() > 0 && dir[dir.len() - 1] != SLASH {
            path.push(SLASH);
        }
        append_bytes(&mut path, name);
    }
    assert(path@ =~= joined_path(dir@, name@));
    path
}

/// The path of the file that the target `uri` names.
pub fn parse_files_path(uri: &[u8], directory: &Option<String>) -> (path: Vec<u8>)
    requires
        "/files/".spec_bytes().is_prefix_of(uri@),
    ensures
        path@ == files_path(uri@, *directory),
{
    let prefix = "/files/".as_bytes();
    let name = slice_subrange(uri, prefix.len(), uri.len());
    match directory {
        Some(dir) => join_path(dir.as_str().as_bytes(), name),
        None => join_path(".".as_bytes(), name),
    }
}

/// The response 404.
fn write_not_found() -> (buffer: Vec<u8>)
    ensures
        buffer@ == not_found(),
{
    write_status(404, "Not Found")
}

/// Decides what has to be done for a `GET` request.
pub fn handle_get(request: &HttpRequest, directory: &Option<String>) -> (action: Action)
    ensures
        action@ == get_action(request@, *directory),
{
    let uri = request.uri.as_slice();
    if bytes_eq(uri, "/".as_bytes()) {
        Action::Respond(write_status(200, "OK"))
    } else if bytes_eq(uri, "/user-agent".as_bytes()) {
        let mut text: Vec<u8> = Vec::new();
        match request.headers.get(HDR_USER_AGENT.as_bytes()) {
            Some(user_agent) => write_text(&mut text, user_agent.as_slice()),
            None => {
                let empty: Vec<u8> = Vec::new();
                write_text(&mut text, empty.as_slice());
            },
        }
        Action::Respond(text)
    } else if starts_with(uri, "/echo/".as_bytes()) {
        let prefix = "/echo/".as_bytes();
        let mut text: Vec<u8> = Vec::new();
        write_text(&mut text, slice_subrange(uri, prefix.len(), uri.len()));
        Action::Respond(text)
    } else if starts_with(uri, "/files/".as_bytes()) {
        Action::ReadFile(parse_files_path(uri, directory))
    } else {
        Action::Respond(write_not_found())
    }
}

/// Decides what has to be done for a `POST` request.
pub fn handle_post(request: HttpRequest, directory: &Option<String>) -> (action: Action)
    ensures
        action@ == post_action(request@, *directory),
{
    if starts_with(request.uri.as_slice(), "/files/".as_bytes()) {
        let path = parse_files_path(request.uri.as_slice(), directory);
        match request.reader {
            Some(body) => Action::WriteFile(path, body),
            None => Action::Respond(write_status(400, "Bad Request")),
        }
    } else {
        Action::Respond(write_not_found())
    }
}

/// Decides what has to be done for a request. Every request gets an
/// action, and no input makes routing fail.
pub fn route(request: HttpRequest, directory: &Option<String>) -> (action: Action)
    ensures
        action@ == routed(request@, *directory),
{
    if bytes_eq(request.method.as_slice(), "GET".as_bytes()) {
        handle_get(&request, directory)
    } else if bytes_eq(request.method.as_slice(), "POST".as_bytes()) {
        handle_post(request, directory)
    } else {
        Action::Respond(write_status(503, "Server Internal Error"))
    }
}

/// The response to a request for a file, given how reading it went; `None`
/// where there is none and the connection ends.
pub fn respond_to_read(outcome: ReadOutcome) -> (response: Option<Vec<u8>>)
    ensures
        match response {
            Some(bytes) => read_response(outcome) == Some(bytes@),
            None => read_response(outcome) is None,
        },
{
    match outcome {
        ReadOutcome::Found(content) => {
            let mut buffer: Vec<u8> = Vec::new();
            write_file(&mut buffer, content.as_slice());
            Some(buffer)
        },
        ReadOutcome::Missing => Some(write_not_found()),
        ReadOutcome::Directory => Some(write_not_found()),
        ReadOutcome::Failed => None,
    }
}

/// The response to a request to store a file, given how writing it went;
/// `None` where there is none and the connection ends.
pub fn respond_to_write(outcome: WriteOutcome) -> (response: Option<Vec<u8>>)
    ensures
        match response {
            Some(bytes) => write_response(outcome) == Some(bytes@),
            None => write_response(outcome) is None,
        },
{
    match outcome {
        WriteOutcome::Written => Some(write_status(201, "Created")),
        WriteOutcome::MissingParent => Some(write_not_found()),
        WriteOutcome::Failed => None,
    }
}

} // verus!
