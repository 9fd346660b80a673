//! The fixed responses that report a failed request, and the shape of every response.

use vstd::prelude::*;
use crate::text::decimal;

verus! {

/// The failures that a request can end in.
#[derive(Clone, Copy, Debug, PartialEq, Eq, Structural)]
pub enum Status {
    BadRequest,
    NotFound,
    MethodNotAllowed,
    RequestTooLarge,
    HttpVersionNotSupported,
    InternalServerError,
}

/// What follows the head of a response.
#[derive(Debug)]
pub enum Body {
    /// Nothing.
    Empty,
    /// The given text.
    Text(String),
    /// The first `len` bytes of the file that was opened for this request.
    File { len: u64 },
}

/// A complete response: the status line and header lines, then the body.
#[derive(Debug)]
pub struct Response {
    pub head: String,
    pub body: Body,
}

/// A body as contracts see it.
pub enum BodyView {
    Empty,
    Text(Seq<char>),
    File { len: u64 },
}

/// A response as contracts see it.
pub struct ResponseView {
    pub head: Seq<char>,
    pub body: BodyView,
}

impl View for Body {
    type V = BodyView;

    open spec fn view(&self) -> BodyView {
        match self {
            Body::Empty => BodyView::Empty,
            Body::Text(text) => BodyView::Text(text@),
            Body::File { len } => BodyView::File { len: *len },
        }
    }
}

impl View for Response {
    type V = ResponseView;

    open spec fn view(&self) -> ResponseView {
        ResponseView { head: self.head@, body: self.body@ }
    }
}

/// The response that reports `status`: its fixed text and no body.
pub open spec fn failure(status: Status) -> ResponseView {
    ResponseView { head: status.text(), body: BodyView::Empty }
}

impl Status {
    /// The numeric status code.
    pub open spec fn code(self) -> int {
        match self {
            Status::BadRequest => 400,
            Status::NotFound => 404,
            Status::MethodNotAllowed => 405,
            Status::RequestTooLarge => 413,
            Status::HttpVersionNotSupported => 505,
            Status::InternalServerError => 500,
        }
    }

    /// The whole response that reports this failure.
    pub open spec fn text(self) -> Seq<char> {
        match self {
            Status::BadRequest => "HTTP/1.0 400 Bad Request\r\n\r\n"@,
            Status::NotFound => "HTTP/1.0 404 Not Found\r\n\r\n"@,
            Status::MethodNotAllowed => "HTTP/1.0 405 Method Not Allowed\r\n\r\n"@,
            Status::RequestTooLarge => "HTTP/1.0 413 Request Too Large\r\n\r\n"@,
            Status::HttpVersionNotSupported => "HTTP/1.0 505 HTTP Version Not Supported\r\n\r\n"@,
            Status::InternalServerError => "HTTP/1.0 500 Internal Server Error\r\n\r\n"@,
        }
    }

    /// The whole response that reports this failure.
    pub fn response(self) -> (text: &'static str)
        ensures
            text@ == self.text(),
    {
        match self {
            Status::BadRequest => bad_request(),
            Status::NotFound => not_found(),
            Status::MethodNotAllowed => bad_method(),
            Status::RequestTooLarge => request_too_large(),
            Status::HttpVersionNotSupported => http_version_not_supported(),
            Status::InternalServerError => internal_server_error(),
        }
    }
}

impl Response {
    /// The response that reports `status`.
    pub fn failure(status: Status) -> (response: Response)
        ensures
            response@ == failure(status),
    {
        Response { head: status.response().to_owned(), body: Body::Empty }
    }
}

/// The response to a request that cannot be understood.
pub fn bad_request() -> (text: &'static str)
    ensures
        text@ == Status::BadRequest.text(),
{
    "HTTP/1.0 400 Bad Request\r\n\r\n"
}

/// The response to a request for what is not served.
pub fn not_found() -> (text: &'static str)
    ensures
        text@ == Status::NotFound.text(),
{
    "HTTP/1.0 404 Not Found\r\n\r\n"
}

/// The response to a method that is not allowed on a file.
pub fn bad_method() -> (text: &'static str)
    ensures
        text@ == Status::MethodNotAllowed.text(),
{
    "HTTP/1.0 405 Method Not Allowed\r\n\r\n"
}

/// The response to a header block that does not fit the buffer.
pub fn request_too_large() -> (text: &'static str)
    ensures
        text@ == Status::RequestTooLarge.text(),
{
    "HTTP/1.0 413 Request Too Large\r\n\r\n"
}

/// The response to a version of HTTP other than 1.0 and 1.1.
pub fn http_version_not_supported() -> (text: &'static str)
    ensures
        text@ == Status::HttpVersionNotSupported.text(),
{
    "HTTP/1.0 505 HTTP Version Not Supported\r\n\r\n"
}

/// The response when the file system fails the server.
pub fn internal_server_error() -> (text: &'static str)
    ensures
        text@ == Status::InternalServerError.text(),
{
    "HTTP/1.0 500 Internal Server Error\r\n\r\n"
}

/// Every failure response is an HTTP/1.0 status line of class 4 or 5,
/// closed by an empty line, and carries its own code.
pub proof fn lemma_failure_shape(status: Status)
    ensures
        status.text().subrange(0, 9) == "HTTP/1.0 "@,
        status.text().subrange(9, 12) == decimal(status.code() as nat),
        400 <= status.code() < 600,
        status.text().subrange(status.text().len() - 4, status.text().len() as int)
            == "\r\n\r\n"@,
{
    reveal_strlit("HTTP/1.0 400 Bad Request\r\n\r\n");
    reveal_strlit("HTTP/1.0 404 Not Found\r\n\r\n");
    reveal_strlit("HTTP/1.0 405 Method Not Allowed\r\n\r\n");
    reveal_strlit("HTTP/1.0 413 Request Too Large\r\n\r\n");
    reveal_strlit("HTTP/1.0 505 HTTP Version Not Supported\r\n\r\n");
    reveal_strlit("HTTP/1.0 500 Internal Server Error\r\n\r\n");
    reveal_strlit("HTTP/1.0 ");
    reveal_strlit("\r\n\r\n");
    reveal_with_fuel(decimal, 3);
    let text = status.text();
    assert(text.subrange(0, 9) =~= "HTTP/1.0 "@);
    assert(text.subrange(text.len() - 4, text.len() as int) =~= "\r\n\r\n"@);
    assert(text.subrange(9, 12) =~= decimal(status.code() as nat));
}

} // verus!
