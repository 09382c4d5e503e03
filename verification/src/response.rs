//! Responses on the wire: a status line, a `Content-Length` header and the
//! body, with no other header.

use crate::text::{decimal, push_decimal};
use vstd::prelude::*;
use vstd::string::*;
use vstd::utf8::*;

verus! {

/// The outcome that a response reports.
#[derive(Debug, Clone, Copy, PartialEq, Eq, Structural)]
pub enum Status {
    /// The requested resource is served.
    Success,
    /// The path is not registered, or its resource could not be read.
    NotFound,
    /// The request line could not be parsed.
    BadRequest,
    /// Not even the not-found page could be read.
    InternalServerError,
}

impl Status {
    /// The status line, without its line terminator.
    pub open spec fn line(self) -> Seq<char> {
        match self {
            Status::Success => "HTTP/1.1 200 OK"@,
            Status::NotFound => "HTTP/1.1 404 NOT FOUND"@,
            Status::BadRequest => "HTTP/1.1 400 BAD REQUEST"@,
            Status::InternalServerError => "HTTP/1.1 500 INTERNAL SERVER ERROR"@,
        }
    }

    /// The status line, without its line terminator.
    pub fn status_line(&self) -> (s: &'static str)
        ensures
            s@ == self.line(),
    {
        match self {
            Status::Success => "HTTP/1.1 200 OK",
            Status::NotFound => "HTTP/1.1 404 NOT FOUND",
            Status::BadRequest => "HTTP/1.1 400 BAD REQUEST",
            Status::InternalServerError => "HTTP/1.1 500 INTERNAL SERVER ERROR",
        }
    }
}

/// Length of `text` in bytes once encoded as UTF-8.
pub open spec fn byte_len(text: Seq<char>) -> nat {
    encode_utf8(text).len()
}

/// The full text of a response: status line, `Content-Length` with the
/// body's length in bytes, an empty line, and the body.
pub open spec fn response_text(status: Status, body: Seq<char>) -> Seq<char> {
    status.line() + "\r\nContent-Length: "@ + decimal(byte_len(body)) + "\r\n\r\n"@ + body
}

/// Frames `body` as the response that reports `status`.
pub fn respond(status: Status, body: &str) -> (response: String)
    ensures
        response@ == response_text(status, body@),
{
    let mut response = String::from_str(status.status_line());
    response.append("\r\nContent-Length: ");
    push_decimal(&mut response, body.as_bytes().len() as u128);
    response.append("\r\n\r\n");
    response.append(body);
    response
}

} // verus!
