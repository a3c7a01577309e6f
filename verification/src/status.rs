//! The status registry: a closed set of outcome codes, each with a wire-format
//! reason string and a complete status-only response.

use vstd::prelude::*;

verus! {

/// An HTTP status code: the closed set of outcomes this server can produce.
#[derive(Clone, Copy, PartialEq, Eq, Structural, Debug)]
pub enum Status {
    Okay,
    BadRequest,
    NotFound,
    RangeNotSatisfiable,
    InternalServerError,
}

/// The reason string of a status: its number and phrase.
pub open spec fn spec_status_str(status: Status) -> Seq<char> {
    match status {
        Status::Okay => "200 Ok"@,
        Status::BadRequest => "400 Bad Request"@,
        Status::NotFound => "404 Not Found"@,
        Status::RangeNotSatisfiable => "416 Range Not Satisfiable"@,
        Status::InternalServerError => "500 Internal Server Error"@,
    }
}

/// The full status-only response of a status: a status line and a blank line,
/// no body.
pub open spec fn spec_status_response(status: Status) -> Seq<char> {
    match status {
        Status::Okay => "HTTP/1.1 200 Ok\r\n\r\n"@,
        Status::BadRequest => "HTTP/1.1 400 Bad Request\r\n\r\n"@,
        Status::NotFound => "HTTP/1.1 404 Not Found\r\n\r\n"@,
        Status::RangeNotSatisfiable => "HTTP/1.1 416 Range Not Satisfiable\r\n\r\n"@,
        Status::InternalServerError => "HTTP/1.1 500 Internal Server Error\r\n\r\n"@,
    }
}

impl Status {
    /// Turn the status code into a string which is a number and phrase.
    pub fn to_str(&self) -> (r: &'static str)
        ensures
            r@ == spec_status_str(*self),
    {
        match self {
            Status::Okay => "200 Ok",
            Status::BadRequest => "400 Bad Request",
            Status::NotFound => "404 Not Found",
            Status::RangeNotSatisfiable => "416 Range Not Satisfiable",
            Status::InternalServerError => "500 Internal Server Error",
        }
    }

    /// Turn the status code into an entire HTTP response.
    pub fn to_response(&self) -> (r: &'static str)
        ensures
            r@ == spec_status_response(*self),
    {
        match self {
            Status::Okay => "HTTP/1.1 200 Ok\r\n\r\n",
            Status::BadRequest => "HTTP/1.1 400 Bad Request\r\n\r\n",
            Status::NotFound => "HTTP/1.1 404 Not Found\r\n\r\n",
            Status::RangeNotSatisfiable => "HTTP/1.1 416 Range Not Satisfiable\r\n\r\n",
            Status::InternalServerError => "HTTP/1.1 500 Internal Server Error\r\n\r\n",
        }
    }
}

} // verus!
