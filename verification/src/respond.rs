//! Response heads: the exact header bytes sent before content.

use vstd::prelude::*;
use vstd::string::StringExecFns;

use crate::decimal::{append_decimal, dec_rep};
use crate::status::{spec_status_str, Status};

verus! {

/// The head of a full-content response: status line, `Content-Length`, and
/// `Content-Type`, ended by the blank line.
pub open spec fn content_head(
    status: Status,
    content_length: nat,
    content_type: Seq<char>,
) -> Seq<char> {
    "HTTP/1.1 "@ + spec_status_str(status) + "\r\nContent-Length: "@ + dec_rep(content_length)
        + "\r\nContent-Type: "@ + content_type + "\r\n\r\n"@
}

/// The head of a `206 Partial Content` response for the chunk of `length`
/// bytes at `begin` out of `total`: its `Content-Range` runs from `begin`
/// to `begin + length - 1`.
pub open spec fn partial_head(
    begin: nat,
    length: nat,
    total: nat,
    content_type: Seq<char>,
) -> Seq<char>
    recommends
        length >= 1,
        begin + length <= total,
{
    "HTTP/1.1 206 Partial Content\r\nContent-Length: "@ + dec_rep(length)
        + "\r\nContent-Range: bytes "@ + dec_rep(begin) + "-"@ + dec_rep(
        (begin + length - 1) as nat,
    ) + "/"@ + dec_rep(total) + "\r\nContent-Type: "@ + content_type + "\r\n\r\n"@
}

/// Build the head of a full-content response.
pub fn build_content_head(status: Status, content_length: usize, content_type: &str) -> (h: String)
    ensures
        h@ == content_head(status, content_length as nat, content_type@),
{
    let mut h = String::from_str("HTTP/1.1 ");
    h.append(status.to_str());
    h.append("\r\nContent-Length: ");
    append_decimal(&mut h, content_length);
    h.append("\r\nContent-Type: ");
    h.append(content_type);
    h.append("\r\n\r\n");
    proof {
        assert(h@ =~= content_head(status, content_length as nat, content_type@));
    }
    h
}

/// Build the head of a partial-content response for one chunk.
pub fn build_partial_head(begin: usize, length: usize, total: usize, content_type: &str) -> (h:
    String)
    requires
        length >= 1,
        begin + length <= total,
    ensures
        h@ == partial_head(begin as nat, length as nat, total as nat, content_type@),
{
    let end = begin + (length - 1);
    let mut h = String::from_str("HTTP/1.1 206 Partial Content\r\nContent-Length: ");
    append_decimal(&mut h, length);
    h.append("\r\nContent-Range: bytes ");
    append_decimal(&mut h, begin);
    h.append("-");
    append_decimal(&mut h, end);
    h.append("/");
    append_decimal(&mut h, total);
    h.append("\r\nContent-Type: ");
    h.append(content_type);
    h.append("\r\n\r\n");
    proof {
        assert(h@ =~= partial_head(begin as nat, length as nat, total as nat, content_type@));
    }
    h
}

} // verus!
