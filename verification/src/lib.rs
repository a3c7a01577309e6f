//! A verified core for a small HTTP/1.1 video server: a byte-level request
//! parser with percent-decoding and query splitting, a content-delivery
//! decision engine with partial-content (`Range`) semantics and bounded
//! chunking, a status registry, and the pure parts of page generation and
//! directory listing.

pub mod arguments;
pub mod decimal;
pub mod html;
pub mod http;
pub mod languages;
pub mod link_info;
pub mod name_parts;
pub mod paths;
pub mod request;
pub mod respond;
pub mod status;
pub mod text;
pub mod video;
