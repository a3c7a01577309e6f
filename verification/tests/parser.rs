use see_slug::request::Request;

#[test]
fn parse_rejects_non_get() {
    assert!(Request::parse(b"POST /index.html HTTP/1.1\r\n\r\n").is_none());
    assert!(Request::parse(b"GE").is_none());
    assert!(Request::parse(b"").is_none());
}

#[test]
fn parse_simple_path() {
    let req = Request::parse(b"GET /index.html HTTP/1.1\r\n\r\n").unwrap();
    assert_eq!(req.path, "/index.html");
    assert!(req.query.is_empty());
    assert_eq!(req.range_start, None);
}

#[test]
fn parse_percent_decodes_space() {
    let req = Request::parse(b"GET /My%20Movies/ HTTP/1.1\r\n\r\n").unwrap();
    assert_eq!(req.path, "/My Movies/");
}

#[test]
fn parse_percent_decodes_multibyte() {
    // %C3%A9 is the UTF-8 encoding of 'e' with an acute accent
    let req = Request::parse(b"GET /caf%C3%A9/ HTTP/1.1\r\n\r\n").unwrap();
    assert_eq!(req.path, "/caf\u{e9}/");
}

#[test]
fn parse_rejects_invalid_utf8_escape() {
    assert!(Request::parse(b"GET /%FF HTTP/1.1\r\n\r\n").is_none());
}

#[test]
fn parse_rejects_bad_hex_escape() {
    assert!(Request::parse(b"GET /a%G1 HTTP/1.1\r\n\r\n").is_none());
}

#[test]
fn parse_rejects_truncated_escape() {
    assert!(Request::parse(b"GET /a%4").is_none());
}

#[test]
fn parse_rejects_disallowed_byte() {
    assert!(Request::parse(b"GET /a<b HTTP/1.1\r\n\r\n").is_none());
    assert!(Request::parse(b"GET /a\x00b HTTP/1.1\r\n\r\n").is_none());
}

#[test]
fn parse_query_pairs_in_order() {
    let req = Request::parse(b"GET /?a=1&b=2&a=3 HTTP/1.1\r\n\r\n").unwrap();
    assert_eq!(req.path, "/");
    assert_eq!(req.query.len(), 3);
    assert_eq!(req.query[0].key, "a");
    assert_eq!(req.query[0].value, "1");
    assert_eq!(req.query[1].key, "b");
    assert_eq!(req.query[1].value, "2");
    assert_eq!(req.query[2].key, "a");
    assert_eq!(req.query[2].value, "3");
}

#[test]
fn parse_bare_key_has_empty_value() {
    let req = Request::parse(b"GET /?lone&k=v HTTP/1.1\r\n\r\n").unwrap();
    assert_eq!(req.query.len(), 2);
    assert_eq!(req.query[0].key, "lone");
    assert_eq!(req.query[0].value, "");
    assert_eq!(req.query[1].key, "k");
    assert_eq!(req.query[1].value, "v");
}

#[test]
fn parse_second_equals_is_literal() {
    let req = Request::parse(b"GET /?k=a=b HTTP/1.1\r\n\r\n").unwrap();
    assert_eq!(req.query.len(), 1);
    assert_eq!(req.query[0].key, "k");
    assert_eq!(req.query[0].value, "a=b");
}

#[test]
fn parse_percent_in_query() {
    let req = Request::parse(b"GET /?watch=Movie%20One HTTP/1.1\r\n\r\n").unwrap();
    assert_eq!(req.query.len(), 1);
    assert_eq!(req.query[0].key, "watch");
    assert_eq!(req.query[0].value, "Movie One");
}

#[test]
fn parse_mp4_with_range() {
    let req =
        Request::parse(b"GET /clip.mp4 HTTP/1.1\r\nHost: x\r\nRange: bytes=1000-\r\n\r\n").unwrap();
    assert_eq!(req.path, "/clip.mp4");
    assert_eq!(req.range_start, Some(1000));
}

#[test]
fn parse_mp4_without_range() {
    let req = Request::parse(b"GET /clip.mp4 HTTP/1.1\r\nHost: x\r\n\r\n").unwrap();
    assert_eq!(req.path, "/clip.mp4");
    assert_eq!(req.range_start, None);
}

#[test]
fn parse_mp4_empty_range_number_gives_no_range() {
    let req = Request::parse(b"GET /clip.mp4 HTTP/1.1\r\nRange: bytes=x-\r\n\r\n").unwrap();
    assert_eq!(req.range_start, None);
}

#[test]
fn parse_non_mp4_ignores_range_header() {
    let req = Request::parse(b"GET /poster.jpg HTTP/1.1\r\nRange: bytes=5-\r\n\r\n").unwrap();
    assert_eq!(req.range_start, None);
}

#[test]
fn parse_range_zero() {
    let req = Request::parse(b"GET /clip.mp4 HTTP/1.1\r\nRange: bytes=0-\r\n\r\n").unwrap();
    assert_eq!(req.range_start, Some(0));
}

#[test]
fn parse_encoded_mp4_suffix_counts() {
    // %2E decodes to '.', so the decoded path ends in ".mp4"
    let req = Request::parse(b"GET /clip%2Emp4 HTTP/1.1\r\nRange: bytes=7-\r\n\r\n").unwrap();
    assert_eq!(req.path, "/clip.mp4");
    assert_eq!(req.range_start, Some(7));
}

#[test]
fn parse_truncated_buffer_mid_escape() {
    // A request longer than the cap is truncated at 4096 bytes before
    // parsing; here the cut lands in the middle of a percent-escape.
    let mut long = Vec::new();
    long.extend_from_slice(b"GET /");
    while long.len() < 4094 {
        long.push(b'a');
    }
    long.extend_from_slice(b"%41 HTTP/1.1\r\n\r\n");
    let truncated = &long[..4096];
    assert_eq!(truncated.len(), 4096);
    assert!(Request::parse(truncated).is_none());
}
