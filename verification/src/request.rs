//! The request parser: turns a raw byte buffer into a structured request
//! (decoded path, query pairs, optional range start) or rejects it.
//!
//! Only `GET` requests are accepted.  The URL target is parsed by a state
//! machine over three part kinds (path, query key, query value), with
//! percent-escapes decoded into the current part.  For `.mp4` targets the
//! rest of the buffer is scanned for a `Range: bytes=` header; for all other
//! targets parsing stops at the first space.  Every flushed part must decode
//! as valid UTF-8 or the whole request is rejected.

use vstd::prelude::*;
use vstd::utf8::{decode_utf8, valid_utf8};

use crate::text::bytes_to_string;

verus! {

/// An optional part after the question mark of a URL.
pub struct QueryParam {
    pub key: String,
    pub value: String,
}

/// The mathematical value of a query parameter.
#[verifier::ext_equal]
pub struct QueryModel {
    pub key: Seq<char>,
    pub value: Seq<char>,
}

impl View for QueryParam {
    type V = QueryModel;

    open spec fn view(&self) -> QueryModel {
        QueryModel { key: self.key@, value: self.value@ }
    }
}

/// An HTTP request.
pub struct Request {
    /// Full decoded path, without the query
    pub path: String,
    /// Query parameters, in order of appearance, duplicates allowed
    pub query: Vec<QueryParam>,
    /// Start position from a header like `Range: bytes=3702784-`, if present
    pub range_start: Option<usize>,
}

/// The mathematical value of a request.
#[verifier::ext_equal]
pub struct RequestModel {
    pub path: Seq<char>,
    pub query: Seq<QueryModel>,
    pub range_start: Option<usize>,
}

impl View for Request {
    type V = RequestModel;

    open spec fn view(&self) -> RequestModel {
        RequestModel {
            path: self.path@,
            query: Seq::new(self.query@.len(), |i: int| self.query@[i]@),
            range_start: self.range_start,
        }
    }
}

// ---------------------------------------------------------------------------
// Byte classes
// ---------------------------------------------------------------------------

/// Bytes accepted verbatim in a URL target: RFC 3986 unreserved and
/// sub-delims, plus a restricted subset of gen-delims.  The bytes with their
/// own transitions (space, `%`, `?`, `&`, `=`) are not in this set.
pub open spec fn is_url_byte(b: u8) -> bool {
    ||| b == 33  // '!'
    ||| 35 <= b <= 36  // '#' '$'
    ||| 39 <= b <= 59  // '\'' ..= ';'
    ||| 64 <= b <= 91  // '@' ..= '['
    ||| b == 93  // ']'
    ||| b == 95  // '_'
    ||| 97 <= b <= 122  // 'a' ..= 'z'
    ||| b == 126  // '~'
}

/// An ASCII hexadecimal digit, either case.
pub open spec fn is_hex_digit(b: u8) -> bool {
    ||| 48 <= b <= 57  // '0' ..= '9'
    ||| 65 <= b <= 70  // 'A' ..= 'F'
    ||| 97 <= b <= 102  // 'a' ..= 'f'
}

/// The value of one hexadecimal digit.
pub open spec fn hex_value(b: u8) -> u8
    recommends
        is_hex_digit(b),
{
    if 48 <= b <= 57 {
        (b - 48) as u8
    } else if 65 <= b <= 70 {
        (b - 55) as u8
    } else {
        (b - 87) as u8
    }
}

/// An ASCII decimal digit.
pub open spec fn is_digit_byte(b: u8) -> bool {
    48 <= b <= 57
}

// ---------------------------------------------------------------------------
// The URL state machine, at the level of decoded byte parts
// ---------------------------------------------------------------------------

/// The URL parse state: which kind of part is being accumulated.
#[derive(Clone, Copy)]
pub enum PartKind {
    Path,
    Key,
    Value,
}

/// The parts of a URL target, as decoded byte sequences (before the UTF-8
/// check).
#[verifier::ext_equal]
pub struct UrlParts {
    pub path: Seq<u8>,
    pub query: Seq<(Seq<u8>, Seq<u8>)>,
}

/// Record one flushed part: a path replaces the path, a key opens a new pair
/// with an empty value, a value fills the value of the last open pair.
pub open spec fn insert_part(acc: UrlParts, kind: PartKind, part: Seq<u8>) -> UrlParts {
    match kind {
        PartKind::Path => UrlParts { path: part, query: acc.query },
        PartKind::Key => UrlParts {
            path: acc.path,
            query: acc.query.push((part, Seq::empty())),
        },
        PartKind::Value => {
            if acc.query.len() == 0 {
                acc
            } else {
                UrlParts {
                    path: acc.path,
                    query: acc.query.update(
                        acc.query.len() - 1,
                        (acc.query.last().0, part),
                    ),
                }
            }
        },
    }
}

/// Whether a decoded path ends in the literal suffix `.mp4`.
pub open spec fn ends_with_mp4(path: Seq<u8>) -> bool {
    &&& path.len() >= 4
    &&& path[path.len() - 4] == 46  // '.'
    &&& path[path.len() - 3] == 109  // 'm'
    &&& path[path.len() - 2] == 112  // 'p'
    &&& path[path.len() - 1] == 52  // '4'
}

/// How parsing the URL target ends: rejection, or accepted parts together
/// with the index from which the rest of the buffer is scanned for a range
/// header (present only for `.mp4` targets ended by a space).
pub enum UrlOutcome {
    Rejected,
    Accepted(UrlParts, Option<int>),
}

/// One step at a time over the target bytes, starting at `i`: a space
/// flushes and ends the target; a percent-escape decodes one byte into the
/// current part; `?` and `&` flush and open a new key; `=` after a key opens
/// its value and is otherwise a literal byte; URL bytes are appended
/// verbatim; anything else rejects the request.  Running out of input leaves
/// the current part unflushed.
pub open spec fn parse_url(
    input: Seq<u8>,
    i: int,
    kind: PartKind,
    part: Seq<u8>,
    acc: UrlParts,
) -> UrlOutcome
    decreases input.len() - i,
{
    if i < 0 || i >= input.len() {
        UrlOutcome::Accepted(acc, None)
    } else {
        let b = input[i];
        if b == 32 {  // ' '
            let flushed = insert_part(acc, kind, part);
            if ends_with_mp4(flushed.path) {
                UrlOutcome::Accepted(flushed, Some(i))
            } else {
                UrlOutcome::Accepted(flushed, None)
            }
        } else if b == 37 {  // '%'
            if i + 3 > input.len() {
                UrlOutcome::Rejected
            } else if is_hex_digit(input[i + 1]) && is_hex_digit(input[i + 2]) {
                let decoded = (hex_value(input[i + 1]) * 16 + hex_value(input[i + 2])) as u8;
                parse_url(input, i + 3, kind, part.push(decoded), acc)
            } else {
                UrlOutcome::Rejected
            }
        } else if b == 63 || b == 38 {  // '?' '&'
            parse_url(input, i + 1, PartKind::Key, Seq::empty(), insert_part(acc, kind, part))
        } else if b == 61 {  // '='
            match kind {
                PartKind::Key => parse_url(
                    input,
                    i + 1,
                    PartKind::Value,
                    Seq::empty(),
                    insert_part(acc, PartKind::Key, part),
                ),
                _ => parse_url(input, i + 1, kind, part.push(61), acc),
            }
        } else if is_url_byte(b) {
            parse_url(input, i + 1, kind, part.push(b), acc)
        } else {
            UrlOutcome::Rejected
        }
    }
}

// ---------------------------------------------------------------------------
// The range header scan
// ---------------------------------------------------------------------------

/// The bytes of the literal `"\r\nRange: bytes="`.
pub open spec fn range_marker() -> Seq<u8> {
    seq![13u8, 10, 82, 97, 110, 103, 101, 58, 32, 98, 121, 116, 101, 115, 61]
}

/// The first index at or after `j` where the range marker occurs in `s`.
pub open spec fn find_marker(s: Seq<u8>, j: int) -> Option<int>
    decreases s.len() - j,
{
    if j < 0 || j + 15 > s.len() {
        None
    } else if s.subrange(j, j + 15) == range_marker() {
        Some(j)
    } else {
        find_marker(s, j + 1)
    }
}

/// The end of the run of ASCII digits starting at `j`.
pub open spec fn digit_run_end(s: Seq<u8>, j: int) -> int
    decreases s.len() - j,
{
    if 0 <= j < s.len() && is_digit_byte(s[j]) {
        digit_run_end(s, j + 1)
    } else {
        j
    }
}

/// The decimal value of the digits `s[j .. k]`.
pub open spec fn digits_value(s: Seq<u8>, j: int, k: int) -> nat
    decreases k - j,
{
    if k <= j {
        0
    } else {
        digits_value(s, j, k - 1) * 10 + (if s[k - 1] >= 48 {
            (s[k - 1] - 48) as nat
        } else {
            0
        })
    }
}

/// The range start parsed from `s[start ..]`: the decimal run that
/// immediately follows the first occurrence of the range marker.  A missing
/// marker, an empty run, or a value too large for `usize` gives no range
/// start, never a rejection.
pub open spec fn scan_range(s: Seq<u8>, start: int) -> Option<usize> {
    match find_marker(s, start) {
        None => None,
        Some(p) => {
            let d0 = p + 15;
            let d1 = digit_run_end(s, d0);
            if d1 == d0 {
                None
            } else if digits_value(s, d0, d1) > usize::MAX {
                None
            } else {
                Some(digits_value(s, d0, d1) as usize)
            }
        },
    }
}

// ---------------------------------------------------------------------------
// The whole parse
// ---------------------------------------------------------------------------

/// The bytes of the literal `"GET "`.
pub open spec fn get_prefix() -> Seq<u8> {
    seq![71u8, 69, 84, 32]
}

/// Whether every flushed query part decodes as valid UTF-8.
pub open spec fn utf8_query(q: Seq<(Seq<u8>, Seq<u8>)>) -> bool {
    forall|i: int| 0 <= i < q.len() ==> valid_utf8((#[trigger] q[i]).0) && valid_utf8(q[i].1)
}

/// The query pairs decoded from bytes to characters.
pub open spec fn decode_query(q: Seq<(Seq<u8>, Seq<u8>)>) -> Seq<QueryModel> {
    Seq::new(q.len(), |i: int| QueryModel { key: decode_utf8(q[i].0), value: decode_utf8(q[i].1) })
}

/// What `Request::parse` returns on a byte buffer: `None` for anything that
/// is not a well-formed `GET` target of URL-safe bytes and sound
/// percent-escapes whose parts all decode as UTF-8; otherwise the decoded
/// request, with a range start only for `.mp4` targets whose headers carry
/// one.
pub open spec fn parse_spec(input: Seq<u8>) -> Option<RequestModel> {
    if input.len() < 4 || input.subrange(0, 4) != get_prefix() {
        None
    } else {
        match parse_url(
            input,
            4,
            PartKind::Path,
            Seq::empty(),
            UrlParts { path: Seq::empty(), query: Seq::empty() },
        ) {
            UrlOutcome::Rejected => None,
            UrlOutcome::Accepted(parts, scan) => {
                if valid_utf8(parts.path) && utf8_query(parts.query) {
                    Some(
                        RequestModel {
                            path: decode_utf8(parts.path),
                            query: decode_query(parts.query),
                            range_start: match scan {
                                None => None,
                                Some(j) => scan_range(input, j),
                            },
                        },
                    )
                } else {
                    None
                }
            },
        }
    }
}

// ---------------------------------------------------------------------------
// Percent-encoding round trip
// ---------------------------------------------------------------------------

/// The upper-case hexadecimal digit for a value below sixteen.
pub open spec fn hex_char(d: u8) -> u8
    recommends
        d < 16,
{
    if d < 10 {
        (48 + d) as u8
    } else {
        (55 + d) as u8
    }
}

/// One byte as a percent-escape: `%` and two hexadecimal digits.
pub open spec fn percent_encode_byte(b: u8) -> Seq<u8> {
    seq![37u8, hex_char(b / 16), hex_char(b % 16)]
}

/// A byte sequence with every byte written as a percent-escape.
pub open spec fn percent_encode(bs: Seq<u8>) -> Seq<u8>
    decreases bs.len(),
{
    if bs.len() == 0 {
        Seq::empty()
    } else {
        percent_encode_byte(bs[0]) + percent_encode(bs.drop_first())
    }
}

/// The encoding of a sequence takes three bytes per byte.
pub proof fn lemma_percent_encode_len(bs: Seq<u8>)
    ensures
        percent_encode(bs).len() == 3 * bs.len(),
    decreases bs.len(),
{
    if bs.len() > 0 {
        lemma_percent_encode_len(bs.drop_first());
    }
}

/// Walking a run of percent-escapes decodes exactly the escaped bytes into
/// the current part, whatever part is open.
proof fn lemma_parse_encoded_run(
    input: Seq<u8>,
    i: int,
    kind: PartKind,
    part: Seq<u8>,
    acc: UrlParts,
    bs: Seq<u8>,
)
    requires
        0 <= i,
        i + 3 * bs.len() <= input.len(),
        input.subrange(i, i + 3 * bs.len()) == percent_encode(bs),
    ensures
        parse_url(input, i, kind, part, acc) == parse_url(
            input,
            i + 3 * bs.len(),
            kind,
            part + bs,
            acc,
        ),
    decreases bs.len(),
{
    if bs.len() == 0 {
        assert(part + bs =~= part);
    } else {
        let b = bs[0];
        let enc = percent_encode(bs);
        assert(input[i] == enc[0] && input[i + 1] == enc[1] && input[i + 2] == enc[2]);
        assert(enc[0] == 37 && enc[1] == hex_char(b / 16) && enc[2] == hex_char(b % 16));
        assert(is_hex_digit(hex_char(b / 16)) && is_hex_digit(hex_char(b % 16)));
        assert(hex_value(hex_char(b / 16)) == b / 16 && hex_value(hex_char(b % 16)) == b % 16);
        assert((hex_value(input[i + 1]) * 16 + hex_value(input[i + 2])) as u8 == b);
        let rest = bs.drop_first();
        lemma_percent_encode_len(rest);
        assert(input.subrange(i + 3, i + 3 + 3 * rest.len()) =~= percent_encode(rest)) by {
            assert(forall|k: int|
                0 <= k < 3 * rest.len() ==> input[i + 3 + k] == enc[3 + k] && enc[3 + k]
                    == percent_encode(rest)[k]);
        }
        lemma_parse_encoded_run(input, i + 3, kind, part.push(b), acc, rest);
        assert(part.push(b) + rest =~= part + bs);
    }
}

/// Decoding a fully percent-encoded path round-trips: the parsed request
/// holds exactly the intended bytes as its path, with no query and no
/// range start.
pub proof fn lemma_percent_roundtrip(bs: Seq<u8>)
    requires
        valid_utf8(bs),
    ensures
        parse_spec(get_prefix() + percent_encode(bs) + seq![32u8]) == Some(
            RequestModel {
                path: decode_utf8(bs),
                query: Seq::empty(),
                range_start: None,
            },
        ),
{
    let input = get_prefix() + percent_encode(bs) + seq![32u8];
    lemma_percent_encode_len(bs);
    let j = 4 + 3 * bs.len();
    assert(input.len() == j + 1);
    assert(input.subrange(0, 4) =~= get_prefix());
    let init_acc = UrlParts { path: Seq::empty(), query: Seq::empty() };
    assert(input.subrange(4, j as int) =~= percent_encode(bs));
    lemma_parse_encoded_run(input, 4, PartKind::Path, Seq::empty(), init_acc, bs);
    assert(Seq::empty() + bs =~= bs);
    assert(input[j as int] == 32);
    let flushed = insert_part(init_acc, PartKind::Path, bs);
    assert(flushed.path == bs && flushed.query =~= Seq::<(Seq<u8>, Seq<u8>)>::empty());
    if ends_with_mp4(bs) {
        assert(parse_url(input, 4, PartKind::Path, Seq::empty(), init_acc)
            == UrlOutcome::Accepted(flushed, Some(j as int)));
        assert(find_marker(input, j as int) is None);
        assert(scan_range(input, j as int) is None);
    } else {
        assert(parse_url(input, 4, PartKind::Path, Seq::empty(), init_acc)
            == UrlOutcome::Accepted(flushed, None));
    }
    assert(utf8_query(flushed.query));
    assert(decode_query(flushed.query) =~= Seq::<QueryModel>::empty());
    assert(parse_spec(input)->Some_0 =~= RequestModel {
        path: decode_utf8(bs),
        query: Seq::empty(),
        range_start: None,
    });
}

/// A broken percent-escape after any run of sound escapes rejects the
/// whole request: a `%` not followed by two hexadecimal digits, whether
/// truncated by the end of the buffer or malformed, parses to nothing.
pub proof fn lemma_invalid_escape_rejected(bs: Seq<u8>, rest: Seq<u8>)
    requires
        rest.len() > 0,
        rest[0] == 37,
        rest.len() >= 3 ==> !(is_hex_digit(rest[1]) && is_hex_digit(rest[2])),
    ensures
        parse_spec(get_prefix() + percent_encode(bs) + rest) == None::<RequestModel>,
{
    let input = get_prefix() + percent_encode(bs) + rest;
    lemma_percent_encode_len(bs);
    let j = 4 + 3 * bs.len();
    assert(input.len() == j + rest.len());
    assert(input.subrange(0, 4) =~= get_prefix());
    let init_acc = UrlParts { path: Seq::empty(), query: Seq::empty() };
    assert(input.subrange(4, j as int) =~= percent_encode(bs));
    lemma_parse_encoded_run(input, 4, PartKind::Path, Seq::empty(), init_acc, bs);
    assert(input[j as int] == 37);
    if j + 3 > input.len() {
        assert(parse_url(input, j as int, PartKind::Path, bs, init_acc)
            == UrlOutcome::Rejected);
    } else {
        assert(input[j as int + 1] == rest[1] && input[j as int + 2] == rest[2]);
        assert(parse_url(input, j as int, PartKind::Path, bs, init_acc)
            == UrlOutcome::Rejected);
    }
    assert(Seq::empty() + bs =~= bs);
}

// ---------------------------------------------------------------------------
// Executable helpers
// ---------------------------------------------------------------------------

/// The view of the raw query pairs collected while parsing.
pub open spec fn raw_query_view(q: Seq<(Vec<u8>, Vec<u8>)>) -> Seq<(Seq<u8>, Seq<u8>)> {
    Seq::new(q.len(), |i: int| (q[i].0@, q[i].1@))
}

fn is_url_byte_exec(b: u8) -> (r: bool)
    ensures
        r == is_url_byte(b),
{
    b == 33 || (35 <= b && b <= 36) || (39 <= b && b <= 59) || (64 <= b && b <= 91) || b == 93
        || b == 95 || (97 <= b && b <= 122) || b == 126
}

fn is_hex_digit_exec(b: u8) -> (r: bool)
    ensures
        r == is_hex_digit(b),
{
    (48 <= b && b <= 57) || (65 <= b && b <= 70) || (97 <= b && b <= 102)
}

fn hex_value_exec(b: u8) -> (v: u8)
    requires
        is_hex_digit(b),
    ensures
        v == hex_value(b),
        v < 16,
{
    if b >= 97 {
        b - 87
    } else if b >= 65 {
        b - 55
    } else {
        b - 48
    }
}

/// Record one flushed part into the raw path and query accumulators.
fn flush_part(path: &mut Vec<u8>, query: &mut Vec<(Vec<u8>, Vec<u8>)>, kind: PartKind, part: Vec<u8>)
    ensures
        (UrlParts { path: final(path)@, query: raw_query_view(final(query)@) }) == insert_part(
            UrlParts { path: old(path)@, query: raw_query_view(old(query)@) },
            kind,
            part@,
        ),
{
    let ghost old_acc = UrlParts { path: old(path)@, query: raw_query_view(old(query)@) };
    let ghost part_view = part@;
    match kind {
        PartKind::Path => {
            *path = part;
            proof {
                assert(raw_query_view(query@) =~= old_acc.query);
            }
        },
        PartKind::Key => {
            query.push((part, Vec::new()));
            proof {
                assert(raw_query_view(query@) =~= old_acc.query.push(
                    (part_view, Seq::<u8>::empty()),
                ));
            }
        },
        PartKind::Value => {
            if query.len() > 0 {
                let pair = match query.pop() {
                    Some(pair) => pair,
                    None => {
                        proof {
                            assert(false);
                        }
                        (Vec::new(), Vec::new())
                    },
                };
                query.push((pair.0, part));
                proof {
                    assert(raw_query_view(query@) =~= old_acc.query.update(
                        old_acc.query.len() - 1,
                        (old_acc.query.last().0, part_view),
                    ));
                }
            }
        },
    }
}

/// The marker bytes as an executable vector.
fn marker_vec() -> (v: Vec<u8>)
    ensures
        v@ == range_marker(),
{
    let v: Vec<u8> = vec![13u8, 10, 82, 97, 110, 103, 101, 58, 32, 98, 121, 116, 101, 115, 61];
    proof {
        assert(v@ =~= range_marker());
    }
    v
}

/// Whether the range marker occurs at position `p`.
fn marker_matches(request: &[u8], marker: &Vec<u8>, p: usize) -> (r: bool)
    requires
        p + 15 <= request@.len(),
        marker@ == range_marker(),
    ensures
        r == (request@.subrange(p as int, p as int + 15) == range_marker()),
{
    let n = request.len();
    let mut k: usize = 0;
    while k < 15
        invariant
            0 <= k <= 15,
            n == request@.len(),
            p + 15 <= request@.len(),
            marker@ == range_marker(),
            forall|t: int| 0 <= t < k ==> request@[p + t] == range_marker()[t],
        decreases 15 - k,
    {
        if request[p + k] != marker[k] {
            proof {
                let sub = request@.subrange(p as int, p as int + 15);
                if sub == range_marker() {
                    assert(sub[k as int] == request@[p + k]);
                }
            }
            return false;
        }
        k += 1;
    }
    proof {
        assert(request@.subrange(p as int, p as int + 15) =~= range_marker());
    }
    true
}

/// Every byte in a digit run is a digit.
proof fn lemma_digit_run_props(s: Seq<u8>, j: int)
    requires
        0 <= j <= s.len(),
    ensures
        j <= digit_run_end(s, j) <= s.len(),
        forall|t: int| j <= t < digit_run_end(s, j) ==> is_digit_byte(#[trigger] s[t]),
    decreases s.len() - j,
{
    if j < s.len() && is_digit_byte(s[j]) {
        lemma_digit_run_props(s, j + 1);
    }
}

/// A longer digit run never has a smaller value.
proof fn lemma_digits_value_mono(s: Seq<u8>, j: int, k1: int, k2: int)
    requires
        j <= k1 <= k2,
    ensures
        digits_value(s, j, k2) >= digits_value(s, j, k1),
    decreases k2 - k1,
{
    if k1 < k2 {
        lemma_digits_value_mono(s, j, k1, k2 - 1);
    }
}

/// Scan `request[j ..]` for the range marker and the decimal start offset
/// after it.
fn scan_from(request: &[u8], j: usize) -> (r: Option<usize>)
    requires
        j <= request@.len(),
    ensures
        r == scan_range(request@, j as int),
{
    let ghost input = request@;
    let n = request.len();
    let marker = marker_vec();

    // Find the first occurrence of the marker.
    let mut p = j;
    let mut found: Option<usize> = None;
    loop
        invariant_except_break
            j <= p <= n,
            found is None,
            n == input.len(),
            input == request@,
            marker@ == range_marker(),
            find_marker(input, j as int) == find_marker(input, p as int),
        invariant
            n == input.len(),
            input == request@,
        ensures
            match found {
                Some(q) => find_marker(input, j as int) == Some(q as int) && q + 15 <= n,
                None => find_marker(input, j as int) is None,
            },
        decreases n - p,
    {
        if n - p < 15 {
            proof {
                assert(find_marker(input, p as int) is None);
            }
            break;
        }
        if marker_matches(request, &marker, p) {
            found = Some(p);
            proof {
                assert(find_marker(input, p as int) == Some(p as int));
            }
            break;
        }
        proof {
            assert(find_marker(input, p as int) == find_marker(input, p as int + 1));
        }
        p += 1;
    }

    let p = match found {
        None => {
            return None;
        },
        Some(p) => p,
    };

    // Find the end of the digit run after the marker.
    let d0 = p + 15;
    let mut d1 = d0;
    loop
        invariant_except_break
            d0 <= d1 <= n,
            n == input.len(),
            input == request@,
            digit_run_end(input, d0 as int) == digit_run_end(input, d1 as int),
        invariant
            n == input.len(),
            input == request@,
        ensures
            d0 <= d1 <= n,
            digit_run_end(input, d0 as int) == d1 as int,
        decreases n - d1,
    {
        if d1 >= n {
            break;
        }
        let c = request[d1];
        if !(48 <= c && c <= 57) {
            break;
        }
        proof {
            assert(digit_run_end(input, d1 as int) == digit_run_end(input, d1 as int + 1));
        }
        d1 += 1;
    }

    if d1 == d0 {
        return None;
    }

    // Accumulate the decimal value, giving no range start on overflow.
    proof {
        lemma_digit_run_props(input, d0 as int);
    }
    let mut val: usize = 0;
    let mut m = d0;
    while m < d1
        invariant
            d0 <= m <= d1,
            n == input.len(),
            input == request@,
            d0 == p + 15,
            d0 < d1 <= n,
            find_marker(input, j as int) == Some(p as int),
            digit_run_end(input, d0 as int) == d1 as int,
            forall|t: int| d0 <= t < d1 ==> is_digit_byte(#[trigger] input[t]),
            val == digits_value(input, d0 as int, m as int),
        decreases d1 - m,
    {
        let d = (request[m] - 48) as usize;
        let next = match val.checked_mul(10) {
            Some(v10) => v10.checked_add(d),
            None => None,
        };
        match next {
            Some(v) => {
                proof {
                    assert(digits_value(input, d0 as int, m as int + 1) == val * 10 + d);
                }
                val = v;
            },
            None => {
                proof {
                    assert(digits_value(input, d0 as int, m as int + 1) > usize::MAX);
                    lemma_digits_value_mono(input, d0 as int, m as int + 1, d1 as int);
                }
                return None;
            },
        }
        m += 1;
    }
    Some(val)
}

/// Decode every collected query part from UTF-8, failing if any part is not
/// valid UTF-8.
fn convert_query(query: &Vec<(Vec<u8>, Vec<u8>)>) -> (r: Option<Vec<QueryParam>>)
    ensures
        r is Some <==> utf8_query(raw_query_view(query@)),
        r matches Some(qs) ==> Seq::new(qs@.len(), |i: int| qs@[i]@) == decode_query(
            raw_query_view(query@),
        ),
{
    let mut qs: Vec<QueryParam> = Vec::new();
    let mut idx: usize = 0;
    while idx < query.len()
        invariant
            0 <= idx <= query@.len(),
            qs@.len() == idx,
            forall|t: int|
                0 <= t < idx ==> valid_utf8(#[trigger] query@[t].0@) && valid_utf8(query@[t].1@),
            forall|t: int|
                0 <= t < idx ==> (#[trigger] qs@[t])@.key == decode_utf8(query@[t].0@)
                    && qs@[t]@.value == decode_utf8(query@[t].1@),
        decreases query@.len() - idx,
    {
        let pair = &query[idx];
        let key = match bytes_to_string(&pair.0) {
            Some(s) => s,
            None => {
                proof {
                    let q = raw_query_view(query@);
                    assert(!(valid_utf8(q[idx as int].0)));
                }
                return None;
            },
        };
        let value = match bytes_to_string(&pair.1) {
            Some(s) => s,
            None => {
                proof {
                    let q = raw_query_view(query@);
                    assert(!(valid_utf8(q[idx as int].1)));
                    if utf8_query(q) {
                        assert(valid_utf8(q[idx as int].0) && valid_utf8(q[idx as int].1));
                    }
                }
                return None;
            },
        };
        proof {
            assert(valid_utf8(query@[idx as int].0@));
            assert(valid_utf8(query@[idx as int].1@));
            assert forall|t: int| 0 <= t < idx + 1 implies valid_utf8(#[trigger] query@[t].0@)
                && valid_utf8(query@[t].1@) by {
                if t == idx {
                    assert(valid_utf8(query@[t].0@));
                }
            }
        }
        qs.push(QueryParam { key, value });
        idx += 1;
    }
    proof {
        assert forall|i: int| 0 <= i < raw_query_view(query@).len() implies valid_utf8(
            #[trigger] raw_query_view(query@)[i].0,
        ) && valid_utf8(raw_query_view(query@)[i].1) by {
            assert(raw_query_view(query@)[i].0 == query@[i].0@);
        }
        assert(Seq::new(qs@.len(), |i: int| qs@[i]@) =~= decode_query(raw_query_view(query@)));
    }
    Some(qs)
}

impl Request {
    /// From bytes that could be an HTTP request.
    ///
    /// Returns the structured request exactly when the buffer is a
    /// well-formed `GET` target as described by [`parse_spec`], and nothing
    /// otherwise.
    pub fn parse(request: &[u8]) -> (r: Option<Request>)
        ensures
            match r {
                Some(req) => parse_spec(request@) == Some(req@),
                None => parse_spec(request@) is None,
            },
    {
        let ghost input = request@;

        // Parse a GET method or fail
        if request.len() < 4 {
            return None;
        }
        let prefix_ok = request[0] == 71 && request[1] == 69 && request[2] == 84 && request[3]
            == 32;
        proof {
            let sub = input.subrange(0, 4);
            assert(sub[0] == input[0] && sub[1] == input[1] && sub[2] == input[2] && sub[3]
                == input[3]);
            if prefix_ok {
                assert(sub =~= get_prefix());
            }
            if sub == get_prefix() {
                assert(prefix_ok);
            }
        }
        if !prefix_ok {
            return None;
        }

        // Parse the URL as a state machine over path, key, and value parts
        let mut i: usize = 4;
        let mut kind = PartKind::Path;
        let mut part: Vec<u8> = Vec::new();
        let mut path: Vec<u8> = Vec::new();
        let mut query: Vec<(Vec<u8>, Vec<u8>)> = Vec::new();
        let mut scan_start: Option<usize> = None;

        let ghost init = parse_url(
            input,
            4,
            PartKind::Path,
            Seq::empty(),
            UrlParts { path: Seq::empty(), query: Seq::empty() },
        );
        proof {
            assert(raw_query_view(query@) =~= Seq::<(Seq<u8>, Seq<u8>)>::empty());
        }

        while i < request.len()
            invariant_except_break
                4 <= i <= input.len(),
                scan_start is None,
                input == request@,
                input.len() >= 4,
                input.subrange(0, 4) == get_prefix(),
                init == parse_url(
                    input,
                    4,
                    PartKind::Path,
                    Seq::empty(),
                    UrlParts { path: Seq::empty(), query: Seq::empty() },
                ),
                init == parse_url(
                    input,
                    i as int,
                    kind,
                    part@,
                    UrlParts { path: path@, query: raw_query_view(query@) },
                ),
            ensures
                input == request@,
                input.len() >= 4,
                input.subrange(0, 4) == get_prefix(),
                init == parse_url(
                    input,
                    4,
                    PartKind::Path,
                    Seq::empty(),
                    UrlParts { path: Seq::empty(), query: Seq::empty() },
                ),
                init == UrlOutcome::Accepted(
                    UrlParts { path: path@, query: raw_query_view(query@) },
                    match scan_start {
                        None => None,
                        Some(sj) => Some(sj as int),
                    },
                ),
                scan_start matches Some(sj) ==> sj < input.len(),
            decreases input.len() - i,
        {
            let ghost pre_kind = kind;
            let ghost pre_part = part@;
            let ghost pre_acc = UrlParts { path: path@, query: raw_query_view(query@) };
            let b = request[i];
            if b == 32 {
                // Finish at a space; scan on for headers only after ".mp4"
                flush_part(&mut path, &mut query, kind, part);
                let pl = path.len();
                let is_mp4 = pl >= 4 && *path.get(pl - 4).unwrap() == 46 && *path.get(pl - 3).unwrap()
                    == 109 && *path.get(pl - 2).unwrap() == 112 && *path.get(pl - 1).unwrap() == 52;
                proof {
                    assert(is_mp4 == ends_with_mp4(path@));
                }
                if is_mp4 {
                    scan_start = Some(i);
                } else {
                    scan_start = None;
                }
                break;
            } else if b == 37 {
                // Percent encoding: exactly two hexadecimal digits
                if request.len() - i < 3 {
                    proof {
                        assert(init == UrlOutcome::Rejected);
                    }
                    return None;
                }
                let h1 = request[i + 1];
                let h2 = request[i + 2];
                if !(is_hex_digit_exec(h1) && is_hex_digit_exec(h2)) {
                    proof {
                        assert(init == UrlOutcome::Rejected);
                    }
                    return None;
                }
                part.push(hex_value_exec(h1) * 16 + hex_value_exec(h2));
                i += 3;
            } else if b == 63 || b == 38 {
                // Key of query component delimiter
                flush_part(&mut path, &mut query, kind, part);
                part = Vec::new();
                kind = PartKind::Key;
                i += 1;
            } else if b == 61 {
                // Value of query component delimiter, or a literal byte
                match kind {
                    PartKind::Key => {
                        flush_part(&mut path, &mut query, PartKind::Key, part);
                        part = Vec::new();
                        kind = PartKind::Value;
                    },
                    _ => {
                        part.push(61);
                    },
                }
                i += 1;
            } else if is_url_byte_exec(b) {
                // A valid URL character is appended verbatim
                part.push(b);
                i += 1;
            } else {
                // Fail if there's anything else
                proof {
                    assert(init == UrlOutcome::Rejected);
                }
                return None;
            }
        }

        // Parse the range start for ".mp4" targets
        let range_start: Option<usize> = match scan_start {
            None => None,
            Some(sj) => scan_from(request, sj),
        };

        // Every flushed part must decode as valid UTF-8
        let path_string = match bytes_to_string(&path) {
            Some(s) => s,
            None => {
                return None;
            },
        };
        let query_params = match convert_query(&query) {
            Some(qs) => qs,
            None => {
                return None;
            },
        };

        let result = Request { path: path_string, query: query_params, range_start };
        proof {
            let parts = UrlParts { path: path@, query: raw_query_view(query@) };
            assert(result@.query =~= decode_query(parts.query));
            assert(parse_spec(input)->Some_0 =~= result@);
        }
        Some(result)
    }
}

} // verus!
