//! Decoding the request line and the header lines of a header block.

use vstd::prelude::*;
use vstd::slice::{slice_subrange, slice_to_vec};
use vstd::string::StringSliceAdditionalSpecFns;
use vstd::utf8::{decode_utf8, valid_utf8};
use crate::bytes::{
    find,
    find_bytes,
    lemma_find_sound,
    occurs_at,
    same_bytes,
    split_once,
    split_once_bytes,
};
use crate::response::Status;
use crate::text::decode;

verus! {

/// One of the six ASCII white-space characters.
pub open spec fn is_ascii_space(byte: u8) -> bool {
    9 <= byte <= 13 || byte == 32
}

/// The two-byte encodings of white space: U+0085 and U+00A0.
pub open spec fn is_space_pair(first: u8, second: u8) -> bool {
    first == 0xC2 && (second == 0x85 || second == 0xA0)
}

/// The three-byte encodings of white space: U+1680, U+2000 to U+200A,
/// U+2028, U+2029, U+202F, U+205F and U+3000.
pub open spec fn is_space_triple(first: u8, second: u8, third: u8) -> bool {
    ||| first == 0xE1 && second == 0x9A && third == 0x80
    ||| first == 0xE2 && second == 0x80 && (0x80 <= third <= 0x8A || third == 0xA8 || third
        == 0xA9 || third == 0xAF)
    ||| first == 0xE2 && second == 0x81 && third == 0x9F
    ||| first == 0xE3 && second == 0x80 && third == 0x80
}

/// The length in bytes of the white-space character that `text` ends with, or 0.
pub open spec fn space_at_end(text: Seq<u8>) -> int {
    let n = text.len() as int;
    if n >= 1 && is_ascii_space(text[n - 1]) {
        1
    } else if n >= 2 && is_space_pair(text[n - 2], text[n - 1]) {
        2
    } else if n >= 3 && is_space_triple(text[n - 3], text[n - 2], text[n - 1]) {
        3
    } else {
        0
    }
}

/// The length in bytes of the white-space character that `text` begins with, or 0.
pub open spec fn space_at_start(text: Seq<u8>) -> int {
    let n = text.len() as int;
    if n >= 1 && is_ascii_space(text[0]) {
        1
    } else if n >= 2 && is_space_pair(text[0], text[1]) {
        2
    } else if n >= 3 && is_space_triple(text[0], text[1], text[2]) {
        3
    } else {
        0
    }
}

/// `text` without the white space at its end.
pub open spec fn trim_end(text: Seq<u8>) -> Seq<u8>
    decreases text.len(),
{
    if space_at_end(text) == 0 {
        text
    } else {
        trim_end(text.subrange(0, text.len() - space_at_end(text)))
    }
}

/// `text` without the white space at its start.
pub open spec fn trim_start(text: Seq<u8>) -> Seq<u8>
    decreases text.len(),
{
    if space_at_start(text) == 0 {
        text
    } else {
        trim_start(text.subrange(space_at_start(text), text.len() as int))
    }
}

/// `text` without the white space at either end.
pub open spec fn trim(text: Seq<u8>) -> Seq<u8> {
    trim_end(trim_start(text))
}

/// The number that decimal digits stand for.
pub open spec fn number(digits: Seq<u8>) -> int
    decreases digits.len(),
{
    if digits.len() == 0 {
        0
    } else {
        10 * number(digits.drop_last()) + (digits.last() - 48)
    }
}

/// Every byte is a decimal digit.
pub open spec fn all_digits(digits: Seq<u8>) -> bool {
    forall|i: int| 0 <= i < digits.len() ==> 48 <= #[trigger] digits[i] <= 57
}

/// The number below 256 that `text` stands for: decimal digits, at least
/// one, after an optional plus sign.
pub open spec fn small_number(text: Seq<u8>) -> Option<u8> {
    let digits = if text.len() > 0 && text[0] == 43 {
        text.subrange(1, text.len() as int)
    } else {
        text
    };
    if digits.len() > 0 && all_digits(digits) && number(digits) <= 255 {
        Some(number(digits) as u8)
    } else {
        None
    }
}

/// The header values that are looked for.
pub struct Headers {
    pub depth: Option<u8>,
    pub connection: Option<Vec<u8>>,
    pub user_agent: Option<Vec<u8>>,
    pub host: Option<Vec<u8>>,
    pub referrer: Option<Vec<u8>>,
}

/// Header values as contracts see them.
pub struct HeadersView {
    pub depth: Option<u8>,
    pub connection: Option<Seq<u8>>,
    pub user_agent: Option<Seq<u8>>,
    pub host: Option<Seq<u8>>,
    pub referrer: Option<Seq<u8>>,
}

/// The bytes that are held, if any are.
pub open spec fn bytes_view(bytes: Option<Vec<u8>>) -> Option<Seq<u8>> {
    match bytes {
        Some(bytes) => Some(bytes@),
        None => None,
    }
}

impl View for Headers {
    type V = HeadersView;

    open spec fn view(&self) -> HeadersView {
        HeadersView {
            depth: self.depth,
            connection: bytes_view(self.connection),
            user_agent: bytes_view(self.user_agent),
            host: bytes_view(self.host),
            referrer: bytes_view(self.referrer),
        }
    }
}

/// A decoded request.
pub struct Request {
    /// The method token, as sent.
    pub method: Vec<u8>,
    /// The path, up to but without the first question mark.
    pub path: String,
    /// The rest of the request target, from its first question mark on.
    pub search: Vec<u8>,
    pub headers: Headers,
}

/// A request as contracts see it.
pub struct RequestView {
    pub method: Seq<u8>,
    pub path: Seq<char>,
    pub search: Seq<u8>,
    pub headers: HeadersView,
}

impl View for Request {
    type V = RequestView;

    open spec fn view(&self) -> RequestView {
        RequestView {
            method: self.method@,
            path: self.path@,
            search: self.search@,
            headers: self.headers@,
        }
    }
}

/// No header value seen.
pub open spec fn no_headers() -> HeadersView {
    HeadersView { depth: None, connection: None, user_agent: None, host: None, referrer: None }
}

/// What one header line adds to the values seen before it. A line without
/// a colon, or with a name that is not looked for, adds nothing; a `Depth`
/// that is no number below 256 makes the request a bad one.
pub open spec fn with_line(seen: HeadersView, line: Seq<u8>) -> Result<HeadersView, Status> {
    match split_once(line, seq![58u8]) {
        None => Ok(seen),
        Some((name, value)) => {
            let value = trim(value);
            if name == "Depth".spec_bytes() {
                match small_number(value) {
                    Some(depth) => Ok(HeadersView { depth: Some(depth), ..seen }),
                    None => Err(Status::BadRequest),
                }
            } else if name == "Connection".spec_bytes() {
                Ok(HeadersView { connection: Some(value), ..seen })
            } else if name == "User-Agent".spec_bytes() {
                Ok(HeadersView { user_agent: Some(value), ..seen })
            } else if name == "Host".spec_bytes() {
                Ok(HeadersView { host: Some(value), ..seen })
            } else if name == "Referrer".spec_bytes() {
                Ok(HeadersView { referrer: Some(value), ..seen })
            } else {
                Ok(seen)
            }
        },
    }
}

/// What the header lines in `text` add, one after the other, to the values
/// seen before them. Lines end at a line feed; white space at the end of a
/// line does not belong to it.
pub open spec fn with_lines(seen: HeadersView, text: Seq<u8>) -> Result<HeadersView, Status>
    decreases text.len(),
    via with_lines_decreases
{
    match find(text, seq![10u8]) {
        Some(at) => match with_line(seen, trim_end(text.subrange(0, at))) {
            Ok(seen) => with_lines(seen, text.subrange(at + 1, text.len() as int)),
            Err(status) => Err(status),
        },
        None => with_line(seen, trim_end(text)),
    }
}

#[via_fn]
proof fn with_lines_decreases(seen: HeadersView, text: Seq<u8>) {
    lemma_find_sound(text, seq![10u8]);
    match find(text, seq![10u8]) {
        Some(at) => {
            assert(occurs_at(text, seq![10u8], at));
        },
        None => {},
    }
}

/// The request target up to its first question mark, and the rest.
pub open spec fn split_target(target: Seq<u8>) -> (Seq<u8>, Seq<u8>) {
    match find(target, seq![63u8]) {
        Some(at) => (target.subrange(0, at), target.subrange(at, target.len() as int)),
        None => (target, Seq::empty()),
    }
}

/// The request that a header block holds, or the failure that it ends in.
///
/// The first line is `method target version`, parted at its first two
/// spaces; the version is `HTTP/1.0` or `HTTP/1.1`; the lines after it are
/// the header lines, in UTF-8; the target up to its first question mark is
/// the path, in UTF-8.
pub open spec fn parsed(header: Seq<u8>) -> Result<RequestView, Status> {
    let (line, rest) = match split_once(header, seq![13u8, 10u8]) {
        Some(halves) => halves,
        None => (header, Seq::empty()),
    };
    match split_once(line, seq![32u8]) {
        None => Err(Status::BadRequest),
        Some((method, after_method)) => match split_once(after_method, seq![32u8]) {
            None => Err(Status::BadRequest),
            Some((target, version)) => if version != "HTTP/1.0".spec_bytes() && version
                != "HTTP/1.1".spec_bytes() {
                Err(Status::HttpVersionNotSupported)
            } else if !valid_utf8(rest) {
                Err(Status::BadRequest)
            } else if !valid_utf8(split_target(target).0) {
                Err(Status::NotFound)
            } else {
                match with_lines(no_headers(), rest) {
                    Err(status) => Err(status),
                    Ok(headers) => Ok(
                        RequestView {
                            method,
                            path: decode_utf8(split_target(target).0),
                            search: split_target(target).1,
                            headers,
                        },
                    ),
                }
            },
        },
    }
}

/// `text` without the white space at its end.
pub fn trim_end_bytes(text: &[u8]) -> (trimmed: &[u8])
    ensures
        trimmed@ == trim_end(text@),
{
    let mut end = text.len();
    assert(text@.subrange(0, end as int) =~= text@);
    loop
        invariant
            end <= text@.len(),
            trim_end(text@) == trim_end(text@.subrange(0, end as int)),
        ensures
            space_at_end(text@.subrange(0, end as int)) == 0,
        decreases end,
    {
        let ghost rest = text@.subrange(0, end as int);
        let width: usize = if end >= 1 && (9 <= text[end - 1] && text[end - 1] <= 13 || text[end
            - 1] == 32) {
            1
        } else if end >= 2 && text[end - 2] == 0xC2 && (text[end - 1] == 0x85 || text[end - 1]
            == 0xA0) {
            2
        } else if end >= 3 && is_wide_space(text[end - 3], text[end - 2], text[end - 1]) {
            3
        } else {
            0
        };
        assert(width == space_at_end(rest));
        if width == 0 {
            break ;
        }
        assert(rest.subrange(0, end - width) =~= text@.subrange(0, end - width));
        end -= width;
    }
    slice_subrange(text, 0, end)
}

/// `text` without the white space at its start.
pub fn trim_start_bytes(text: &[u8]) -> (trimmed: &[u8])
    ensures
        trimmed@ == trim_start(text@),
{
    let len = text.len();
    let mut start: usize = 0;
    assert(text@.subrange(0, len as int) =~= text@);
    loop
        invariant
            len == text@.len(),
            start <= len,
            trim_start(text@) == trim_start(text@.subrange(start as int, len as int)),
        ensures
            space_at_start(text@.subrange(start as int, len as int)) == 0,
        decreases len - start,
    {
        let ghost rest = text@.subrange(start as int, len as int);
        let left = len - start;
        let width: usize = if left >= 1 && (9 <= text[start] && text[start] <= 13 || text[start]
            == 32) {
            1
        } else if left >= 2 && text[start] == 0xC2 && (text[start + 1] == 0x85 || text[start + 1]
            == 0xA0) {
            2
        } else if left >= 3 && is_wide_space(text[start], text[start + 1], text[start + 2]) {
            3
        } else {
            0
        };
        assert(width == space_at_start(rest));
        if width == 0 {
            break ;
        }
        assert(rest.subrange(width as int, rest.len() as int) =~= text@.subrange(
            start + width,
            len as int,
        ));
        start += width;
    }
    slice_subrange(text, start, len)
}

fn is_wide_space(first: u8, second: u8, third: u8) -> (space: bool)
    ensures
        space == is_space_triple(first, second, third),
{
    first == 0xE1 && second == 0x9A && third == 0x80 || first == 0xE2 && second == 0x80 && (0x80
        <= third && third <= 0x8A || third == 0xA8 || third == 0xA9 || third == 0xAF) || first
        == 0xE2 && second == 0x81 && third == 0x9F || first == 0xE3 && second == 0x80 && third
        == 0x80
}

/// `text` without the white space at either end.
pub fn trim_bytes(text: &[u8]) -> (trimmed: &[u8])
    ensures
        trimmed@ == trim(text@),
{
    trim_end_bytes(trim_start_bytes(text))
}

/// A number never shrinks when digits are added to it.
proof fn lemma_number_grows(digits: Seq<u8>, upto: int)
    requires
        all_digits(digits),
        0 <= upto <= digits.len(),
    ensures
        0 <= number(digits.subrange(0, upto)) <= number(digits),
    decreases digits.len() - upto,
{
    if upto < digits.len() {
        let next = digits.subrange(0, upto + 1);
        assert(next.drop_last() =~= digits.subrange(0, upto));
        assert(next.last() == digits[upto]);
        lemma_number_grows(digits, upto + 1);
        lemma_number_nonnegative(digits.subrange(0, upto));
    } else {
        assert(digits.subrange(0, upto) =~= digits);
        lemma_number_nonnegative(digits);
    }
}

proof fn lemma_number_nonnegative(digits: Seq<u8>)
    requires
        all_digits(digits),
    ensures
        0 <= number(digits),
    decreases digits.len(),
{
    if digits.len() > 0 {
        lemma_number_nonnegative(digits.drop_last());
    }
}

/// The number below 256 that `text` stands for.
#[verifier::loop_isolation(false)]
pub fn parse_small_number(text: &[u8]) -> (value: Option<u8>)
    ensures
        value == small_number(text@),
{
    let digits = if text.len() > 0 && text[0] == 43 {
        slice_subrange(text, 1, text.len())
    } else {
        text
    };
    if digits.len() == 0 {
        return None;
    }
    let mut value: u32 = 0;
    let mut i: usize = 0;
    assert(digits@.subrange(0, 0) =~= Seq::<u8>::empty());
    while i < digits.len()
        invariant
            i <= digits@.len(),
            all_digits(digits@.subrange(0, i as int)),
            value == number(digits@.subrange(0, i as int)),
            value <= 255,
        decreases digits@.len() - i,
    {
        let digit = digits[i];
        if digit < 48 || digit > 57 {
            return None;
        }
        proof {
            let next = digits@.subrange(0, i + 1);
            assert(next.drop_last() =~= digits@.subrange(0, i as int));
            assert(next.last() == digit);
            assert(all_digits(next)) by {
                assert forall|k: int| 0 <= k < next.len() implies 48 <= #[trigger] next[k]
                    <= 57 by {
                    if k < i {
                        assert(digits@.subrange(0, i as int)[k] == next[k]);
                    }
                }
            }
        }
        value = 10 * value + (digit - 48) as u32;
        i += 1;
        if value > 255 {
            proof {
                if all_digits(digits@) {
                    lemma_number_grows(digits@, i as int);
                }
            }
            return None;
        }
    }
    assert(digits@.subrange(0, i as int) =~= digits@);
    Some(value as u8)
}

impl Headers {
    /// No header value seen.
    pub fn new() -> (headers: Self)
        ensures
            headers@ == no_headers(),
    {
        Headers { depth: None, connection: None, user_agent: None, host: None, referrer: None }
    }

    /// Takes one header line.
    pub fn take_line(self, line: &[u8]) -> (taken: Result<Headers, Status>)
        ensures
            match taken {
                Ok(headers) => with_line(self@, line@) == Ok::<HeadersView, Status>(headers@),
                Err(status) => with_line(self@, line@) == Err::<HeadersView, Status>(status),
            },
    {
        let colon: [u8; 1] = [58];
        assert(colon@ =~= seq![58u8]);
        let (name, value) = match split_once_bytes(line, colon.as_slice()) {
            Some(halves) => halves,
            None => {
                return Ok(self);
            },
        };
        let value = trim_bytes(value);
        let mut headers = self;
        if same_bytes(name, "Depth".as_bytes()) {
            match parse_small_number(value) {
                Some(depth) => {
                    headers.depth = Some(depth);
                },
                None => {
                    return Err(Status::BadRequest);
                },
            }
        } else if same_bytes(name, "Connection".as_bytes()) {
            headers.connection = Some(slice_to_vec(value));
        } else if same_bytes(name, "User-Agent".as_bytes()) {
            headers.user_agent = Some(slice_to_vec(value));
        } else if same_bytes(name, "Host".as_bytes()) {
            headers.host = Some(slice_to_vec(value));
        } else if same_bytes(name, "Referrer".as_bytes()) {
            headers.referrer = Some(slice_to_vec(value));
        }
        Ok(headers)
    }
}

/// Decodes a header block: the bytes of a request before the empty line
/// that ends its header lines.
#[verifier::loop_isolation(false)]
pub fn parse_request(header: &[u8]) -> (request: Result<Request, Status>)
    ensures
        match request {
            Ok(request) => parsed(header@) == Ok::<RequestView, Status>(request@),
            Err(status) => parsed(header@) == Err::<RequestView, Status>(status),
        },
{
    let crlf: [u8; 2] = [13, 10];
    let space: [u8; 1] = [32];
    let question: [u8; 1] = [63];
    let newline: [u8; 1] = [10];
    assert(crlf@ =~= seq![13u8, 10u8]);
    assert(space@ =~= seq![32u8]);
    assert(question@ =~= seq![63u8]);
    assert(newline@ =~= seq![10u8]);
    let (line, rest) = match split_once_bytes(header, crlf.as_slice()) {
        Some(halves) => halves,
        None => (header, slice_subrange(header, 0, 0)),
    };
    assert(header@.subrange(0, 0) =~= Seq::<u8>::empty());
    let (method, after_method) = match split_once_bytes(line, space.as_slice()) {
        Some(halves) => halves,
        None => {
            return Err(Status::BadRequest);
        },
    };
    let (target, version) = match split_once_bytes(after_method, space.as_slice()) {
        Some(halves) => halves,
        None => {
            return Err(Status::BadRequest);
        },
    };
    if !same_bytes(version, "HTTP/1.0".as_bytes()) && !same_bytes(version, "HTTP/1.1".as_bytes()) {
        return Err(Status::HttpVersionNotSupported);
    }
    let (path, search) = match find_bytes(target, question.as_slice()) {
        Some(at) => {
            proof {
                lemma_find_sound(target@, question@);
            }
            (slice_subrange(target, 0, at), slice_subrange(target, at, target.len()))
        },
        None => (target, slice_subrange(target, 0, 0)),
    };
    assert(target@.subrange(0, 0) =~= Seq::<u8>::empty());
    assert(path@ == split_target(target@).0 && search@ == split_target(target@).1);
    if decode(rest).is_none() {
        return Err(Status::BadRequest);
    }
    let path = match decode(path) {
        Some(path) => path,
        None => {
            return Err(Status::NotFound);
        },
    };

    let mut headers = Headers::new();
    let mut text = rest;
    loop
        invariant
            newline@ == seq![10u8],
            with_lines(no_headers(), rest@) == with_lines(headers@, text@),
        decreases text@.len(),
    {
        match find_bytes(text, newline.as_slice()) {
            Some(at) => {
                proof {
                    lemma_find_sound(text@, newline@);
                    assert(occurs_at(text@, newline@, at as int));
                    assert(newline@.len() == 1);
                }
                match headers.take_line(trim_end_bytes(slice_subrange(text, 0, at))) {
                    Ok(taken) => {
                        headers = taken;
                    },
                    Err(status) => {
                        return Err(status);
                    },
                }
                let len = text.len();
                text = slice_subrange(text, at + 1, len);
            },
            None => {
                return match headers.take_line(trim_end_bytes(text)) {
                    Ok(headers) => Ok(
                        Request {
                            method: slice_to_vec(method),
                            path: path.to_owned(),
                            search: slice_to_vec(search),
                            headers,
                        },
                    ),
                    Err(status) => Err(status),
                };
            },
        }
    }
}

} // verus!
