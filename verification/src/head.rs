//! The head of a request: the request line, the protocol version, and the one
//! header that is read, `Content-Length`.

use crate::error::RequestError;
use crate::number::{parse_usize, parse_usize_spec};
use crate::scan::{
    crlf, find_terminator, head_end, lemma_head_end_is_stable, terminator, CR, LF,
};
use crate::text::{
    ascii, find, first_from, has_prefix, is_text, lemma_first_from_is_first,
    lemma_first_from_is_stable, occurs_at, split_once, starts_with_text,
};
use vstd::prelude::*;
use vstd::slice::{slice_subrange, slice_to_vec};

verus! {

/// The space that parts method, target and version.
pub const SP: u8 = 32;

/// The colon of a header line.
pub const COLON: u8 = 58;

/// The separator of the request line.
pub open spec fn space() -> Seq<u8> {
    seq![SP]
}

/// The separator between a header's name and its value.
pub open spec fn colon_space() -> Seq<u8> {
    seq![COLON, SP]
}

/// The protocol version that a request names.
#[derive(Clone, Copy, Debug, PartialEq, Eq, Structural)]
pub enum Version {
    /// `HTTP/0.9`, which is refused.
    Http09,
    /// `HTTP/1.0`, answered as such.
    Http10,
    /// Any other token that begins with `HTTP/`, answered as HTTP/1.1.
    Http1x,
    /// Anything else, the empty token too.
    Unknown,
}

/// The version that a token names.
pub open spec fn version_of(token: Seq<u8>) -> Version {
    if token == ascii("HTTP/0.9"@) {
        Version::Http09
    } else if token == ascii("HTTP/1.0"@) {
        Version::Http10
    } else if has_prefix(token, ascii("HTTP/"@)) {
        Version::Http1x
    } else {
        Version::Unknown
    }
}

/// What a request head says, as plain values.
pub struct Head {
    /// The method token.
    pub method: Seq<u8>,
    /// The target path.
    pub target: Seq<u8>,
    /// The protocol version.
    pub version: Version,
    /// The last `Content-Length` of the header block, if it has one.
    pub content_length: Option<usize>,
    /// The index in the buffer at which the body begins.
    pub body_start: int,
}

/// A parsed request head. It is made once, when the terminator has been
/// found, and only read after that.
#[derive(Debug, PartialEq, Eq)]
pub struct RequestHead {
    /// The method token.
    pub method: Vec<u8>,
    /// The target path.
    pub target: Vec<u8>,
    /// The protocol version.
    pub version: Version,
    /// The last `Content-Length` of the header block, if it has one.
    pub content_length: Option<usize>,
    /// The index in the buffer at which the body begins.
    pub body_start: usize,
}

impl View for RequestHead {
    type V = Head;

    open spec fn view(&self) -> Head {
        Head {
            method: self.method@,
            target: self.target@,
            version: self.version,
            content_length: self.content_length,
            body_start: self.body_start as int,
        }
    }
}

/// The request line: what stands before the first line ending.
pub open spec fn request_line_of(buf: Seq<u8>) -> Seq<u8> {
    match first_from(buf, crlf(), 0) {
        Some(i) => buf.take(i),
        None => buf,
    }
}

/// The header block of a head that ends at `end`: what stands between the
/// request line's ending and the terminator.
pub open spec fn header_block_of(buf: Seq<u8>, end: int) -> Seq<u8> {
    match first_from(buf, crlf(), 0) {
        Some(i) => if i + 2 <= end <= buf.len() {
            buf.subrange(i + 2, end)
        } else {
            Seq::empty()
        },
        None => Seq::empty(),
    }
}

/// The lines of a header block, which line endings part.
pub open spec fn header_lines(block: Seq<u8>) -> Seq<Seq<u8>>
    decreases block.len(),
{
    match first_from(block, crlf(), 0) {
        None => seq![block],
        Some(i) => {
            proof {
                lemma_first_from_is_first(block, crlf(), 0);
            }
            seq![block.take(i)] + header_lines(block.skip(i + 2))
        },
    }
}

/// The value of a header line whose name is `Content-Length`. The name ends
/// at the first colon and space.
pub open spec fn content_length_field(line: Seq<u8>) -> Option<Seq<u8>> {
    match split_once(line, colon_space()) {
        Some((name, value)) => if name == ascii("Content-Length"@) {
            Some(value)
        } else {
            None
        },
        None => None,
    }
}

/// The length that header lines declare: that of the last `Content-Length`
/// line, none where there is no such line, and a bad request where the value
/// of any such line is no unsigned number that fits.
pub open spec fn declared_length(lines: Seq<Seq<u8>>) -> Result<Option<usize>, RequestError>
    decreases lines.len(),
{
    if lines.len() == 0 {
        Ok(None)
    } else {
        match declared_length(lines.drop_last()) {
            Err(e) => Err(e),
            Ok(before) => match content_length_field(lines.last()) {
                None => Ok(before),
                Some(value) => match parse_usize_spec(value) {
                    Some(n) => Ok(Some(n)),
                    None => Err(RequestError::BadRequest),
                },
            },
        }
    }
}

/// Method, target and version token of a request line. The first space ends
/// the method and the second the target; without a second one the target
/// runs to the end and the version token is empty. A line without a space
/// has no parts.
pub open spec fn request_parts(line: Seq<u8>) -> Option<(Seq<u8>, Seq<u8>, Seq<u8>)> {
    match split_once(line, space()) {
        None => None,
        Some((method, rest)) => match split_once(rest, space()) {
            Some((target, version)) => Some((method, target, version)),
            None => Some((method, rest, Seq::empty())),
        },
    }
}

/// The head of the request in `buf`. The buffer must hold a terminator; an
/// unreadable `Content-Length` is found before a malformed request line.
pub open spec fn head_of(buf: Seq<u8>) -> Result<Head, RequestError> {
    match head_end(buf) {
        None => Err(RequestError::IncompleteRequest),
        Some(end) => match declared_length(header_lines(header_block_of(buf, end))) {
            Err(e) => Err(e),
            Ok(length) => match request_parts(request_line_of(buf)) {
                None => Err(RequestError::BadRequest),
                Some((method, target, version)) => Ok(
                    Head {
                        method,
                        target,
                        version: version_of(version),
                        content_length: length,
                        body_start: end + 4,
                    },
                ),
            },
        },
    }
}

/// Once header lines declare a bad length, more lines do not mend it.
pub proof fn lemma_bad_length_stays(lines: Seq<Seq<u8>>, more: Seq<Seq<u8>>)
    requires
        declared_length(lines) is Err,
    ensures
        declared_length(lines + more) == declared_length(lines),
    decreases more.len(),
{
    if more.len() == 0 {
        assert(lines + more == lines);
    } else {
        lemma_bad_length_stays(lines, more.drop_last());
        assert((lines + more).drop_last() == lines + more.drop_last());
    }
}

/// A head is read from the bytes up to its terminator alone: whatever
/// stands behind the terminator, and however much of it a read brought
/// along, the head is the same.
pub proof fn lemma_head_ignores_what_follows(buf: Seq<u8>, more: Seq<u8>)
    requires
        head_end(buf) is Some,
    ensures
        head_of(buf + more) == head_of(buf),
{
    let all = buf + more;
    let end = head_end(buf)->0;
    lemma_head_end_is_stable(buf, more);
    lemma_first_from_is_first(buf, terminator(), 0);
    assert(occurs_at(buf, crlf(), end)) by {
        let mark = buf.subrange(end, end + 4);
        assert(mark[0] == CR && mark[1] == LF);
        assert(buf.subrange(end, end + 2) == crlf());
    }
    lemma_first_from_is_first(buf, crlf(), 0);
    assert(first_from(buf, crlf(), 0) is Some);
    lemma_first_from_is_stable(buf, more, crlf());
    let i = first_from(buf, crlf(), 0)->0;
    assert(all.take(i) == buf.take(i));
    if i + 2 <= end {
        assert(all.subrange(i + 2, end) == buf.subrange(i + 2, end));
    }
}

/// The version that a token names.
pub fn classify_version(token: &[u8]) -> (version: Version)
    ensures
        version == version_of(token@),
{
    proof {
        reveal_strlit("HTTP/0.9");
        reveal_strlit("HTTP/1.0");
        reveal_strlit("HTTP/");
    }
    if is_text(token, "HTTP/0.9") {
        Version::Http09
    } else if is_text(token, "HTTP/1.0") {
        Version::Http10
    } else if starts_with_text(token, "HTTP/") {
        Version::Http1x
    } else {
        Version::Unknown
    }
}

/// The two sides of the first occurrence of `pat` in `s`.
pub fn split_at_first<'a>(s: &'a [u8], pat: &[u8]) -> (sides: Option<(&'a [u8], &'a [u8])>)
    ensures
        match sides {
            Some((left, right)) => split_once(s@, pat@) == Some((left@, right@)),
            None => split_once(s@, pat@) is None,
        },
{
    proof {
        lemma_first_from_is_first(s@, pat@, 0);
    }
    match find(s, pat, 0) {
        Some(i) => {
            assert(i + pat.len() <= s.len());
            let left = slice_subrange(s, 0, i);
            let right = slice_subrange(s, i + pat.len(), s.len());
            Some((left, right))
        },
        None => None,
    }
}

/// Method, target and version token of a request line.
pub fn split_request_line<'a>(line: &'a [u8]) -> (parts: Option<(&'a [u8], &'a [u8], &'a [u8])>)
    ensures
        match parts {
            Some((method, target, version)) => request_parts(line@) == Some(
                (method@, target@, version@),
            ),
            None => request_parts(line@) is None,
        },
{
    let sep: [u8; 1] = [SP];
    assert(sep@ == space());
    match split_at_first(line, sep.as_slice()) {
        None => None,
        Some((method, rest)) => match split_at_first(rest, sep.as_slice()) {
            Some((target, version)) => Some((method, target, version)),
            None => {
                let nothing = slice_subrange(rest, 0, 0);
                assert(nothing@ == Seq::<u8>::empty());
                Some((method, rest, nothing))
            },
        },
    }
}

/// The value of a header line whose name is `Content-Length`.
pub fn content_length_value<'a>(line: &'a [u8]) -> (value: Option<&'a [u8]>)
    ensures
        match value {
            Some(v) => content_length_field(line@) == Some(v@),
            None => content_length_field(line@) is None,
        },
{
    let sep: [u8; 2] = [COLON, SP];
    assert(sep@ == colon_space());
    proof {
        reveal_strlit("Content-Length");
    }
    match split_at_first(line, sep.as_slice()) {
        Some((name, value)) => if is_text(name, "Content-Length") {
            Some(value)
        } else {
            None
        },
        None => None,
    }
}

/// The length that a header block declares.
pub fn read_content_length(block: &[u8]) -> (length: Result<Option<usize>, RequestError>)
    ensures
        length == declared_length(header_lines(block@)),
{
    let mark: [u8; 2] = [CR, LF];
    assert(mark@ == crlf());
    let mut length: Option<usize> = None;
    let mut rest: &[u8] = block;
    let ghost mut done: Seq<Seq<u8>> = Seq::empty();
    loop
        invariant
            mark@ == crlf(),
            header_lines(block@) == done + header_lines(rest@),
            declared_length(done) == Ok::<Option<usize>, RequestError>(length),
        decreases rest@.len(),
    {
        proof {
            lemma_first_from_is_first(rest@, crlf(), 0);
        }
        let end = find(rest, mark.as_slice(), 0);
        let line: &[u8] = match end {
            Some(i) => slice_subrange(rest, 0, i),
            None => rest,
        };
        proof {
            assert(done.push(line@).drop_last() == done);
        }
        match content_length_value(line) {
            Some(value) => match parse_usize(value) {
                Some(n) => {
                    length = Some(n);
                },
                None => {
                    proof {
                        let tail = header_lines(rest@).skip(1);
                        assert(header_lines(rest@) == seq![line@] + tail);
                        assert(done + header_lines(rest@) == done.push(line@) + tail);
                        lemma_bad_length_stays(done.push(line@), tail);
                    }
                    return Err(RequestError::BadRequest);
                },
            },
            None => {},
        }
        match end {
            Some(i) => {
                proof {
                    let tail = header_lines(rest@.skip(i + 2));
                    assert(done + header_lines(rest@) == done.push(line@) + tail);
                    done = done.push(line@);
                }
                assert(i + 2 <= rest.len());
                rest = slice_subrange(rest, i + 2, rest.len());
            },
            None => {
                assert(done + header_lines(rest@) == done.push(line@));
                return Ok(length);
            },
        }
    }
}

/// The head of the request in `buf`, whose terminator stands at `end`.
pub fn parse_head_at(buf: &[u8], end: usize) -> (head: Result<RequestHead, RequestError>)
    requires
        head_end(buf@) == Some(end as int),
    ensures
        match head {
            Ok(h) => head_of(buf@) == Ok::<Head, RequestError>(h@),
            Err(e) => head_of(buf@) == Err::<Head, RequestError>(e),
        },
{
    proof {
        lemma_first_from_is_first(buf@, terminator(), 0);
        lemma_first_from_is_first(buf@, crlf(), 0);
    }
    assert(end + 4 <= buf.len());
    let mark: [u8; 2] = [CR, LF];
    assert(mark@ == crlf());
    let line_end = find(buf, mark.as_slice(), 0);
    let (line, block): (&[u8], &[u8]) = match line_end {
        Some(i) => (
            slice_subrange(buf, 0, i),
            if i <= end && end - i >= 2 {
                slice_subrange(buf, i + 2, end)
            } else {
                slice_subrange(buf, 0, 0)
            },
        ),
        None => (buf, slice_subrange(buf, 0, 0)),
    };
    assert(line@ == request_line_of(buf@));
    assert(block@ == header_block_of(buf@, end as int));
    let length = match read_content_length(block) {
        Ok(length) => length,
        Err(e) => {
            return Err(e);
        },
    };
    match split_request_line(line) {
        None => Err(RequestError::BadRequest),
        Some((method, target, version)) => Ok(
            RequestHead {
                method: slice_to_vec(method),
                target: slice_to_vec(target),
                version: classify_version(version),
                content_length: length,
                body_start: end + 4,
            },
        ),
    }
}

/// The head of the request in `buf`; an incomplete request where the buffer
/// holds no terminator.
pub fn parse_head(buf: &[u8]) -> (head: Result<RequestHead, RequestError>)
    ensures
        match head {
            Ok(h) => head_of(buf@) == Ok::<Head, RequestError>(h@),
            Err(e) => head_of(buf@) == Err::<Head, RequestError>(e),
        },
{
    match find_terminator(buf, 0) {
        Some(end) => parse_head_at(buf, end),
        None => Err(RequestError::IncompleteRequest),
    }
}

} // verus!
