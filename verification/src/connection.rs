//! One connection's request, from the first read to the one response: the
//! caller reads, hands over what it read, and is told what to do next.

use crate::error::RequestError;
use crate::event::{frame_body, frame_of, lossy_utf8};
use crate::head::{
    head_of, lemma_head_ignores_what_follows, parse_head_at, request_line_of, request_parts,
    version_of, Head, RequestHead, Version,
};
use crate::number::{decimal_digits, parse_usize_spec};
use crate::response::{
    bad_request, bad_request_reply, document, document_head, document_head_reply, document_reply,
    lemma_document_replies_agree, method_not_allowed, method_not_allowed_reply, no_content,
    no_content_reply, not_found, not_found_reply, payload_too_large, payload_too_large_reply,
    stream_head, stream_head_reply, upgrade_required, upgrade_required_reply,
    version_not_supported, version_not_supported_reply,
};
use crate::route::{route, route_of, Route};
use crate::scan::{find_terminator, head_end, lemma_resumed_search_misses_nothing, terminator};
use crate::text::{
    ascii, has_prefix, joined, lemma_first_from_is_first, lemma_joined_first,
    lemma_prefix_holds_none, push_bytes,
};
use vstd::prelude::*;
use vstd::slice::slice_subrange;

verus! {

/// The capacity of a connection's buffer, in bytes. A request, head and body
/// together, must fit it.
pub const MAX_REQUEST: usize = 65536;

/// How long a read may take, in seconds.
pub const READ_TIMEOUT_SECS: u64 = 10;

/// How long a write may take, in seconds.
pub const WRITE_TIMEOUT_SECS: u64 = 10;

/// How far a connection has come.
#[derive(Clone, Copy, Debug, PartialEq, Eq)]
pub enum Phase {
    /// The head is not complete yet.
    Head,
    /// The head asked to post a message, and its body is not complete yet.
    Body {
        /// The version in which the answer will be given.
        version: Version,
        /// The length that the head declared.
        declared: Option<usize>,
        /// The index in the buffer at which the body begins.
        start: usize,
    },
    /// The connection has had its one answer.
    Done,
}

/// A connection as plain values: what was read so far, and how far the
/// request has come.
pub struct State {
    /// The bytes read so far.
    pub buffered: Seq<u8>,
    /// How far the request has come.
    pub phase: Phase,
}

/// What the caller does next, as plain values.
pub enum Next {
    /// Read into the room that is left, and hand over what was read.
    Read,
    /// Send the response and close.
    Reply(Seq<u8>),
    /// Subscribe to the hub, send the headers at once, then run the stream.
    Stream(Seq<u8>),
    /// Broadcast the frame, then send the response and close.
    Publish { frame: Seq<u8>, reply: Seq<u8> },
    /// The request failed; send the response and close.
    Reject { error: RequestError, reply: Seq<u8> },
    /// The request failed and the connection is of no use; close it.
    Abandon { error: RequestError },
    /// Nothing: the connection has had its answer.
    Done,
}

/// What the caller does next.
#[derive(Debug, PartialEq, Eq)]
pub enum Step {
    /// Read into the room that is left, and hand over what was read.
    Read,
    /// Send the response and close.
    Reply(Vec<u8>),
    /// Subscribe to the hub, send the headers at once, then run the stream.
    Stream(Vec<u8>),
    /// Broadcast the frame, then send the response and close.
    Publish { frame: Vec<u8>, reply: Vec<u8> },
    /// The request failed; send the response and close.
    Reject { error: RequestError, reply: Vec<u8> },
    /// The request failed and the connection is of no use; close it.
    Abandon { error: RequestError },
    /// Nothing: the connection has had its answer.
    Done,
}

impl View for Step {
    type V = Next;

    open spec fn view(&self) -> Next {
        match *self {
            Step::Read => Next::Read,
            Step::Reply(reply) => Next::Reply(reply@),
            Step::Stream(head) => Next::Stream(head@),
            Step::Publish { frame, reply } => Next::Publish { frame: frame@, reply: reply@ },
            Step::Reject { error, reply } => Next::Reject { error, reply: reply@ },
            Step::Abandon { error } => Next::Abandon { error },
            Step::Done => Next::Done,
        }
    }
}

/// What the server serves: its name for the `Server` header, and the static
/// document.
#[derive(Debug)]
pub struct Site {
    /// The server's name.
    pub server: Vec<u8>,
    /// The document at `/`.
    pub document: Vec<u8>,
}

/// The state is one that a connection can be in: the buffer is within its
/// capacity; while the head is awaited the buffer has room and holds no
/// terminator; while the body is awaited the buffer has room, the body is
/// short of what was declared, and what the phase holds is what the head in
/// the buffer says: a post to the stream, in a version that is answered.
pub open spec fn valid(s: State) -> bool {
    &&& s.buffered.len() <= MAX_REQUEST
    &&& match s.phase {
        Phase::Head => s.buffered.len() < MAX_REQUEST && head_end(s.buffered) is None,
        Phase::Body { version, declared, start } => {
            &&& s.buffered.len() < MAX_REQUEST
            &&& start <= s.buffered.len()
            &&& (version == Version::Http10 || version == Version::Http1x)
            &&& (declared matches Some(n) ==> s.buffered.len() - start < n)
            &&& posts(s.buffered, version, declared, start)
        },
        Phase::Done => true,
    }
}

/// The head in the buffer asks to post a message, in this version, with
/// this declared length, and with its body from this index on.
pub open spec fn posts(
    buffered: Seq<u8>,
    version: Version,
    declared: Option<usize>,
    start: usize,
) -> bool {
    &&& head_of(buffered) matches Ok(head)
    &&& head.version == version
    &&& head.content_length == declared
    &&& head.body_start == start
    &&& route_of(head.method, head.target) == Route::Ingest
}

/// A connection before its first read.
pub open spec fn fresh() -> State {
    State { buffered: Seq::empty(), phase: Phase::Head }
}

/// The state once the connection has had its answer.
pub open spec fn finished(buffered: Seq<u8>) -> State {
    State { buffered, phase: Phase::Done }
}

/// The body of a posted message: as many bytes as were declared, or all that
/// came where no length was declared.
pub open spec fn body_of(buffered: Seq<u8>, declared: Option<usize>, start: usize) -> Seq<u8> {
    match declared {
        Some(n) => buffered.subrange(start as int, start + n),
        None => buffered.skip(start as int),
    }
}

/// The step that hands a posted message on: its body is decoded, framed and
/// broadcast, and the post is answered with 204.
pub open spec fn published(
    buffered: Seq<u8>,
    version: Version,
    declared: Option<usize>,
    start: usize,
    server: Seq<u8>,
) -> Next {
    Next::Publish {
        frame: frame_of(lossy_utf8(body_of(buffered, declared, start))),
        reply: no_content_reply(version, server),
    }
}

/// What follows when the body is awaited and the buffer holds `buffered`.
/// The message is published once the declared length is there. A full
/// buffer ends the wait: with 413 where a length was declared, and with the
/// message as it stands where none was. Else more is read.
pub open spec fn body_step(
    buffered: Seq<u8>,
    version: Version,
    declared: Option<usize>,
    start: usize,
    server: Seq<u8>,
) -> (State, Next) {
    if declared is Some && buffered.len() - start >= declared->0 {
        (finished(buffered), published(buffered, version, declared, start, server))
    } else if buffered.len() >= MAX_REQUEST {
        match declared {
            Some(_) => (
                finished(buffered),
                Next::Reject {
                    error: RequestError::PayloadTooLarge,
                    reply: payload_too_large_reply(),
                },
            ),
            None => (finished(buffered), published(buffered, version, declared, start, server)),
        }
    } else {
        (State { buffered, phase: Phase::Body { version, declared, start } }, Next::Read)
    }
}

/// What follows a complete head. The version is looked at first: HTTP/0.9
/// gets 426 and a token that is not HTTP gets 505, before the path or the
/// body is looked at. Then the route decides.
pub open spec fn head_step(buffered: Seq<u8>, head: Head, server: Seq<u8>, document: Seq<u8>) -> (
    State,
    Next,
) {
    match head.version {
        Version::Http09 => (
            finished(buffered),
            Next::Reject { error: RequestError::UpgradeRequired, reply: upgrade_required_reply() },
        ),
        Version::Unknown => (
            finished(buffered),
            Next::Reject {
                error: RequestError::VersionNotSupported,
                reply: version_not_supported_reply(),
            },
        ),
        version => match route_of(head.method, head.target) {
            Route::ServeDocument => (
                finished(buffered),
                Next::Reply(document_reply(version, server, document)),
            ),
            Route::DescribeDocument => (
                finished(buffered),
                Next::Reply(document_head_reply(version, server, document.len())),
            ),
            Route::OpenStream => (
                finished(buffered),
                Next::Stream(stream_head_reply(version, server)),
            ),
            Route::DescribeStream => (
                finished(buffered),
                Next::Reply(stream_head_reply(version, server)),
            ),
            Route::Ingest => body_step(
                buffered,
                version,
                head.content_length,
                head.body_start as usize,
                server,
            ),
            Route::MethodNotAllowed(resource) => (
                finished(buffered),
                Next::Reject {
                    error: RequestError::MethodNotAllowed,
                    reply: method_not_allowed_reply(version, resource),
                },
            ),
            Route::NotFound => (
                finished(buffered),
                Next::Reject { error: RequestError::NotFound, reply: not_found_reply(version) },
            ),
        },
    }
}

/// What follows a read that brought `chunk`; an empty chunk says that the
/// peer has closed.
///
/// While the head is awaited: a closed peer gets 400; a chunk beyond the
/// buffer's room gets 413; else the chunk is kept, and the head is parsed
/// as soon as the buffer holds a terminator, an unreadable head getting 400.
/// A buffer that is full without a terminator gets 413.
///
/// While the body is awaited: a closed peer ends the connection without a
/// response where a length was declared, and ends the message where none
/// was; a chunk beyond the room gets 413; else the chunk is kept.
pub open spec fn read_step(s: State, chunk: Seq<u8>, server: Seq<u8>, document: Seq<u8>) -> (
    State,
    Next,
) {
    let too_large = Next::Reject {
        error: RequestError::PayloadTooLarge,
        reply: payload_too_large_reply(),
    };
    match s.phase {
        Phase::Done => (s, Next::Done),
        Phase::Head => if chunk.len() == 0 {
            (
                finished(s.buffered),
                Next::Reject { error: RequestError::IncompleteRequest, reply: bad_request_reply() },
            )
        } else if s.buffered.len() + chunk.len() > MAX_REQUEST {
            (finished(s.buffered), too_large)
        } else {
            let buffered = s.buffered + chunk;
            match head_end(buffered) {
                None => if buffered.len() >= MAX_REQUEST {
                    (finished(buffered), too_large)
                } else {
                    (State { buffered, phase: Phase::Head }, Next::Read)
                },
                Some(_) => match head_of(buffered) {
                    Err(error) => (
                        finished(buffered),
                        Next::Reject { error, reply: bad_request_reply() },
                    ),
                    Ok(head) => head_step(buffered, head, server, document),
                },
            }
        },
        Phase::Body { version, declared, start } => if chunk.len() == 0 {
            match declared {
                Some(_) => (
                    finished(s.buffered),
                    Next::Abandon { error: RequestError::IncompleteRequest },
                ),
                None => (
                    finished(s.buffered),
                    published(s.buffered, version, declared, start, server),
                ),
            }
        } else if s.buffered.len() + chunk.len() > MAX_REQUEST {
            (finished(s.buffered), too_large)
        } else {
            body_step(s.buffered + chunk, version, declared, start, server)
        },
    }
}

/// What a run of reads leads to: the chunks are taken one by one for as long
/// as the answer is to read more. `Read` says that the run left the request
/// unfinished.
pub open spec fn feed(s: State, chunks: Seq<Seq<u8>>, server: Seq<u8>, document: Seq<u8>) -> (
    State,
    Next,
)
    decreases chunks.len(),
{
    if chunks.len() == 0 {
        (s, Next::Read)
    } else {
        let (t, next) = read_step(s, chunks[0], server, document);
        if next is Read {
            feed(t, chunks.skip(1), server, document)
        } else {
            (t, next)
        }
    }
}

/// A step leads from a state that a connection can be in to another such
/// state. One that asks for another read has kept the chunk and has room
/// left; since a chunk that is kept is not empty, a connection asks for
/// fewer reads than its buffer has bytes. Any other step ends the
/// connection.
pub proof fn lemma_step_keeps_valid(s: State, chunk: Seq<u8>, server: Seq<u8>, document: Seq<u8>)
    requires
        valid(s),
    ensures
        valid(read_step(s, chunk, server, document).0),
        read_step(s, chunk, server, document).1 is Read ==> {
            &&& read_step(s, chunk, server, document).0.buffered == s.buffered + chunk
            &&& chunk.len() > 0
            &&& !(read_step(s, chunk, server, document).0.phase is Done)
        },
        !(read_step(s, chunk, server, document).1 is Read) ==> read_step(
            s,
            chunk,
            server,
            document,
        ).0.phase is Done,
{
    let buffered = s.buffered + chunk;
    if s.phase is Head && chunk.len() > 0 && buffered.len() <= MAX_REQUEST {
        lemma_first_from_is_first(buffered, terminator(), 0);
    }
    if s.phase is Body {
        lemma_head_ignores_what_follows(s.buffered, chunk);
    }
}

/// How the reads split the bytes does not matter: a chunk that comes to a
/// connection which awaits more leads to what the bytes so far and the
/// chunk would have led to, had they come in one read to a connection
/// before its first.
pub proof fn lemma_reads_may_split_anywhere(
    s: State,
    chunk: Seq<u8>,
    server: Seq<u8>,
    document: Seq<u8>,
)
    requires
        valid(s),
        !(s.phase is Done),
        chunk.len() > 0,
        s.buffered.len() + chunk.len() <= MAX_REQUEST,
    ensures
        read_step(s, chunk, server, document) == read_step(
            fresh(),
            s.buffered + chunk,
            server,
            document,
        ),
{
    let buffered = s.buffered + chunk;
    assert(fresh().buffered + buffered == buffered);
    if s.phase is Body {
        lemma_head_ignores_what_follows(s.buffered, chunk);
        lemma_first_from_is_first(buffered, terminator(), 0);
    }
}

/// A run of reads that has come to its last chunk does with it what one
/// read more, from where the others led, does.
pub proof fn lemma_feed_last(s: State, chunks: Seq<Seq<u8>>, server: Seq<u8>, document: Seq<u8>)
    requires
        valid(s),
        chunks.len() > 0,
        feed(s, chunks.drop_last(), server, document).1 is Read,
    ensures
        valid(feed(s, chunks.drop_last(), server, document).0),
        feed(s, chunks.drop_last(), server, document).0.buffered == s.buffered + joined(
            chunks.drop_last(),
        ),
        feed(s, chunks.drop_last(), server, document).0.phase is Done ==> s.phase is Done,
        feed(s, chunks, server, document) == read_step(
            feed(s, chunks.drop_last(), server, document).0,
            chunks.last(),
            server,
            document,
        ),
    decreases chunks.len(),
{
    let fewer = chunks.drop_last();
    if chunks.len() == 1 {
        assert(fewer.len() == 0);
        assert(joined(fewer) == Seq::<u8>::empty());
        assert(s.buffered + joined(fewer) == s.buffered);
        assert(chunks.skip(1).len() == 0);
        let (t, next) = read_step(s, chunks[0], server, document);
        if next is Read {
            assert(feed(t, chunks.skip(1), server, document) == (t, Next::Read));
        }
    } else {
        let (t, next) = read_step(s, chunks[0], server, document);
        assert(fewer[0] == chunks[0]);
        assert(fewer.skip(1) == chunks.skip(1).drop_last());
        assert(chunks.skip(1).last() == chunks.last());
        lemma_step_keeps_valid(s, chunks[0], server, document);
        assert(next is Read);
        lemma_feed_last(t, chunks.skip(1), server, document);
        lemma_joined_first(fewer);
        assert(s.buffered + chunks[0] + joined(fewer.skip(1)) == s.buffered + (chunks[0] + joined(
            fewer.skip(1),
        )));
    }
}

/// The answer to a request depends on its bytes and not on the reads that
/// brought them: a run of reads, none of them empty, that has not had its
/// answer before the last chunk ends as one read of all the bytes would.
pub proof fn lemma_answer_depends_on_bytes_alone(
    chunks: Seq<Seq<u8>>,
    server: Seq<u8>,
    document: Seq<u8>,
)
    requires
        chunks.len() > 0,
        chunks.last().len() > 0,
        joined(chunks).len() <= MAX_REQUEST,
        feed(fresh(), chunks.drop_last(), server, document).1 is Read,
    ensures
        feed(fresh(), chunks, server, document) == read_step(
            fresh(),
            joined(chunks),
            server,
            document,
        ),
{
    lemma_first_from_is_first(Seq::<u8>::empty(), terminator(), 0);
    lemma_feed_last(fresh(), chunks, server, document);
    let t = feed(fresh(), chunks.drop_last(), server, document).0;
    assert(t.buffered == joined(chunks.drop_last())) by {
        assert(fresh().buffered + joined(chunks.drop_last()) == joined(chunks.drop_last()));
    }
    lemma_reads_may_split_anywhere(t, chunks.last(), server, document);
}

/// A request whose head does not fit the buffer gets 413: where the bytes
/// that come fill the buffer, and its capacity holds no terminator, the run
/// of reads ends in that response, however the reads split the bytes.
pub proof fn lemma_oversized_head_gets_413(
    s: State,
    chunks: Seq<Seq<u8>>,
    server: Seq<u8>,
    document: Seq<u8>,
)
    requires
        valid(s),
        s.phase is Head,
        forall|i: int| 0 <= i < chunks.len() ==> (#[trigger] chunks[i]).len() > 0,
        (s.buffered + joined(chunks)).len() >= MAX_REQUEST,
        head_end((s.buffered + joined(chunks)).take(MAX_REQUEST as int)) is None,
    ensures
        feed(s, chunks, server, document).1 == (Next::Reject {
            error: RequestError::PayloadTooLarge,
            reply: payload_too_large_reply(),
        }),
        feed(s, chunks, server, document).0.phase is Done,
    decreases chunks.len(),
{
    let all = s.buffered + joined(chunks);
    if chunks.len() == 0 {
        assert(joined(chunks).len() == 0);
    } else {
        let chunk = chunks[0];
        let rest = chunks.skip(1);
        lemma_joined_first(chunks);
        if s.buffered.len() + chunk.len() <= MAX_REQUEST {
            let buffered = s.buffered + chunk;
            assert(all == buffered + joined(rest));
            lemma_prefix_holds_none(
                all.take(MAX_REQUEST as int),
                terminator(),
                buffered.len() as int,
            );
            assert(all.take(MAX_REQUEST as int).take(buffered.len() as int) == buffered);
            if buffered.len() < MAX_REQUEST {
                let t = State { buffered, phase: Phase::Head };
                assert(read_step(s, chunk, server, document) == (t, Next::Read));
                assert forall|i: int| 0 <= i < rest.len() implies (#[trigger] rest[i]).len()
                    > 0 by {
                    assert(rest[i] == chunks[i + 1]);
                }
                lemma_oversized_head_gets_413(t, rest, server, document);
            }
        }
    }
}

/// A request whose version token does not begin with `HTTP/` gets 505 as
/// soon as its head is complete, and the connection ends there: no body is
/// awaited. This is said of a head that can be read; one that declares an
/// unreadable length, or has no method and target, gets 400 before its
/// version is looked at.
pub proof fn lemma_unknown_version_gets_505(
    s: State,
    chunk: Seq<u8>,
    server: Seq<u8>,
    document: Seq<u8>,
)
    requires
        valid(s),
        s.phase is Head,
        chunk.len() > 0,
        s.buffered.len() + chunk.len() <= MAX_REQUEST,
        head_of(s.buffered + chunk) is Ok,
        request_parts(request_line_of(s.buffered + chunk)) matches Some(parts) && !has_prefix(
            parts.2,
            ascii("HTTP/"@),
        ),
    ensures
        read_step(s, chunk, server, document) == (
            finished(s.buffered + chunk),
            Next::Reject {
                error: RequestError::VersionNotSupported,
                reply: version_not_supported_reply(),
            },
        ),
{
    reveal_strlit("HTTP/");
    reveal_strlit("HTTP/0.9");
    reveal_strlit("HTTP/1.0");
    let parts = request_parts(request_line_of(s.buffered + chunk))->Some_0;
    let token = parts.2;
    if token == ascii("HTTP/0.9"@) || token == ascii("HTTP/1.0"@) {
        assert(token.subrange(0, 5) == ascii("HTTP/"@));
    }
    assert(version_of(token) == Version::Unknown);
}

/// `GET /` and `HEAD /` are answered alike: for two heads of one version
/// that ask for `/`, one with `GET` and one with `HEAD`, the first gets what
/// the second gets and the document behind it, byte for byte, and the length
/// that both declare reads back as the document's length.
pub proof fn lemma_get_and_head_agree(
    buffered: Seq<u8>,
    get: Head,
    head: Head,
    server: Seq<u8>,
    document: Seq<u8>,
)
    requires
        get.version == head.version,
        get.version == Version::Http10 || get.version == Version::Http1x,
        get.target == ascii("/"@),
        head.target == ascii("/"@),
        get.method == ascii("GET"@),
        head.method == ascii("HEAD"@),
        document.len() <= usize::MAX,
    ensures
        head_step(buffered, head, server, document).1 == Next::Reply(
            document_head_reply(head.version, server, document.len()),
        ),
        head_step(buffered, get, server, document).1 == Next::Reply(
            document_head_reply(head.version, server, document.len()) + document,
        ),
        parse_usize_spec(decimal_digits(document.len())) == Some(document.len() as usize),
{
    reveal_strlit("/");
    reveal_strlit("/chat");
    reveal_strlit("GET");
    reveal_strlit("HEAD");
    assert(ascii("GET"@) != ascii("HEAD"@)) by {
        assert(ascii("GET"@).len() == 3);
        assert(ascii("HEAD"@).len() == 4);
    }
    lemma_document_replies_agree(head.version, server, document);
}

/// A post that declared its length and whose peer closes before the body
/// is complete ends without a response, and nothing is broadcast.
pub proof fn lemma_short_body_gets_no_response(
    s: State,
    server: Seq<u8>,
    document: Seq<u8>,
)
    requires
        valid(s),
        s.phase matches Phase::Body { declared, .. } && declared is Some,
    ensures
        read_step(s, Seq::empty(), server, document) == (
            finished(s.buffered),
            Next::Abandon { error: RequestError::IncompleteRequest },
        ),
{
}

/// One connection: its buffer, and how far its request has come.
#[derive(Debug)]
pub struct Connection {
    buf: Vec<u8>,
    phase: Phase,
}

impl View for Connection {
    type V = State;

    closed spec fn view(&self) -> State {
        State { buffered: self.buf@, phase: self.phase }
    }
}

impl Connection {
    /// The connection is in a state that it can be in.
    pub open spec fn wf(&self) -> bool {
        valid(self@)
    }

    /// A connection before its first read.
    pub fn new() -> (conn: Connection)
        ensures
            conn.wf(),
            conn@ == fresh(),
    {
        proof {
            lemma_first_from_is_first(Seq::<u8>::empty(), terminator(), 0);
        }
        Connection { buf: Vec::new(), phase: Phase::Head }
    }

    /// The bytes read so far.
    pub fn buffered(&self) -> (bytes: &[u8])
        ensures
            bytes@ == self@.buffered,
    {
        self.buf.as_slice()
    }

    /// How far the request has come.
    pub fn phase(&self) -> (phase: Phase)
        ensures
            phase == self@.phase,
    {
        self.phase
    }

    /// How many bytes the next read may bring.
    pub fn room(&self) -> (room: usize)
        requires
            self.wf(),
        ensures
            room == MAX_REQUEST - self@.buffered.len(),
    {
        MAX_REQUEST - self.buf.len()
    }

    /// Ends the connection and says so.
    fn finish(&mut self, step: Step) -> (same: Step)
        requires
            old(self)@.buffered.len() <= MAX_REQUEST,
        ensures
            same == step,
            final(self)@ == finished(old(self)@.buffered),
            final(self).wf(),
    {
        self.phase = Phase::Done;
        step
    }

    /// The step that hands the posted message on.
    fn publish(
        &self,
        version: Version,
        declared: Option<usize>,
        start: usize,
        site: &Site,
    ) -> (step: Step)
        requires
            start <= self@.buffered.len(),
            declared matches Some(n) ==> start + n <= self@.buffered.len(),
        ensures
            step@ == published(self@.buffered, version, declared, start, site.server@),
    {
        let held: usize = self.buf.len();
        let end: usize = match declared {
            Some(n) => {
                assert(start + n <= held);
                start + n
            },
            None => held,
        };
        let body = slice_subrange(self.buf.as_slice(), start, end);
        assert(body@ == body_of(self@.buffered, declared, start));
        Step::Publish {
            frame: frame_body(body),
            reply: no_content(version, site.server.as_slice()),
        }
    }

    /// What follows when the body is awaited.
    fn await_body(
        &mut self,
        version: Version,
        declared: Option<usize>,
        start: usize,
        site: &Site,
    ) -> (step: Step)
        requires
            old(self)@.buffered.len() <= MAX_REQUEST,
            start <= old(self)@.buffered.len(),
            version == Version::Http10 || version == Version::Http1x,
            posts(old(self)@.buffered, version, declared, start),
        ensures
            final(self).wf(),
            (final(self)@, step@) == body_step(
                old(self)@.buffered,
                version,
                declared,
                start,
                site.server@,
            ),
    {
        let available: usize = self.buf.len() - start;
        let complete: bool = match declared {
            Some(n) => available >= n,
            None => false,
        };
        if complete {
            let step = self.publish(version, declared, start, site);
            self.finish(step)
        } else if self.buf.len() >= MAX_REQUEST {
            match declared {
                Some(_) => self.finish(
                    Step::Reject {
                        error: RequestError::PayloadTooLarge,
                        reply: payload_too_large(),
                    },
                ),
                None => {
                    let step = self.publish(version, declared, start, site);
                    self.finish(step)
                },
            }
        } else {
            self.phase = Phase::Body { version, declared, start };
            Step::Read
        }
    }

    /// What follows a complete head.
    fn answer(&mut self, head: &RequestHead, site: &Site) -> (step: Step)
        requires
            old(self)@.buffered.len() <= MAX_REQUEST,
            head@.body_start <= old(self)@.buffered.len(),
            head_of(old(self)@.buffered) == Ok::<Head, RequestError>(head@),
        ensures
            final(self).wf(),
            (final(self)@, step@) == head_step(
                old(self)@.buffered,
                head@,
                site.server@,
                site.document@,
            ),
    {
        let server = site.server.as_slice();
        match head.version {
            Version::Http09 => self.finish(
                Step::Reject { error: RequestError::UpgradeRequired, reply: upgrade_required() },
            ),
            Version::Unknown => self.finish(
                Step::Reject {
                    error: RequestError::VersionNotSupported,
                    reply: version_not_supported(),
                },
            ),
            version => match route(head.method.as_slice(), head.target.as_slice()) {
                Route::ServeDocument => self.finish(
                    Step::Reply(document(version, server, site.document.as_slice())),
                ),
                Route::DescribeDocument => self.finish(
                    Step::Reply(document_head(version, server, site.document.len())),
                ),
                Route::OpenStream => self.finish(Step::Stream(stream_head(version, server))),
                Route::DescribeStream => self.finish(Step::Reply(stream_head(version, server))),
                Route::Ingest => self.await_body(
                    version,
                    head.content_length,
                    head.body_start,
                    site,
                ),
                Route::MethodNotAllowed(resource) => self.finish(
                    Step::Reject {
                        error: RequestError::MethodNotAllowed,
                        reply: method_not_allowed(version, resource),
                    },
                ),
                Route::NotFound => self.finish(
                    Step::Reject { error: RequestError::NotFound, reply: not_found(version) },
                ),
            },
        }
    }

    /// Takes what a read brought, an empty chunk where the peer has closed,
    /// and says what to do next.
    pub fn on_read(&mut self, chunk: &[u8], site: &Site) -> (step: Step)
        requires
            old(self).wf(),
        ensures
            final(self).wf(),
            (final(self)@, step@) == read_step(old(self)@, chunk@, site.server@, site.document@),
    {
        match self.phase {
            Phase::Done => Step::Done,
            Phase::Head => {
                if chunk.len() == 0 {
                    return self.finish(
                        Step::Reject {
                            error: RequestError::IncompleteRequest,
                            reply: bad_request(),
                        },
                    );
                }
                if chunk.len() > MAX_REQUEST - self.buf.len() {
                    return self.finish(
                        Step::Reject {
                            error: RequestError::PayloadTooLarge,
                            reply: payload_too_large(),
                        },
                    );
                }
                let scanned: usize = self.buf.len();
                push_bytes(&mut self.buf, chunk);
                proof {
                    assert(self.buf@.take(scanned as int) == old(self).buf@);
                    lemma_resumed_search_misses_nothing(self.buf@, scanned as int);
                }
                match find_terminator(self.buf.as_slice(), scanned) {
                    None => if self.buf.len() >= MAX_REQUEST {
                        self.finish(
                            Step::Reject {
                                error: RequestError::PayloadTooLarge,
                                reply: payload_too_large(),
                            },
                        )
                    } else {
                        Step::Read
                    },
                    Some(end) => match parse_head_at(self.buf.as_slice(), end) {
                        Err(error) => self.finish(Step::Reject { error, reply: bad_request() }),
                        Ok(head) => self.answer(&head, site),
                    },
                }
            },
            Phase::Body { version, declared, start } => {
                if chunk.len() == 0 {
                    return match declared {
                        Some(_) => self.finish(
                            Step::Abandon { error: RequestError::IncompleteRequest },
                        ),
                        None => {
                            let step = self.publish(version, declared, start, site);
                            self.finish(step)
                        },
                    };
                }
                if chunk.len() > MAX_REQUEST - self.buf.len() {
                    return self.finish(
                        Step::Reject {
                            error: RequestError::PayloadTooLarge,
                            reply: payload_too_large(),
                        },
                    );
                }
                push_bytes(&mut self.buf, chunk);
                proof {
                    lemma_head_ignores_what_follows(old(self).buf@, chunk@);
                }
                self.await_body(version, declared, start, site)
            },
        }
    }

    /// A read or a write took too long: the connection ends without a
    /// response.
    pub fn on_timeout(&mut self) -> (step: Step)
        requires
            old(self).wf(),
        ensures
            final(self).wf(),
            final(self)@ == finished(old(self)@.buffered),
            step@ == (match old(self)@.phase {
                Phase::Done => Next::Done,
                _ => Next::Abandon { error: RequestError::Timeout },
            }),
    {
        match self.phase {
            Phase::Done => Step::Done,
            _ => self.finish(Step::Abandon { error: RequestError::Timeout }),
        }
    }

    /// The peer reset the connection: it ends without a response.
    pub fn on_abort(&mut self) -> (step: Step)
        requires
            old(self).wf(),
        ensures
            final(self).wf(),
            final(self)@ == finished(old(self)@.buffered),
            step@ == (match old(self)@.phase {
                Phase::Done => Next::Done,
                _ => Next::Abandon { error: RequestError::ConnectionAborted },
            }),
    {
        match self.phase {
            Phase::Done => Step::Done,
            _ => self.finish(Step::Abandon { error: RequestError::ConnectionAborted }),
        }
    }
}

} // verus!
