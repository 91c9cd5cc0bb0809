//! The bytes of each response.

use crate::head::Version;
use crate::number::{decimal_digits, format_usize, lemma_format_then_parse, parse_usize_spec};
use crate::route::{allowed_methods, Resource};
use crate::text::{ascii, push_bytes, push_text};
use vstd::prelude::*;

verus! {

/// The protocol that a response names in its status line: HTTP/1.1 for the
/// requests that are answered as such, HTTP/1.0 for every other.
pub open spec fn protocol_of(version: Version) -> Seq<u8> {
    match version {
        Version::Http1x => ascii("HTTP/1.1"@),
        _ => ascii("HTTP/1.0"@),
    }
}

/// 400, for a malformed request; always as HTTP/1.0, since the version of
/// such a request cannot be trusted.
pub open spec fn bad_request_reply() -> Seq<u8> {
    ascii("HTTP/1.0 400 Bad Request\r\n\r\n"@)
}

/// 413, for a request that does not fit the buffer.
pub open spec fn payload_too_large_reply() -> Seq<u8> {
    ascii("HTTP/1.1 413 Payload Too Large\r\n\r\n"@)
}

/// 426, for a request in HTTP/0.9.
pub open spec fn upgrade_required_reply() -> Seq<u8> {
    ascii("HTTP/1.0 426 Upgrade Required\r\nUpgrade: HTTP/1.1, HTTP/1.0\r\n\r\n"@)
}

/// 505, for a version token that is not HTTP.
pub open spec fn version_not_supported_reply() -> Seq<u8> {
    ascii("HTTP/1.0 505 HTTP Version Not Supported\r\n\r\n"@)
}

/// 404, for an unknown path.
pub open spec fn not_found_reply(version: Version) -> Seq<u8> {
    protocol_of(version) + ascii(" 404 Not Found\r\n\r\n"@)
}

/// 405, with the methods that the resource offers.
pub open spec fn method_not_allowed_reply(version: Version, resource: Resource) -> Seq<u8> {
    protocol_of(version) + ascii(" 405 Method Not Allowed\r\nAllow: "@) + allowed_methods(resource)
        + ascii("\r\n\r\n"@)
}

/// 200 with the headers of a document of `length` bytes, and no body.
pub open spec fn document_head_reply(version: Version, server: Seq<u8>, length: nat) -> Seq<u8> {
    protocol_of(version) + ascii(" 200 OK\r\nServer: "@) + server + ascii(
        "\r\nContent-Type: text/html; charset=UTF-8\r\nContent-Length: "@,
    ) + decimal_digits(length) + ascii("\r\n\r\n"@)
}

/// 200 with the document: its headers, then its bytes.
pub open spec fn document_reply(version: Version, server: Seq<u8>, document: Seq<u8>) -> Seq<u8> {
    document_head_reply(version, server, document.len()) + document
}

/// 200 with the headers of the event stream; the frames follow it.
pub open spec fn stream_head_reply(version: Version, server: Seq<u8>) -> Seq<u8> {
    protocol_of(version) + ascii(" 200 OK\r\nServer: "@) + server + ascii(
        "\r\nCache-Control: no-store\r\nContent-Type: text/event-stream; charset=UTF-8\r\n\r\n"@,
    )
}

/// 204, for a message that was taken in.
pub open spec fn no_content_reply(version: Version, server: Seq<u8>) -> Seq<u8> {
    protocol_of(version) + ascii(" 204 No Content\r\nServer: "@) + server + ascii("\r\n\r\n"@)
}

/// The protocol that a response to `version` names.
pub fn protocol(version: Version) -> (name: Vec<u8>)
    ensures
        name@ == protocol_of(version),
{
    let mut name: Vec<u8> = Vec::new();
    proof {
        reveal_strlit("HTTP/1.1");
        reveal_strlit("HTTP/1.0");
    }
    match version {
        Version::Http1x => push_text(&mut name, "HTTP/1.1"),
        _ => push_text(&mut name, "HTTP/1.0"),
    }
    name
}

/// The response to a malformed request.
pub fn bad_request() -> (reply: Vec<u8>)
    ensures
        reply@ == bad_request_reply(),
{
    let mut reply: Vec<u8> = Vec::new();
    proof {
        reveal_strlit("HTTP/1.0 400 Bad Request\r\n\r\n");
    }
    push_text(&mut reply, "HTTP/1.0 400 Bad Request\r\n\r\n");
    reply
}

/// The response to a request that does not fit the buffer.
pub fn payload_too_large() -> (reply: Vec<u8>)
    ensures
        reply@ == payload_too_large_reply(),
{
    let mut reply: Vec<u8> = Vec::new();
    proof {
        reveal_strlit("HTTP/1.1 413 Payload Too Large\r\n\r\n");
    }
    push_text(&mut reply, "HTTP/1.1 413 Payload Too Large\r\n\r\n");
    reply
}

/// The response to a request in HTTP/0.9.
pub fn upgrade_required() -> (reply: Vec<u8>)
    ensures
        reply@ == upgrade_required_reply(),
{
    let mut reply: Vec<u8> = Vec::new();
    proof {
        reveal_strlit("HTTP/1.0 426 Upgrade Required\r\nUpgrade: HTTP/1.1, HTTP/1.0\r\n\r\n");
    }
    push_text(&mut reply, "HTTP/1.0 426 Upgrade Required\r\nUpgrade: HTTP/1.1, HTTP/1.0\r\n\r\n");
    reply
}

/// The response to a version token that is not HTTP.
pub fn version_not_supported() -> (reply: Vec<u8>)
    ensures
        reply@ == version_not_supported_reply(),
{
    let mut reply: Vec<u8> = Vec::new();
    proof {
        reveal_strlit("HTTP/1.0 505 HTTP Version Not Supported\r\n\r\n");
    }
    push_text(&mut reply, "HTTP/1.0 505 HTTP Version Not Supported\r\n\r\n");
    reply
}

/// The response to an unknown path.
pub fn not_found(version: Version) -> (reply: Vec<u8>)
    ensures
        reply@ == not_found_reply(version),
{
    let mut reply = protocol(version);
    proof {
        reveal_strlit(" 404 Not Found\r\n\r\n");
    }
    push_text(&mut reply, " 404 Not Found\r\n\r\n");
    reply
}

/// The response to a method that the resource does not offer.
pub fn method_not_allowed(version: Version, resource: Resource) -> (reply: Vec<u8>)
    ensures
        reply@ == method_not_allowed_reply(version, resource),
{
    let mut reply = protocol(version);
    proof {
        reveal_strlit(" 405 Method Not Allowed\r\nAllow: ");
        reveal_strlit("GET, HEAD");
        reveal_strlit("GET, HEAD, POST");
        reveal_strlit("\r\n\r\n");
    }
    push_text(&mut reply, " 405 Method Not Allowed\r\nAllow: ");
    match resource {
        Resource::Document => push_text(&mut reply, "GET, HEAD"),
        Resource::Stream => push_text(&mut reply, "GET, HEAD, POST"),
    }
    push_text(&mut reply, "\r\n\r\n");
    reply
}

/// The headers of a document of `length` bytes.
pub fn document_head(version: Version, server: &[u8], length: usize) -> (reply: Vec<u8>)
    ensures
        reply@ == document_head_reply(version, server@, length as nat),
{
    let mut reply = protocol(version);
    proof {
        reveal_strlit(" 200 OK\r\nServer: ");
        reveal_strlit("\r\nContent-Type: text/html; charset=UTF-8\r\nContent-Length: ");
        reveal_strlit("\r\n\r\n");
    }
    push_text(&mut reply, " 200 OK\r\nServer: ");
    push_bytes(&mut reply, server);
    push_text(&mut reply, "\r\nContent-Type: text/html; charset=UTF-8\r\nContent-Length: ");
    let digits = format_usize(length);
    push_bytes(&mut reply, digits.as_slice());
    push_text(&mut reply, "\r\n\r\n");
    reply
}

/// The document with its headers.
pub fn document(version: Version, server: &[u8], body: &[u8]) -> (reply: Vec<u8>)
    ensures
        reply@ == document_reply(version, server@, body@),
{
    let mut reply = document_head(version, server, body.len());
    push_bytes(&mut reply, body);
    reply
}

/// The headers that open the event stream.
pub fn stream_head(version: Version, server: &[u8]) -> (reply: Vec<u8>)
    ensures
        reply@ == stream_head_reply(version, server@),
{
    let mut reply = protocol(version);
    proof {
        reveal_strlit(" 200 OK\r\nServer: ");
        reveal_strlit(
            "\r\nCache-Control: no-store\r\nContent-Type: text/event-stream; charset=UTF-8\r\n\r\n",
        );
    }
    push_text(&mut reply, " 200 OK\r\nServer: ");
    push_bytes(&mut reply, server);
    push_text(
        &mut reply,
        "\r\nCache-Control: no-store\r\nContent-Type: text/event-stream; charset=UTF-8\r\n\r\n",
    );
    reply
}

/// The response to a message that was taken in.
pub fn no_content(version: Version, server: &[u8]) -> (reply: Vec<u8>)
    ensures
        reply@ == no_content_reply(version, server@),
{
    let mut reply = protocol(version);
    proof {
        reveal_strlit(" 204 No Content\r\nServer: ");
        reveal_strlit("\r\n\r\n");
    }
    push_text(&mut reply, " 204 No Content\r\nServer: ");
    push_bytes(&mut reply, server);
    push_text(&mut reply, "\r\n\r\n");
    reply
}

/// The response to `GET /` is the response to `HEAD /` with the document
/// behind it and nothing else, and the number that both write in
/// `Content-Length` reads back as the document's length.
pub proof fn lemma_document_replies_agree(version: Version, server: Seq<u8>, document: Seq<u8>)
    requires
        document.len() <= usize::MAX,
    ensures
        document_reply(version, server, document) == document_head_reply(
            version,
            server,
            document.len(),
        ) + document,
        document_reply(version, server, document).len() == document_head_reply(
            version,
            server,
            document.len(),
        ).len() + document.len(),
        document_reply(version, server, document).skip(
            document_head_reply(version, server, document.len()).len() as int,
        ) == document,
        parse_usize_spec(decimal_digits(document.len())) == Some(document.len() as usize),
{
    lemma_format_then_parse(document.len() as usize);
}

} // verus!
