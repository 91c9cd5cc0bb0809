use sse_relay::head::Version;
use sse_relay::response::{
    bad_request, document, document_head, method_not_allowed, no_content, not_found,
    payload_too_large, protocol, stream_head, upgrade_required, version_not_supported,
};
use sse_relay::route::Resource;

#[test]
fn the_protocol_of_a_response() {
    assert_eq!(protocol(Version::Http10), b"HTTP/1.0".to_vec());
    assert_eq!(protocol(Version::Http1x), b"HTTP/1.1".to_vec());
    assert_eq!(protocol(Version::Http09), b"HTTP/1.0".to_vec());
    assert_eq!(protocol(Version::Unknown), b"HTTP/1.0".to_vec());
}

#[test]
fn fixed_responses() {
    assert_eq!(bad_request(), b"HTTP/1.0 400 Bad Request\r\n\r\n".to_vec());
    assert_eq!(payload_too_large(), b"HTTP/1.1 413 Payload Too Large\r\n\r\n".to_vec());
    assert_eq!(
        upgrade_required(),
        b"HTTP/1.0 426 Upgrade Required\r\nUpgrade: HTTP/1.1, HTTP/1.0\r\n\r\n".to_vec()
    );
    assert_eq!(
        version_not_supported(),
        b"HTTP/1.0 505 HTTP Version Not Supported\r\n\r\n".to_vec()
    );
}

#[test]
fn not_found_in_the_request_s_protocol() {
    assert_eq!(not_found(Version::Http1x), b"HTTP/1.1 404 Not Found\r\n\r\n".to_vec());
    assert_eq!(not_found(Version::Http10), b"HTTP/1.0 404 Not Found\r\n\r\n".to_vec());
}

#[test]
fn method_not_allowed_lists_the_methods() {
    assert_eq!(
        method_not_allowed(Version::Http1x, Resource::Document),
        b"HTTP/1.1 405 Method Not Allowed\r\nAllow: GET, HEAD\r\n\r\n".to_vec()
    );
    assert_eq!(
        method_not_allowed(Version::Http10, Resource::Stream),
        b"HTTP/1.0 405 Method Not Allowed\r\nAllow: GET, HEAD, POST\r\n\r\n".to_vec()
    );
}

#[test]
fn the_document_and_its_headers() {
    let body = b"<!DOCTYPE html><p>hi</p>";
    let head = document_head(Version::Http1x, b"relay", body.len());
    assert_eq!(
        head,
        b"HTTP/1.1 200 OK\r\nServer: relay\r\nContent-Type: text/html; charset=UTF-8\r\nContent-Length: 24\r\n\r\n"
            .to_vec()
    );
    let full = document(Version::Http1x, b"relay", body);
    assert_eq!(&full[..head.len()], &head[..]);
    assert_eq!(&full[head.len()..], &body[..]);
}

#[test]
fn the_declared_length_is_the_body_s_length() {
    for len in [0usize, 1, 9, 10, 1000, 70000] {
        let body = vec![b'x'; len];
        let head = document_head(Version::Http10, b"s", len);
        let full = document(Version::Http10, b"s", &body);
        assert_eq!(full.len(), head.len() + len);
        let text = String::from_utf8(head).unwrap();
        let line = text.lines().find(|l| l.starts_with("Content-Length: ")).unwrap();
        assert_eq!(line["Content-Length: ".len()..].parse::<usize>(), Ok(len));
        assert!(text.starts_with("HTTP/1.0 200 OK\r\n"));
        assert!(text.ends_with("\r\n\r\n"));
    }
}

#[test]
fn the_headers_of_the_stream() {
    assert_eq!(
        stream_head(Version::Http1x, b"relay"),
        b"HTTP/1.1 200 OK\r\nServer: relay\r\nCache-Control: no-store\r\nContent-Type: text/event-stream; charset=UTF-8\r\n\r\n"
            .to_vec()
    );
}

#[test]
fn no_content_for_a_post() {
    assert_eq!(
        no_content(Version::Http10, b"relay"),
        b"HTTP/1.0 204 No Content\r\nServer: relay\r\n\r\n".to_vec()
    );
}
