use sse_relay::error::RequestError;
use sse_relay::head::{
    classify_version, content_length_value, parse_head, parse_head_at, read_content_length,
    split_at_first, split_request_line, RequestHead, Version,
};
use sse_relay::route::{route, Resource, Route};
use sse_relay::scan::{find_terminator, resume_point};

#[test]
fn resume_point_is_three_bytes_back() {
    assert_eq!(resume_point(0), 0);
    assert_eq!(resume_point(1), 0);
    assert_eq!(resume_point(2), 0);
    assert_eq!(resume_point(3), 0);
    assert_eq!(resume_point(4), 1);
    assert_eq!(resume_point(100), 97);
    assert_eq!(resume_point(usize::MAX), usize::MAX - 3);
}

#[test]
fn the_terminator_is_found_from_the_start() {
    assert_eq!(find_terminator(b"GET / HTTP/1.1\r\n\r\n", 0), Some(14));
    assert_eq!(find_terminator(b"\r\n\r\n", 0), Some(0));
    assert_eq!(find_terminator(b"GET / HTTP/1.1\r\n", 0), None);
    assert_eq!(find_terminator(b"a\r\n\rb\n\r\n", 0), None);
    assert_eq!(find_terminator(b"a\n\n", 0), None);
    assert_eq!(find_terminator(b"", 0), None);
    assert_eq!(find_terminator(b"a\r\n\r\nb\r\n\r\n", 0), Some(1));
}

#[test]
fn a_resumed_search_finds_a_terminator_that_a_read_split() {
    let whole = b"GET / HTTP/1.1\r\n\r\n";
    for cut in 0..whole.len() {
        assert_eq!(find_terminator(&whole[..cut], 0), None);
        assert_eq!(find_terminator(whole, cut), Some(14), "cut at {}", cut);
    }
}

#[test]
fn a_resumed_search_does_not_look_further_back() {
    assert_eq!(find_terminator(b"\r\n\r\nabcdef", 8), None);
    assert_eq!(find_terminator(b"\r\n\r\nabcdef", 3), Some(0));
    assert_eq!(find_terminator(b"\r\n\r\nabcdef", 4), None);
}

#[test]
fn versions() {
    assert_eq!(classify_version(b"HTTP/0.9"), Version::Http09);
    assert_eq!(classify_version(b"HTTP/1.0"), Version::Http10);
    assert_eq!(classify_version(b"HTTP/1.1"), Version::Http1x);
    assert_eq!(classify_version(b"HTTP/1.9"), Version::Http1x);
    assert_eq!(classify_version(b"HTTP/2"), Version::Http1x);
    assert_eq!(classify_version(b"HTTP/"), Version::Http1x);
    assert_eq!(classify_version(b"HTTP/1.0 "), Version::Http1x);
    assert_eq!(classify_version(b"HTTP"), Version::Unknown);
    assert_eq!(classify_version(b"http/1.1"), Version::Unknown);
    assert_eq!(classify_version(b""), Version::Unknown);
    assert_eq!(classify_version(b"FTP/1.1"), Version::Unknown);
    assert_eq!(classify_version(b" HTTP/1.1"), Version::Unknown);
}

#[test]
fn splitting_at_the_first_occurrence() {
    assert_eq!(split_at_first(b"a: b: c", b": "), Some((&b"a"[..], &b"b: c"[..])));
    assert_eq!(split_at_first(b": ", b": "), Some((&b""[..], &b""[..])));
    assert_eq!(split_at_first(b"a:b", b": "), None);
    assert_eq!(split_at_first(b"", b": "), None);
}

#[test]
fn request_lines() {
    assert_eq!(
        split_request_line(b"GET /chat HTTP/1.1"),
        Some((&b"GET"[..], &b"/chat"[..], &b"HTTP/1.1"[..]))
    );
    assert_eq!(split_request_line(b"GET /chat"), Some((&b"GET"[..], &b"/chat"[..], &b""[..])));
    assert_eq!(split_request_line(b"GET "), Some((&b"GET"[..], &b""[..], &b""[..])));
    assert_eq!(split_request_line(b" / HTTP/1.1"), Some((&b""[..], &b"/"[..], &b"HTTP/1.1"[..])));
    assert_eq!(
        split_request_line(b"GET / HTTP/1.1 extra"),
        Some((&b"GET"[..], &b"/"[..], &b"HTTP/1.1 extra"[..]))
    );
    assert_eq!(split_request_line(b"GET  /"), Some((&b"GET"[..], &b""[..], &b"/"[..])));
    assert_eq!(split_request_line(b"GET"), None);
    assert_eq!(split_request_line(b""), None);
}

#[test]
fn only_content_length_lines_have_a_value() {
    assert_eq!(content_length_value(b"Content-Length: 5"), Some(&b"5"[..]));
    assert_eq!(content_length_value(b"Content-Length: "), Some(&b""[..]));
    assert_eq!(content_length_value(b"Content-Length:  5"), Some(&b" 5"[..]));
    assert_eq!(content_length_value(b"Content-Length: 5: 6"), Some(&b"5: 6"[..]));
    assert_eq!(content_length_value(b"Content-Length:5"), None);
    assert_eq!(content_length_value(b"content-length: 5"), None);
    assert_eq!(content_length_value(b" Content-Length: 5"), None);
    assert_eq!(content_length_value(b"Host: x"), None);
    assert_eq!(content_length_value(b""), None);
}

#[test]
fn header_blocks_declare_a_length() {
    assert_eq!(read_content_length(b""), Ok(None));
    assert_eq!(read_content_length(b"Host: x"), Ok(None));
    assert_eq!(read_content_length(b"Content-Length: 5"), Ok(Some(5)));
    assert_eq!(read_content_length(b"Host: x\r\nContent-Length: 12\r\nAccept: */*"), Ok(Some(12)));
    assert_eq!(read_content_length(b"Content-Length: +7"), Ok(Some(7)));
    assert_eq!(read_content_length(b"garbage without colon\r\nContent-Length: 1"), Ok(Some(1)));
    assert_eq!(read_content_length(b"Transfer-Encoding: chunked"), Ok(None));
}

#[test]
fn the_last_content_length_counts() {
    assert_eq!(read_content_length(b"Content-Length: 5\r\nContent-Length: 9"), Ok(Some(9)));
}

#[test]
fn an_unreadable_content_length_is_a_bad_request() {
    assert_eq!(read_content_length(b"Content-Length: five"), Err(RequestError::BadRequest));
    assert_eq!(read_content_length(b"Content-Length: "), Err(RequestError::BadRequest));
    assert_eq!(read_content_length(b"Content-Length: -1"), Err(RequestError::BadRequest));
    assert_eq!(read_content_length(b"Content-Length: 5 "), Err(RequestError::BadRequest));
    assert_eq!(
        read_content_length(b"Content-Length: x\r\nContent-Length: 5"),
        Err(RequestError::BadRequest)
    );
    assert_eq!(
        read_content_length(b"Content-Length: 5\r\nContent-Length: x"),
        Err(RequestError::BadRequest)
    );
    assert_eq!(
        read_content_length(b"Content-Length: 99999999999999999999999999"),
        Err(RequestError::BadRequest)
    );
}

#[test]
fn a_head_is_parsed() {
    let buf = b"POST /chat HTTP/1.1\r\nHost: localhost\r\nContent-Length: 5\r\n\r\nhello";
    assert_eq!(
        parse_head(buf),
        Ok(RequestHead {
            method: b"POST".to_vec(),
            target: b"/chat".to_vec(),
            version: Version::Http1x,
            content_length: Some(5),
            body_start: 59,
        })
    );
    assert_eq!(&buf[59..], b"hello");
    assert_eq!(find_terminator(buf, 0), Some(55));
    assert_eq!(parse_head_at(buf, 55), parse_head(buf));
}

#[test]
fn a_head_without_headers_is_parsed() {
    assert_eq!(
        parse_head(b"GET / HTTP/1.0\r\n\r\n"),
        Ok(RequestHead {
            method: b"GET".to_vec(),
            target: b"/".to_vec(),
            version: Version::Http10,
            content_length: None,
            body_start: 18,
        })
    );
}

#[test]
fn a_head_without_a_version_has_an_unknown_one() {
    assert_eq!(
        parse_head(b"GET /\r\n\r\n"),
        Ok(RequestHead {
            method: b"GET".to_vec(),
            target: b"/".to_vec(),
            version: Version::Unknown,
            content_length: None,
            body_start: 9,
        })
    );
}

#[test]
fn what_follows_the_terminator_is_no_header() {
    let buf = b"POST /chat HTTP/1.1\r\n\r\nContent-Length: 7\r\n\r\n";
    let head = parse_head(buf).unwrap();
    assert_eq!(head.content_length, None);
    assert_eq!(head.body_start, 23);
}

#[test]
fn heads_that_fail() {
    assert_eq!(parse_head(b"GET / HTTP/1.1\r\n"), Err(RequestError::IncompleteRequest));
    assert_eq!(parse_head(b""), Err(RequestError::IncompleteRequest));
    assert_eq!(parse_head(b"GET\r\n\r\n"), Err(RequestError::BadRequest));
    assert_eq!(parse_head(b"\r\n\r\n"), Err(RequestError::BadRequest));
    assert_eq!(
        parse_head(b"GET / HTTP/1.1\r\nContent-Length: x\r\n\r\n"),
        Err(RequestError::BadRequest)
    );
}

#[test]
fn routes() {
    assert_eq!(route(b"GET", b"/"), Route::ServeDocument);
    assert_eq!(route(b"HEAD", b"/"), Route::DescribeDocument);
    assert_eq!(route(b"POST", b"/"), Route::MethodNotAllowed(Resource::Document));
    assert_eq!(route(b"", b"/"), Route::MethodNotAllowed(Resource::Document));
    assert_eq!(route(b"get", b"/"), Route::MethodNotAllowed(Resource::Document));
    assert_eq!(route(b"GET", b"/chat"), Route::OpenStream);
    assert_eq!(route(b"HEAD", b"/chat"), Route::DescribeStream);
    assert_eq!(route(b"POST", b"/chat"), Route::Ingest);
    assert_eq!(route(b"PUT", b"/chat"), Route::MethodNotAllowed(Resource::Stream));
    assert_eq!(route(b"DELETE", b"/chat"), Route::MethodNotAllowed(Resource::Stream));
}

#[test]
fn unknown_paths_are_not_found_whatever_the_method() {
    for method in [&b"GET"[..], b"HEAD", b"POST", b"PUT", b""] {
        assert_eq!(route(method, b"/nope"), Route::NotFound);
        assert_eq!(route(method, b"/chat/"), Route::NotFound);
        assert_eq!(route(method, b"/chat?x=1"), Route::NotFound);
        assert_eq!(route(method, b"/Chat"), Route::NotFound);
        assert_eq!(route(method, b""), Route::NotFound);
        assert_eq!(route(method, b"//"), Route::NotFound);
    }
}
