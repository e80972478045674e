//! Tests of the response serializer state machine.

use tk_http::encoder::{Encoder, HeaderError, ResponseConfig, get_inner};
use tk_http::enums::Version;

fn cfg(is_head: bool, do_close: bool, version: Version) -> ResponseConfig {
    ResponseConfig { is_head, do_close, version }
}

fn contains(haystack: &[u8], needle: &[u8]) -> bool {
    if needle.len() > haystack.len() {
        return false;
    }
    for start in 0..=(haystack.len() - needle.len()) {
        if &haystack[start..start + needle.len()] == needle {
            return true;
        }
    }
    false
}

#[test]
fn s1_simple_get_fixed_body() {
    let mut e = Encoder::new(Vec::new(), cfg(false, false, Version::Http11));
    e.custom_status(200, b"OK");
    e.add_length(5).unwrap();
    let body_expected = e.done_headers();
    assert!(body_expected);
    e.write_body(b"hello");
    let done = e.done();
    let out = get_inner(done);
    assert!(out.starts_with(b"HTTP/1.1 200 OK\r\n"));
    assert!(contains(&out, b"Content-Length: 5\r\n"));
    assert!(out.ends_with(b"\r\nhello"));
}

#[test]
fn s3_chunked_response() {
    let mut e = Encoder::new(Vec::new(), cfg(false, false, Version::Http11));
    e.custom_status(200, b"OK");
    e.add_chunked().unwrap();
    assert!(e.done_headers());
    e.write_body(b"ab");
    e.write_body(b"");
    e.write_body(b"cde");
    let out = get_inner(e.done());
    assert!(out.ends_with(b"\r\n\r\n2\r\nab\r\n3\r\ncde\r\n0\r\n\r\n"));
}

#[test]
fn s4_head_suppresses_body() {
    let mut e = Encoder::new(Vec::new(), cfg(true, false, Version::Http11));
    e.custom_status(200, b"OK");
    e.add_length(10).unwrap();
    let body_expected = e.done_headers();
    assert!(!body_expected);
    e.write_body(b"0123456789");
    let out = get_inner(e.done());
    assert!(contains(&out, b"Content-Length: 10\r\n"));
    // headers present, zero body bytes: the message ends at the blank line
    assert!(out.ends_with(b"\r\n\r\n"));
}

#[test]
fn single_framing_header_rejections() {
    let mut e = Encoder::new(Vec::new(), cfg(false, false, Version::Http11));
    e.custom_status(200, b"OK");
    assert_eq!(e.add_length(5), Ok(()));
    assert_eq!(e.add_length(5), Err(HeaderError::DuplicateContentLength));
    assert_eq!(e.add_chunked(), Err(HeaderError::DuplicateTransferEncoding));

    let mut e2 = Encoder::new(Vec::new(), cfg(false, false, Version::Http11));
    e2.custom_status(200, b"OK");
    assert_eq!(e2.add_chunked(), Ok(()));
    assert_eq!(e2.add_length(4), Err(HeaderError::DuplicateContentLength));
    assert_eq!(e2.add_chunked(), Err(HeaderError::DuplicateTransferEncoding));
}

#[test]
fn typed_header_paths_are_enforced() {
    let mut e = Encoder::new(Vec::new(), cfg(false, false, Version::Http11));
    e.custom_status(200, b"OK");
    assert_eq!(e.add_header(b"Content-Length", b"5"), Err(HeaderError::ContentLength));
    assert_eq!(e.add_header(b"transfer-ENCODING", b"chunked"), Err(HeaderError::TransferEncoding));
    assert_eq!(e.add_header(b"Connection", b"close"), Err(HeaderError::Connection));
    assert_eq!(e.add_header(b"X-Custom", b"yes"), Ok(()));
    let _ = e.add_length(0);
    e.done_headers();
    let out = get_inner(e.done());
    assert!(contains(&out, b"X-Custom: yes\r\n"));
    assert!(!contains(&out, b"Connection: close"));
}

#[test]
fn connection_close_emitted_when_needed() {
    let mut e = Encoder::new(Vec::new(), cfg(false, true, Version::Http11));
    e.custom_status(200, b"OK");
    e.add_length(0).unwrap();
    e.done_headers();
    let out = get_inner(e.done());
    assert!(contains(&out, b"Connection: close\r\n"));
}

#[test]
fn http10_status_line_and_implied_close() {
    let mut e = Encoder::new(Vec::new(), cfg(false, false, Version::Http10));
    e.custom_status(404, b"Not Found");
    e.add_length(0).unwrap();
    e.done_headers();
    let out = get_inner(e.done());
    assert!(out.starts_with(b"HTTP/1.0 404 Not Found\r\n"));
}

#[test]
fn no_body_expected_for_204_and_304() {
    for code in [101u16, 204, 304] {
        let mut e = Encoder::new(Vec::new(), cfg(false, false, Version::Http11));
        e.custom_status(code, b"X");
        e.add_length(0).unwrap();
        assert!(!e.done_headers(), "code {}", code);
        let _ = get_inner(e.done());
    }
}

#[test]
fn response_continue_writes_interim_line() {
    let mut e = Encoder::new(Vec::new(), cfg(false, false, Version::Http11));
    assert!(!e.is_started());
    e.response_continue();
    assert!(!e.is_started());
    e.custom_status(200, b"OK");
    assert!(e.is_started());
    e.add_length(0).unwrap();
    e.done_headers();
    assert!(!e.is_complete());
    let out = get_inner(e.done());
    assert!(out.starts_with(b"HTTP/1.1 100 Continue\r\n\r\nHTTP/1.1 200 OK\r\n"));
}

#[test]
fn encoder_keeps_buffer_prefix() {
    let mut e = Encoder::new(b"previous".to_vec(), cfg(false, false, Version::Http11));
    e.custom_status(200, b"OK");
    e.add_length(1).unwrap();
    e.done_headers();
    e.write_body(b"x");
    let out = get_inner(e.done());
    assert!(out.starts_with(b"previousHTTP/1.1 200 OK\r\n"));
    assert!(out.ends_with(b"x"));
}

#[test]
fn client_request_line_mirror() {
    let mut e = Encoder::new(Vec::new(), cfg(false, false, Version::Http11));
    e.request_line(b"GET", b"/index.html");
    e.add_header(b"Host", b"example.com").unwrap();
    e.add_length(0).unwrap();
    assert!(e.done_headers());
    let out = get_inner(e.done());
    assert!(out.starts_with(b"GET /index.html HTTP/1.1\r\nHost: example.com\r\n"));
    assert!(contains(&out, b"Content-Length: 0\r\n"));
    assert!(out.ends_with(b"\r\n\r\n"));
}

#[test]
fn chunk_sizes_are_hexadecimal() {
    let mut e = Encoder::new(Vec::new(), cfg(false, false, Version::Http11));
    e.custom_status(200, b"OK");
    e.add_chunked().unwrap();
    e.done_headers();
    let body: Vec<u8> = (0..26u8).map(|i| 97 + i % 26).collect();
    e.write_body(&body);
    let out = get_inner(e.done());
    // 26 bytes -> "1a" in lower-case hex
    assert!(contains(&out, b"\r\n\r\n1a\r\n"));
}
