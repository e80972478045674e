//! Tests of the request preamble parser and header scanner.

use tk_http::headers::{parse_headers, scan_headers, BodyKind, ErrorEnum, Header};
use tk_http::enums::Version;
use tk_http::request_target::{parse as parse_target, RequestTarget};

fn req(lines: &[&str]) -> Vec<u8> {
    let mut v = Vec::new();
    for l in lines {
        v.extend_from_slice(l.as_bytes());
        v.extend_from_slice(b"\r\n");
    }
    v.extend_from_slice(b"\r\n");
    v
}

#[test]
fn simple_get_parses() {
    let buf = req(&["GET / HTTP/1.1", "Host: a"]);
    let (bk, head, rc, consumed) = parse_headers(&buf).unwrap().unwrap();
    assert_eq!(bk, BodyKind::Fixed(0));
    assert_eq!(head.method(), &b"GET".to_vec());
    assert_eq!(head.raw_request_target(), &b"/".to_vec());
    assert_eq!(head.version(), Version::Http11);
    assert_eq!(head.host().unwrap(), &b"a".to_vec());
    assert!(!head.connection_close());
    assert!(!rc.is_head);
    assert!(!rc.do_close);
    assert_eq!(consumed, buf.len());
}

#[test]
fn incomplete_preamble_waits() {
    let buf = b"GET / HTTP/1.1\r\nHost: a\r\n".to_vec();
    assert!(parse_headers(&buf).unwrap().is_none());
}

#[test]
fn p9_seventeen_headers_reparse() {
    let mut lines: Vec<String> = vec!["GET / HTTP/1.1".to_string()];
    for i in 0..17 {
        lines.push(format!("X-H{}: v{}", i, i));
    }
    let refs: Vec<&str> = lines.iter().map(|s| s.as_str()).collect();
    let buf = req(&refs);
    let (_bk, head, _rc, _c) = parse_headers(&buf).unwrap().unwrap();
    assert_eq!(head.all_headers().len(), 17);
}

#[test]
fn over_1024_headers_is_hard_error() {
    let mut lines: Vec<String> = vec!["GET / HTTP/1.1".to_string()];
    for i in 0..1025 {
        lines.push(format!("X-H{}: v", i));
    }
    let refs: Vec<&str> = lines.iter().map(|s| s.as_str()).collect();
    let buf = req(&refs);
    assert_eq!(parse_headers(&buf).unwrap_err(), ErrorEnum::TooManyHeaders);
}

#[test]
fn p10_last_transfer_coding_not_chunked() {
    let buf = req(&["GET / HTTP/1.1", "Host: a", "Transfer-Encoding: chunked, gzip"]);
    let (bk, head, _rc, _c) = parse_headers(&buf).unwrap().unwrap();
    assert_eq!(bk, BodyKind::Fixed(0));
    assert!(!head.connection_close());
}

#[test]
fn p11_chunked_wins_but_closes_connection() {
    let buf = req(&["POST / HTTP/1.1", "Host: a", "Transfer-Encoding: chunked",
        "Content-Length: 5"]);
    let (bk, head, _rc, _c) = parse_headers(&buf).unwrap().unwrap();
    assert_eq!(bk, BodyKind::Chunked);
    assert!(head.connection_close());

    // The same with the headers in the other order.
    let buf2 = req(&["POST / HTTP/1.1", "Host: a", "Content-Length: 5",
        "Transfer-Encoding: chunked"]);
    let (bk2, head2, _rc2, _c2) = parse_headers(&buf2).unwrap().unwrap();
    assert_eq!(bk2, BodyKind::Chunked);
    assert!(head2.connection_close());
}

#[test]
fn p12_duplicate_content_length() {
    let buf = req(&["POST / HTTP/1.1", "Host: a", "Content-Length: 5", "Content-Length: 5"]);
    assert_eq!(parse_headers(&buf).unwrap_err(), ErrorEnum::DuplicateContentLength);
}

#[test]
fn p13_conflicting_host_keeps_target_authority() {
    let buf = req(&["GET http://example.com/x HTTP/1.1", "Host: other.com"]);
    let (_bk, head, _rc, _c) = parse_headers(&buf).unwrap().unwrap();
    assert_eq!(head.host().unwrap(), &b"example.com".to_vec());
    assert!(head.has_conflicting_host());
}

#[test]
fn matching_host_is_no_conflict() {
    let buf = req(&["GET http://example.com/x HTTP/1.1", "Host: example.com"]);
    let (_bk, head, _rc, _c) = parse_headers(&buf).unwrap().unwrap();
    assert_eq!(head.host().unwrap(), &b"example.com".to_vec());
    assert!(!head.has_conflicting_host());
}

#[test]
fn duplicate_host_is_hard_error() {
    let buf = req(&["GET / HTTP/1.1", "Host: a", "Host: b"]);
    assert_eq!(parse_headers(&buf).unwrap_err(), ErrorEnum::DuplicateHost);
}

#[test]
fn invalid_content_length_values() {
    for v in ["12a", "", "-3", "18446744073709551616"] {
        let line = format!("Content-Length: {}", v);
        let buf = req(&["POST / HTTP/1.1", "Host: a", &line]);
        assert_eq!(parse_headers(&buf).unwrap_err(), ErrorEnum::ContentLengthInvalid, "{}", v);
    }
    let buf = req(&["POST / HTTP/1.1", "Host: a", "Content-Length: 18446744073709551615"]);
    let (bk, _h, _rc, _c) = parse_headers(&buf).unwrap().unwrap();
    assert_eq!(bk, BodyKind::Fixed(u64::MAX));
}

#[test]
fn connection_close_token_case_insensitive() {
    let buf = req(&["GET / HTTP/1.1", "Host: a", "Connection: keep-alive, CLOSE"]);
    let (_bk, head, rc, _c) = parse_headers(&buf).unwrap().unwrap();
    assert!(head.connection_close());
    assert!(rc.do_close);
    assert_eq!(head.connection_header().unwrap(), &b"keep-alive, CLOSE".to_vec());
}

#[test]
fn connection_values_join() {
    let buf = req(&["GET / HTTP/1.1", "Host: a", "Connection: foo", "Connection: bar"]);
    let (_bk, head, _rc, _c) = parse_headers(&buf).unwrap().unwrap();
    assert_eq!(head.connection_header().unwrap(), &b"foo, bar".to_vec());
    assert!(!head.connection_close());
}

#[test]
fn http10_implies_close() {
    let buf = req(&["GET / HTTP/1.0", "Host: a"]);
    let (_bk, head, rc, _c) = parse_headers(&buf).unwrap().unwrap();
    assert_eq!(head.version(), Version::Http10);
    assert!(head.connection_close());
    assert!(rc.do_close);
}

#[test]
fn head_request_sets_response_config() {
    let buf = req(&["HEAD /x HTTP/1.1", "Host: a"]);
    let (_bk, head, rc, _c) = parse_headers(&buf).unwrap().unwrap();
    assert!(rc.is_head);
    assert_eq!(head.method(), &b"HEAD".to_vec());
}

#[test]
fn connect_body_is_unsupported() {
    let buf = req(&["CONNECT example.com:443 HTTP/1.1", "Host: example.com"]);
    let (bk, head, _rc, _c) = parse_headers(&buf).unwrap().unwrap();
    assert_eq!(bk, BodyKind::Unsupported);
    assert!(matches!(head.request_target(), RequestTarget::Authority(_)));
    assert!(head.path().is_none());
}

#[test]
fn request_target_forms() {
    assert!(matches!(parse_target(b"*").unwrap(), RequestTarget::Asterisk));
    match parse_target(b"/p?q=1").unwrap() {
        RequestTarget::Origin(p) => assert_eq!(p, b"/p?q=1".to_vec()),
        other => panic!("unexpected {:?}", other),
    }
    match parse_target(b"http://h.example:8080/p?q").unwrap() {
        RequestTarget::Absolute { authority, path } => {
            assert_eq!(authority, b"h.example:8080".to_vec());
            assert_eq!(path, b"/p?q".to_vec());
        },
        other => panic!("unexpected {:?}", other),
    }
    match parse_target(b"h.example:443").unwrap() {
        RequestTarget::Authority(a) => assert_eq!(a, b"h.example:443".to_vec()),
        other => panic!("unexpected {:?}", other),
    }
    assert!(parse_target(b"").is_none());
    assert!(parse_target(b"://nohost/x").is_none());
}

#[test]
fn empty_scheme_is_bad_request_target() {
    let buf = req(&["GET ://x/ HTTP/1.1", "Host: a"]);
    assert_eq!(parse_headers(&buf).unwrap_err(), ErrorEnum::BadRequestTarget);
}

#[test]
fn invalid_utf8_host_is_rejected() {
    let mut buf = b"GET / HTTP/1.1\r\nHost: ".to_vec();
    buf.extend_from_slice(&[0xff, 0xfe]);
    buf.extend_from_slice(b"\r\n\r\n");
    assert_eq!(parse_headers(&buf).unwrap_err(), ErrorEnum::HostInvalid);
}

#[test]
fn invalid_utf8_connection_is_rejected() {
    let mut buf = b"GET / HTTP/1.1\r\nConnection: ".to_vec();
    buf.extend_from_slice(&[0xff, 0xfe]);
    buf.extend_from_slice(b"\r\n\r\n");
    assert_eq!(parse_headers(&buf).unwrap_err(), ErrorEnum::ConnectionInvalid);
}

#[test]
fn bad_request_line_is_parse_error() {
    for first in ["GET /", "GET / HTTP/2.0", "GET", " / HTTP/1.1"] {
        let buf = req(&[first, "Host: a"]);
        assert_eq!(parse_headers(&buf).unwrap_err(), ErrorEnum::ParseError, "{}", first);
    }
}

#[test]
fn header_line_without_colon_is_parse_error() {
    let buf = req(&["GET / HTTP/1.1", "NoColonHere"]);
    assert_eq!(parse_headers(&buf).unwrap_err(), ErrorEnum::ParseError);
}

#[test]
fn header_iter_strips_hop_by_hop() {
    let buf = req(&["GET / HTTP/1.1", "Host: a", "Connection: x-meta", "X-Meta: 1",
        "Upgrade: h2c", "Content-Length: 0", "X-Keep: yes"]);
    let (_bk, head, _rc, _c) = parse_headers(&buf).unwrap().unwrap();
    let mut it = head.headers();
    let (n, v) = it.next().unwrap();
    assert_eq!(n, &b"X-Keep".to_vec());
    assert_eq!(v, &b"yes".to_vec());
    assert!(it.next().is_none());
}

#[test]
fn expect_continue_is_recognised() {
    let headers = vec![Header { name: b"Expect".to_vec(), value: b"100-Continue".to_vec() }];
    let (cfg, _t) = scan_headers(b"POST", b"/", Version::Http11, &headers).unwrap();
    assert!(cfg.expect_continue);
    let headers2 = vec![Header { name: b"Expect".to_vec(), value: b"nothing".to_vec() }];
    let (cfg2, _t2) = scan_headers(b"POST", b"/", Version::Http11, &headers2).unwrap();
    assert!(!cfg2.expect_continue);
}

#[test]
fn body_length_getters() {
    let buf = req(&["POST / HTTP/1.1", "Host: a", "Content-Length: 7"]);
    let (_bk, head, _rc, _c) = parse_headers(&buf).unwrap().unwrap();
    assert!(head.has_body());
    assert_eq!(head.body_length(), Some(7));
    let buf2 = req(&["GET / HTTP/1.1", "Host: a"]);
    let (_bk2, head2, _rc2, _c2) = parse_headers(&buf2).unwrap().unwrap();
    assert!(!head2.has_body());
    assert_eq!(head2.body_length(), Some(0));
}
