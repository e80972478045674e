//! Tests of the WebSocket handshake and of the byte helpers.

use tk_http::headers::parse_headers;
use tk_http::util::{bytes_trim, parse_u64_dec, push_dec_u64, push_hex_u64};

fn req(lines: &[&str]) -> Vec<u8> {
    let mut v = Vec::new();
    for l in lines {
        v.extend_from_slice(l.as_bytes());
        v.extend_from_slice(b"\r\n");
    }
    v.extend_from_slice(b"\r\n");
    v
}

fn handshake_request() -> Vec<u8> {
    req(&[
        "GET /chat HTTP/1.1",
        "Host: server.example.com",
        "Upgrade: websocket",
        "Connection: Upgrade",
        "Sec-WebSocket-Key: dGhlIHNhbXBsZSBub25jZQ==",
        "Sec-WebSocket-Version: 13",
    ])
}

#[test]
fn s5_handshake_accept_value() {
    let buf = handshake_request();
    let (_bk, head, _rc, _c) = parse_headers(&buf).unwrap().unwrap();
    let hs = head.get_websocket_upgrade().unwrap().unwrap();
    assert_eq!(hs.accept.base64(), b"s3pPLMBiTxaQ9kYGzzhZRbK+xOo=".to_vec());
}

#[test]
fn plain_request_is_not_an_upgrade() {
    let buf = req(&["GET / HTTP/1.1", "Host: a"]);
    let (_bk, head, _rc, _c) = parse_headers(&buf).unwrap().unwrap();
    assert!(head.get_websocket_upgrade().unwrap().is_none());
}

#[test]
fn upgrade_to_something_else_is_plain_http() {
    let buf = req(&["GET / HTTP/1.1", "Host: a", "Connection: Upgrade", "Upgrade: h2c"]);
    let (_bk, head, _rc, _c) = parse_headers(&buf).unwrap().unwrap();
    assert!(head.get_websocket_upgrade().unwrap().is_none());
}

#[test]
fn wrong_version_is_a_broken_handshake() {
    let buf = req(&[
        "GET / HTTP/1.1",
        "Host: a",
        "Upgrade: websocket",
        "Connection: Upgrade",
        "Sec-WebSocket-Key: dGhlIHNhbXBsZSBub25jZQ==",
        "Sec-WebSocket-Version: 12",
    ]);
    let (_bk, head, _rc, _c) = parse_headers(&buf).unwrap().unwrap();
    assert!(head.get_websocket_upgrade().is_err());
}

#[test]
fn missing_key_is_a_broken_handshake() {
    let buf = req(&[
        "GET / HTTP/1.1",
        "Host: a",
        "Upgrade: websocket",
        "Connection: Upgrade",
        "Sec-WebSocket-Version: 13",
    ]);
    let (_bk, head, _rc, _c) = parse_headers(&buf).unwrap().unwrap();
    assert!(head.get_websocket_upgrade().is_err());
}

#[test]
fn duplicate_key_is_a_broken_handshake() {
    let buf = req(&[
        "GET / HTTP/1.1",
        "Host: a",
        "Upgrade: websocket",
        "Connection: Upgrade",
        "Sec-WebSocket-Key: dGhlIHNhbXBsZSBub25jZQ==",
        "Sec-WebSocket-Key: dGhlIHNhbXBsZSBub25jZQ==",
        "Sec-WebSocket-Version: 13",
    ]);
    let (_bk, head, _rc, _c) = parse_headers(&buf).unwrap().unwrap();
    assert!(head.get_websocket_upgrade().is_err());
}

#[test]
fn handshake_with_body_is_broken() {
    let buf = req(&[
        "GET / HTTP/1.1",
        "Host: a",
        "Upgrade: websocket",
        "Connection: Upgrade",
        "Sec-WebSocket-Key: dGhlIHNhbXBsZSBub25jZQ==",
        "Sec-WebSocket-Version: 13",
        "Content-Length: 3",
    ]);
    let (_bk, head, _rc, _c) = parse_headers(&buf).unwrap().unwrap();
    assert!(head.get_websocket_upgrade().is_err());
}

#[test]
fn protocols_and_extensions_collect() {
    let buf = req(&[
        "GET / HTTP/1.1",
        "Host: a",
        "Upgrade: websocket",
        "Connection: Upgrade",
        "Sec-WebSocket-Key: dGhlIHNhbXBsZSBub25jZQ==",
        "Sec-WebSocket-Version: 13",
        "Sec-WebSocket-Protocol: chat, superchat, ",
        "Sec-WebSocket-Extensions: permessage-deflate",
    ]);
    let (_bk, head, _rc, _c) = parse_headers(&buf).unwrap().unwrap();
    let hs = head.get_websocket_upgrade().unwrap().unwrap();
    assert_eq!(hs.protocols, vec![b"chat".to_vec(), b"superchat".to_vec()]);
    assert_eq!(hs.extensions, vec![b"permessage-deflate".to_vec()]);
}

#[test]
fn bytes_trim_strips_whitespace() {
    assert_eq!(bytes_trim(b"  x y\r\n"), b"x y");
    assert_eq!(bytes_trim(b"\t\t"), b"");
    assert_eq!(bytes_trim(b"abc"), b"abc");
    assert_eq!(bytes_trim(b""), b"");
}

#[test]
fn decimal_parse_bounds() {
    assert_eq!(parse_u64_dec(b"0"), Some(0));
    assert_eq!(parse_u64_dec(b"42"), Some(42));
    assert_eq!(parse_u64_dec(b"18446744073709551615"), Some(u64::MAX));
    assert_eq!(parse_u64_dec(b"18446744073709551616"), None);
    assert_eq!(parse_u64_dec(b""), None);
    assert_eq!(parse_u64_dec(b"1 2"), None);
    assert_eq!(parse_u64_dec(b"+1"), None);
}

#[test]
fn number_rendering() {
    let mut v = Vec::new();
    push_dec_u64(&mut v, 0);
    v.push(b' ');
    push_dec_u64(&mut v, 10250);
    assert_eq!(v, b"0 10250".to_vec());
    let mut h = Vec::new();
    push_hex_u64(&mut h, 0);
    h.push(b' ');
    push_hex_u64(&mut h, 26);
    h.push(b' ');
    push_hex_u64(&mut h, 0xdead);
    assert_eq!(h, b"0 1a dead".to_vec());
}
