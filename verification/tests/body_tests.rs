//! Tests of the body parser.

use tk_http::body_parser::{BodyParser, BodyError, BodyState};
use tk_http::headers::BodyKind;

fn drain(kind: BodyKind, mut input: &[u8]) -> Result<Vec<u8>, BodyError> {
    let mut p = BodyParser::new(kind);
    let mut payload = Vec::new();
    while !p.is_done() {
        let (consumed, pay) = p.step(input)?;
        payload.extend_from_slice(&input[..pay]);
        input = &input[consumed..];
        if consumed == 0 {
            break;
        }
    }
    assert!(p.is_done(), "ran out of input in state {:?}", p.state);
    Ok(payload)
}

#[test]
fn fixed_body_forwards_exactly_n() {
    let mut p = BodyParser::new(BodyKind::Fixed(5));
    assert!(!p.is_done());
    let (consumed, payload) = p.step(b"abcdefgh").unwrap();
    assert_eq!((consumed, payload), (5, 5));
    assert!(p.is_done());
}

#[test]
fn fixed_body_across_reads() {
    let mut p = BodyParser::new(BodyKind::Fixed(5));
    let (c1, _) = p.step(b"ab").unwrap();
    assert_eq!(c1, 2);
    assert!(!p.is_done());
    let (c2, _) = p.step(b"cde").unwrap();
    assert_eq!(c2, 3);
    assert!(p.is_done());
}

#[test]
fn chunked_body_reassembles() {
    let payload = drain(BodyKind::Chunked, b"2\r\nab\r\n3\r\ncde\r\n0\r\n\r\n").unwrap();
    assert_eq!(payload, b"abcde".to_vec());
}

#[test]
fn chunked_sizes_are_hex() {
    let body: Vec<u8> = (0..26u8).map(|i| 97 + i).collect();
    let mut wire = b"1a\r\n".to_vec();
    wire.extend_from_slice(&body);
    wire.extend_from_slice(b"\r\n0\r\n\r\n");
    assert_eq!(drain(BodyKind::Chunked, &wire).unwrap(), body);
}

#[test]
fn chunked_trailers_are_consumed() {
    let payload = drain(BodyKind::Chunked, b"1\r\nx\r\n0\r\nX-Trailer: 1\r\n\r\n").unwrap();
    assert_eq!(payload, b"x".to_vec());
}

#[test]
fn bad_chunk_size_is_an_error() {
    assert_eq!(drain(BodyKind::Chunked, b"xg\r\n"), Err(BodyError::BadChunkSize));
    assert_eq!(drain(BodyKind::Chunked, b"\r\n"), Err(BodyError::BadChunkSize));
}

#[test]
fn bad_chunk_end_is_an_error() {
    assert_eq!(drain(BodyKind::Chunked, b"1\r\naXY"), Err(BodyError::BadChunkEnd));
}

#[test]
fn incomplete_chunk_header_waits() {
    let mut p = BodyParser::new(BodyKind::Chunked);
    let (consumed, payload) = p.step(b"2\r").unwrap();
    assert_eq!((consumed, payload), (0, 0));
    assert_eq!(p.state, BodyState::ChunkHeader);
}

#[test]
fn connect_body_is_never_read() {
    let p = BodyParser::new(BodyKind::Unsupported);
    assert!(p.is_done());
}
