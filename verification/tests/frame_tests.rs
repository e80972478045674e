//! Tests of the WebSocket frame codec.

use tk_http::zero_copy::{parse_frame, write_packet, write_close, Frame, ErrorEnum};

#[test]
fn s6_masked_text_frame() {
    let mut buf = vec![0x81, 0x85, 0x37, 0xfa, 0x21, 0x3d, 0x7f, 0x9f, 0x4d, 0x51, 0x58];
    let (frame, consumed) = parse_frame(&mut buf, 1024, true).unwrap().unwrap();
    assert_eq!(frame, Frame::Text(b"Hello".to_vec()));
    assert_eq!(consumed, 11);
}

#[test]
fn p7_unmasking_is_in_place() {
    let mut buf = vec![0x81, 0x85, 0x37, 0xfa, 0x21, 0x3d, 0x7f, 0x9f, 0x4d, 0x51, 0x58];
    let masked: Vec<u8> = buf[6..11].to_vec();
    let key = [0x37, 0xfa, 0x21, 0x3d];
    parse_frame(&mut buf, 1024, true).unwrap().unwrap();
    for i in 0..5 {
        assert_eq!(buf[6 + i], masked[i] ^ key[i % 4]);
    }
    assert_eq!(&buf[6..11], b"Hello");
}

#[test]
fn p14_long_frame_over_limit() {
    // 64-bit length encoding declaring 300 bytes against a limit of 10
    let mut buf = vec![0x81, 0xFF, 0, 0, 0, 0, 0, 0, 0x01, 0x2C];
    assert_eq!(parse_frame(&mut buf, 10, true).unwrap_err(), ErrorEnum::TooLong);
}

#[test]
fn sixteen_bit_length_over_limit() {
    let mut buf = vec![0x81, 0xFE, 0x01, 0x00];
    assert_eq!(parse_frame(&mut buf, 100, true).unwrap_err(), ErrorEnum::TooLong);
}

#[test]
fn incomplete_frames_wait() {
    let mut b1 = vec![0x81];
    assert!(parse_frame(&mut b1, 100, true).unwrap().is_none());
    let mut b2 = vec![0x81, 0xFE, 0x00];
    assert!(parse_frame(&mut b2, 1000, true).unwrap().is_none());
    // header complete, payload not yet arrived
    let mut b3 = vec![0x81, 0x85, 0x37, 0xfa, 0x21, 0x3d, 0x7f];
    assert!(parse_frame(&mut b3, 100, true).unwrap().is_none());
}

#[test]
fn fragmented_frame_rejected() {
    let mut buf = vec![0x01, 0x81, 1, 2, 3, 4, 0x20];
    assert_eq!(parse_frame(&mut buf, 100, true).unwrap_err(), ErrorEnum::Fragmented);
}

#[test]
fn wrong_mask_direction_rejected() {
    // unmasked frame on the server side; enough bytes must be there for
    // the masked-layout completeness check to pass first
    let mut buf = vec![0x81, 0x01, 0x41, 0, 0, 0, 0];
    assert_eq!(parse_frame(&mut buf, 100, true).unwrap_err(), ErrorEnum::Unmasked);
    // masked frame on the client side
    let mut buf2 = vec![0x81, 0x81, 1, 2, 3, 4, 0x41];
    assert_eq!(parse_frame(&mut buf2, 100, false).unwrap_err(), ErrorEnum::Unmasked);
}

#[test]
fn invalid_opcode_rejected() {
    let mut buf = vec![0x83, 0x01, 0x41];
    assert_eq!(parse_frame(&mut buf, 100, false).unwrap_err(), ErrorEnum::InvalidOpcode(3));
}

#[test]
fn invalid_utf8_text_rejected() {
    let mut buf = vec![0x81, 0x02, 0xff, 0xfe];
    assert_eq!(parse_frame(&mut buf, 100, false).unwrap_err(), ErrorEnum::Utf8);
}

#[test]
fn p6_round_trip_unmasked() {
    let payload = b"round trip payload".to_vec();
    let mut wire = Vec::new();
    write_packet(&mut wire, 0x2, &payload, false);
    let (frame, consumed) = parse_frame(&mut wire, 1024, false).unwrap().unwrap();
    assert_eq!(frame, Frame::Binary(payload));
    assert_eq!(consumed, wire.len());
}

#[test]
fn p6_round_trip_masked() {
    let payload = b"Hello".to_vec();
    let mut wire = Vec::new();
    write_packet(&mut wire, 0x1, &payload, true);
    assert_eq!(wire.len(), 2 + 4 + 5);
    let (frame, consumed) = parse_frame(&mut wire, 1024, true).unwrap().unwrap();
    assert_eq!(frame, Frame::Text(payload));
    assert_eq!(consumed, 11);
}

#[test]
fn p6_round_trip_extended_lengths() {
    // 16-bit length encoding
    let payload: Vec<u8> = (0..300u32).map(|i| (i % 251) as u8).collect();
    let mut wire = Vec::new();
    write_packet(&mut wire, 0x2, &payload, false);
    assert_eq!(wire[1], 126);
    let (frame, consumed) = parse_frame(&mut wire, 100000, false).unwrap().unwrap();
    assert_eq!(frame, Frame::Binary(payload));
    assert_eq!(consumed, 300 + 4);

    // 64-bit length encoding
    let payload2: Vec<u8> = (0..70000u32).map(|i| (i % 13) as u8).collect();
    let mut wire2 = Vec::new();
    write_packet(&mut wire2, 0x2, &payload2, false);
    assert_eq!(wire2[1], 127);
    let (frame2, consumed2) = parse_frame(&mut wire2, 1 << 20, false).unwrap().unwrap();
    assert_eq!(frame2, Frame::Binary(payload2));
    assert_eq!(consumed2, 70000 + 10);
}

#[test]
fn ping_pong_frames() {
    let mut wire = Vec::new();
    write_packet(&mut wire, 0x9, b"pp", false);
    let (frame, _) = parse_frame(&mut wire, 100, false).unwrap().unwrap();
    assert_eq!(frame, Frame::Ping(b"pp".to_vec()));
    let mut wire2 = Vec::new();
    write_packet(&mut wire2, 0xA, b"", false);
    let (frame2, consumed2) = parse_frame(&mut wire2, 100, false).unwrap().unwrap();
    assert_eq!(frame2, Frame::Pong(Vec::new()));
    assert_eq!(consumed2, 2);
}

#[test]
fn close_round_trip() {
    let mut wire = Vec::new();
    write_close(&mut wire, 1002, b"gone", false);
    assert_eq!(wire[0], 0x88);
    let (frame, _) = parse_frame(&mut wire, 100, false).unwrap().unwrap();
    assert_eq!(frame, Frame::Close(1002, b"gone".to_vec()));
}

#[test]
fn close_without_code_defaults_to_normal() {
    let mut wire = vec![0x88, 0x00];
    let (frame, consumed) = parse_frame(&mut wire, 100, false).unwrap().unwrap();
    assert_eq!(frame, Frame::Close(1000, Vec::new()));
    assert_eq!(consumed, 2);
}

#[test]
fn masked_write_emits_random_key() {
    // the mask bit must be set and the payload must not appear in clear
    // unless the key happens to be zero; the round trip is the real check
    let mut wire = Vec::new();
    write_close(&mut wire, 1000, b"bye", true);
    assert_eq!(wire[0], 0x88);
    assert_eq!(wire[1], 0x80 | 5);
    let (frame, _) = parse_frame(&mut wire, 100, true).unwrap().unwrap();
    assert_eq!(frame, Frame::Close(1000, b"bye".to_vec()));
}
