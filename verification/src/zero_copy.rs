//! WebSocket frame codec: zero-copy parsing with in-place unmasking, and
//! frame writing with optional client-side masking.

use vstd::prelude::*;
use crate::util::{u16_be, u64_be, val_u16_be, val_u64_be, check_utf8};

verus! {

/// One parsed frame of websocket data. `Text` payloads and `Close` reasons
/// have been checked to be valid UTF-8.
#[derive(Debug, Clone, PartialEq, Eq)]
pub enum Frame {
    /// Ping message
    Ping(Vec<u8>),
    /// Pong message
    Pong(Vec<u8>),
    /// Text (utf-8) message
    Text(Vec<u8>),
    /// Binary message
    Binary(Vec<u8>),
    /// Close message: code and utf-8 reason
    Close(u16, Vec<u8>),
}

/// Why a websocket frame was rejected.
#[derive(Debug, Clone, Copy, PartialEq, Eq, Structural)]
pub enum ErrorEnum {
    /// Payload length exceeds the configured limit
    TooLong,
    /// The FIN bit is clear; fragmented messages are not supported
    Fragmented,
    /// The mask bit does not match the side the frame came from
    Unmasked,
    /// An opcode outside the supported set
    InvalidOpcode(u8),
    /// Text payload or close reason is not valid UTF-8
    Utf8,
}

/// Payload bytes XOR-ed with a four-byte masking key.
pub open spec fn xor_mask(data: Seq<u8>, key: Seq<u8>) -> Seq<u8> {
    Seq::new(data.len(), |i: int| (data[i] ^ key[i % 4]) as u8)
}

/// The frame header: FIN + opcode byte, then the minimal length encoding,
/// with the mask bit set when a key follows.
pub open spec fn frame_header(opcode: u8, mask: bool, l: u64) -> Seq<u8> {
    let mb: u8 = if mask {
        0x80u8
    } else {
        0u8
    };
    let fb: u8 = (opcode | 0x80u8) as u8;
    if l <= 125 {
        seq![fb, (l as u8 | mb) as u8]
    } else if l <= 65535 {
        seq![fb, (126u8 | mb) as u8] + u16_be(l as u16)
    } else {
        seq![fb, (127u8 | mb) as u8] + u64_be(l)
    }
}

/// The full encoding of one frame: header, optional masking key, payload
/// (XOR-ed with the key when one is present).
pub open spec fn frame_bytes(opcode: u8, data: Seq<u8>, key: Option<Seq<u8>>) -> Seq<u8> {
    match key {
        Option::None => frame_header(opcode, false, data.len() as u64) + data,
        Option::Some(k) => frame_header(opcode, true, data.len() as u64) + k + xor_mask(data, k),
    }
}

/// The seven-bit length field of the second header byte.
pub open spec fn len_field(s: Seq<u8>) -> u8 {
    (s[1] & 0x7Fu8) as u8
}

/// More bytes are needed before even the payload length is known.
pub open spec fn need_more(s: Seq<u8>) -> bool {
    s.len() < 2 || (len_field(s) == 126 && s.len() < 4) || (len_field(s) == 127 && s.len() < 10)
}

/// Size of the fixed header, before any masking key.
pub open spec fn hdr_size(s: Seq<u8>) -> int {
    if len_field(s) == 126 {
        4
    } else if len_field(s) == 127 {
        10
    } else {
        2
    }
}

/// The payload length the header declares.
pub open spec fn plen(s: Seq<u8>) -> u64 {
    if len_field(s) == 126 {
        val_u16_be(s[2], s[3]) as u64
    } else if len_field(s) == 127 {
        val_u64_be(s.subrange(2, 10))
    } else {
        len_field(s) as u64
    }
}

/// Offset of the payload: header plus masking key when one is expected.
pub open spec fn start_of(s: Seq<u8>, masked: bool) -> int {
    hdr_size(s) + if masked {
        4int
    } else {
        0int
    }
}

pub open spec fn fin_bit(s: Seq<u8>) -> bool {
    s[0] & 0x80 != 0
}

pub open spec fn mask_bit(s: Seq<u8>) -> bool {
    s[1] & 0x80 != 0
}

pub open spec fn opcode_of(s: Seq<u8>) -> u8 {
    (s[0] & 0x0Fu8) as u8
}

/// The four-byte masking key preceding the payload.
pub open spec fn key_of(s: Seq<u8>, masked: bool) -> Seq<u8> {
    s.subrange(start_of(s, masked) - 4, start_of(s, masked))
}

/// The payload bytes as they stand on the wire.
pub open spec fn raw_payload(s: Seq<u8>, masked: bool) -> Seq<u8> {
    s.subrange(start_of(s, masked), start_of(s, masked) + plen(s))
}

/// The payload after unmasking (identical to the wire bytes when the
/// frame is unmasked).
pub open spec fn plain_payload(s: Seq<u8>, masked: bool) -> Seq<u8> {
    if masked {
        xor_mask(raw_payload(s, masked), key_of(s, masked))
    } else {
        raw_payload(s, masked)
    }
}

/// The buffer after in-place unmasking: only the payload region changes,
/// each byte XOR-ed with the key byte at its offset modulo four.
pub open spec fn unmasked_at(s: Seq<u8>, masked: bool) -> Seq<u8> {
    if masked {
        s.subrange(0, start_of(s, masked)) + plain_payload(s, masked) + s.subrange(
            start_of(s, masked) + plen(s),
            s.len() as int,
        )
    } else {
        s
    }
}

/// The header is complete, the declared length is within the limit, and
/// the whole payload has arrived.
pub open spec fn frame_complete(s: Seq<u8>, masked: bool, limit: u64) -> bool {
    &&& !need_more(s)
    &&& plen(s) <= limit
    &&& s.len() >= start_of(s, masked) + plen(s)
}

/// A complete frame whose FIN and mask bits pass the checks.
pub open spec fn frame_ok(s: Seq<u8>, masked: bool, limit: u64) -> bool {
    frame_complete(s, masked, limit) && fin_bit(s) && mask_bit(s) == masked
}

/// The frame value that a given opcode and (unmasked) payload parse to.
/// A close payload shorter than two bytes has no code; it stands for a
/// normal closure (code 1000) with an empty reason.
pub open spec fn frame_matches(f: Frame, pay: Seq<u8>, opcode: u8) -> bool {
    if opcode == 9 {
        f matches Frame::Ping(d) && d@ == pay
    } else if opcode == 10 {
        f matches Frame::Pong(d) && d@ == pay
    } else if opcode == 1 {
        f matches Frame::Text(d) && d@ == pay && vstd::utf8::valid_utf8(pay)
    } else if opcode == 2 {
        f matches Frame::Binary(d) && d@ == pay
    } else if opcode == 8 {
        if pay.len() >= 2 {
            f matches Frame::Close(c, rsn) && c == val_u16_be(pay[0], pay[1]) && rsn@
                == pay.subrange(2, pay.len() as int) && vstd::utf8::valid_utf8(rsn@)
        } else {
            f matches Frame::Close(c, rsn) && c == 1000 && rsn@ == Seq::<u8>::empty()
        }
    } else {
        false
    }
}

/// Relies on rand::rng and RngCore::fill_bytes for the four random bytes
/// that mask a client-side frame; nothing is assumed of their values.
#[verifier::external_body]
fn random_mask() -> (r: [u8; 4])
    ensures
        r@.len() == 4,
{
    let mut b = [0u8; 4];
    rand::Rng::fill_bytes(&mut rand::rng(), &mut b);
    b
}

/// Tries to parse one frame from the front of `buf`.
///
/// Returns `Ok(None)` while the frame is still incomplete. On success the
/// payload has been unmasked in place and the frame plus the number of
/// consumed bytes is returned; the caller advances the buffer after the
/// borrow ends. `masked` is true on the server side (client frames must
/// be masked) and false on the client side.
pub fn parse_frame(buf: &mut Vec<u8>, limit: usize, masked: bool) -> (r: Result<
    Option<(Frame, usize)>,
    ErrorEnum,
>)
    ensures
        ({
            let s = old(buf)@;
            match r {
                Result::Ok(opt) => match opt {
                    Option::None => final(buf)@ == s && (need_more(s) || (plen(s) <= limit as u64
                        && s.len() < start_of(s, masked) + plen(s))),
                    Option::Some((frame, consumed)) => frame_ok(s, masked, limit as u64)
                        && final(buf)@ == unmasked_at(s, masked)
                        && consumed == start_of(s, masked) + plen(s)
                        && frame_matches(frame, plain_payload(s, masked), opcode_of(s)),
                },
                Result::Err(e) => match e {
                    ErrorEnum::TooLong => final(buf)@ == s && !need_more(s) && plen(s)
                        > limit as u64,
                    ErrorEnum::Fragmented => final(buf)@ == s && frame_complete(
                        s,
                        masked,
                        limit as u64,
                    ) && !fin_bit(s),
                    ErrorEnum::Unmasked => final(buf)@ == s && frame_complete(
                        s,
                        masked,
                        limit as u64,
                    ) && fin_bit(s) && mask_bit(s) != masked,
                    ErrorEnum::InvalidOpcode(x) => frame_ok(s, masked, limit as u64) && final(buf)@
                        == unmasked_at(s, masked) && x == opcode_of(s) && !(x == 1 || x == 2 || x
                        == 8 || x == 9 || x == 10),
                    ErrorEnum::Utf8 => frame_ok(s, masked, limit as u64) && final(buf)@
                        == unmasked_at(s, masked) && ((opcode_of(s) == 1 && !vstd::utf8::valid_utf8(
                        plain_payload(s, masked),
                    )) || (opcode_of(s) == 8 && plen(s) >= 2 && !vstd::utf8::valid_utf8(
                        plain_payload(s, masked).subrange(2, plen(s) as int),
                    ))),
                },
            }
        }),
{
    let ghost s = buf@;
    let blen = buf.len();
    if blen < 2 {
        return Result::Ok(Option::None);
    }
    let b0 = buf[0];
    let b1 = buf[1];
    let lf: u8 = b1 & 0x7F;
    let size: u64;
    let fsize: usize;
    if lf == 126 {
        if blen < 4 {
            return Result::Ok(Option::None);
        }
        size = crate::util::read_u16_be(buf[2], buf[3]) as u64;
        fsize = 4;
    } else if lf == 127 {
        if blen < 10 {
            return Result::Ok(Option::None);
        }
        size = crate::util::read_u64_be(buf.as_slice(), 2);
        fsize = 10;
    } else {
        size = lf as u64;
        fsize = 2;
    }
    proof {
        assert(size == plen(s));
        assert(!need_more(s));
    }
    if size > limit as u64 {
        return Result::Err(ErrorEnum::TooLong);
    }
    let start: usize = fsize + if masked {
        4
    } else {
        0
    };
    if (blen as u128) < start as u128 + size as u128 {
        return Result::Ok(Option::None);
    }
    let size_us: usize = size as usize;
    let fin = b0 & 0x80 != 0;
    let opcode = b0 & 0x0F;
    let has_mask = b1 & 0x80 != 0;
    if !fin {
        return Result::Err(ErrorEnum::Fragmented);
    }
    if has_mask != masked {
        return Result::Err(ErrorEnum::Unmasked);
    }
    if masked {
        let k0 = buf[start - 4];
        let k1 = buf[start - 3];
        let k2 = buf[start - 2];
        let k3 = buf[start - 1];
        proof {
            assert(key_of(s, masked) =~= seq![k0, k1, k2, k3]);
        }
        let mut idx: usize = 0;
        while idx < size_us
            invariant
                0 <= idx <= size_us,
                start + size_us <= buf@.len(),
                buf@.len() <= usize::MAX,
                size_us == plen(s),
                start == start_of(s, masked),
                masked,
                buf@.len() == s.len(),
                key_of(s, masked) == seq![k0, k1, k2, k3],
                forall|j: int|
                    0 <= j < s.len() && !(start <= j < start + idx) ==> buf@[j] == s[j],
                forall|j: int|
                    start <= j < start + idx ==> buf@[j] == (s[j] ^ key_of(s, masked)[(j - start)
                        % 4]),
            decreases size_us - idx,
        {
            let m: u8 = if idx % 4 == 0 {
                k0
            } else if idx % 4 == 1 {
                k1
            } else if idx % 4 == 2 {
                k2
            } else {
                k3
            };
            proof {
                assert(m == key_of(s, masked)[(idx as int) % 4]);
            }
            let v = buf[start + idx] ^ m;
            buf[start + idx] = v;
            idx += 1;
        }
        proof {
            assert(buf@ =~= unmasked_at(s, masked));
        }
    }
    proof {
        if !masked {
            assert(buf@ == unmasked_at(s, masked));
        }
        assert(forall|j: int|
            0 <= j < plen(s) ==> #[trigger] unmasked_at(s, masked)[start as int + j]
                == plain_payload(s, masked)[j]);
    }
    let mut pay: Vec<u8> = Vec::new();
    let mut i: usize = 0;
    while i < size_us
        invariant
            0 <= i <= size_us,
            start + size_us <= buf@.len(),
            buf@.len() <= usize::MAX,
            size_us == plen(s),
            start == start_of(s, masked),
            buf@ == unmasked_at(s, masked),
            plain_payload(s, masked).len() == size_us,
            pay@ == plain_payload(s, masked).subrange(0, i as int),
            forall|j: int|
                0 <= j < plen(s) ==> #[trigger] buf@[start as int + j] == plain_payload(s, masked)[j],
        decreases size_us - i,
    {
        pay.push(buf[start + i]);
        proof {
            assert(pay@ =~= plain_payload(s, masked).subrange(0, i as int + 1));
        }
        i += 1;
    }
    proof {
        assert(pay@ =~= plain_payload(s, masked));
    }
    let consumed = start + size_us;
    if opcode == 9 {
        Result::Ok(Option::Some((Frame::Ping(pay), consumed)))
    } else if opcode == 10 {
        Result::Ok(Option::Some((Frame::Pong(pay), consumed)))
    } else if opcode == 1 {
        if check_utf8(pay.as_slice()) {
            Result::Ok(Option::Some((Frame::Text(pay), consumed)))
        } else {
            Result::Err(ErrorEnum::Utf8)
        }
    } else if opcode == 2 {
        Result::Ok(Option::Some((Frame::Binary(pay), consumed)))
    } else if opcode == 8 {
        if pay.len() >= 2 {
            let code = crate::util::read_u16_be(pay[0], pay[1]);
            let mut rsn: Vec<u8> = Vec::new();
            let mut j: usize = 2;
            while j < pay.len()
                invariant
                    2 <= j <= pay@.len(),
                    rsn@ == pay@.subrange(2, j as int),
                decreases pay@.len() - j,
            {
                rsn.push(pay[j]);
                proof {
                    assert(rsn@ =~= pay@.subrange(2, j as int + 1));
                }
                j += 1;
            }
            proof {
                assert(rsn@ =~= pay@.subrange(2, pay@.len() as int));
            }
            if check_utf8(rsn.as_slice()) {
                Result::Ok(Option::Some((Frame::Close(code, rsn), consumed)))
            } else {
                Result::Err(ErrorEnum::Utf8)
            }
        } else {
            Result::Ok(Option::Some((Frame::Close(1000, Vec::new()), consumed)))
        }
    } else {
        Result::Err(ErrorEnum::InvalidOpcode(opcode))
    }
}

/// Appends one frame to `buf`: FIN always set, minimal length encoding,
/// and, when `mask` is set (client side), a random four-byte key followed
/// by the masked payload.
pub fn write_packet(buf: &mut Vec<u8>, opcode: u8, data: &[u8], mask: bool)
    requires
        opcode & 0xF0 == 0,
    ensures
        !mask ==> final(buf)@ == old(buf)@ + frame_bytes(opcode, data@, Option::None),
        mask ==> exists|k: Seq<u8>|
            k.len() == 4 && final(buf)@ == old(buf)@ + frame_bytes(opcode, data@, Option::Some(k)),
{
    let ghost s0 = buf@;
    let mb: u8 = if mask {
        0x80
    } else {
        0
    };
    let fb: u8 = opcode | 0x80;
    let len: usize = data.len();
    if len <= 125 {
        buf.push(fb);
        buf.push(len as u8 | mb);
    } else if len <= 65535 {
        buf.push(fb);
        buf.push(126 | mb);
        let l16: u16 = len as u16;
        buf.push((l16 >> 8) as u8);
        buf.push(l16 as u8);
    } else {
        buf.push(fb);
        buf.push(127 | mb);
        let l64: u64 = len as u64;
        buf.push((l64 >> 56) as u8);
        buf.push((l64 >> 48) as u8);
        buf.push((l64 >> 40) as u8);
        buf.push((l64 >> 32) as u8);
        buf.push((l64 >> 24) as u8);
        buf.push((l64 >> 16) as u8);
        buf.push((l64 >> 8) as u8);
        buf.push(l64 as u8);
    }
    proof {
        assert(buf@ =~= s0 + frame_header(opcode, mask, data@.len() as u64));
    }
    if mask {
        let key = random_mask();
        buf.push(key[0]);
        buf.push(key[1]);
        buf.push(key[2]);
        buf.push(key[3]);
        let ghost kseq = seq![key[0], key[1], key[2], key[3]];
        proof {
            assert(kseq =~= key@);
        }
        let ghost s1 = buf@;
        let mut i: usize = 0;
        while i < len
            invariant
                0 <= i <= len == data@.len(),
                key@.len() == 4,
                kseq == key@,
                buf@ == s1 + xor_mask(data@.subrange(0, i as int), kseq),
            decreases len - i,
        {
            let m: u8 = key[i % 4];
            proof {
                assert(m == kseq[(i as int) % 4]);
            }
            buf.push(data[i] ^ m);
            proof {
                assert(buf@ =~= s1 + xor_mask(data@.subrange(0, i as int + 1), kseq)) by {
                    assert(forall|j: int|
                        0 <= j < i + 1 ==> #[trigger] data@.subrange(0, i as int + 1)[j] == data@[j]);
                    assert(forall|j: int|
                        0 <= j < i ==> #[trigger] data@.subrange(0, i as int)[j] == data@[j]);
                }
            }
            i += 1;
        }
        proof {
            assert(data@.subrange(0, len as int) =~= data@);
            assert(buf@ =~= s0 + frame_bytes(opcode, data@, Option::Some(kseq)));
        }
    } else {
        let mut i: usize = 0;
        let ghost s1 = buf@;
        while i < len
            invariant
                0 <= i <= len == data@.len(),
                buf@ == s1 + data@.subrange(0, i as int),
            decreases len - i,
        {
            buf.push(data[i]);
            proof {
                assert(buf@ =~= s1 + data@.subrange(0, i as int + 1));
            }
            i += 1;
        }
        proof {
            assert(data@.subrange(0, len as int) =~= data@);
            assert(buf@ =~= s0 + frame_bytes(opcode, data@, Option::None));
        }
    }
}

/// Masking is an involution: XOR-ing with the same key twice gives the
/// original bytes back.
pub proof fn lemma_mask_involution(data: Seq<u8>, key: Seq<u8>)
    requires
        key.len() == 4,
    ensures
        xor_mask(xor_mask(data, key), key) =~= data,
{
    assert forall|i: int| 0 <= i < data.len() implies xor_mask(xor_mask(data, key), key)[i]
        == data[i] by {
        let x = data[i];
        let m = key[i % 4];
        assert((x ^ m) ^ m == x) by (bit_vector);
    }
}

/// In-place unmasking leaves each payload byte equal to the wire byte
/// XOR-ed with the key byte at its offset modulo four.
pub proof fn lemma_unmask_pointwise(s: Seq<u8>, i: int)
    requires
        !need_more(s),
        s.len() >= start_of(s, true) + plen(s),
        0 <= i < plen(s),
    ensures
        unmasked_at(s, true)[start_of(s, true) + i] == (s[start_of(s, true) + i] ^ key_of(
            s,
            true,
        )[i % 4]),
{
    let start = start_of(s, true);
    assert(unmasked_at(s, true)[start + i] == plain_payload(s, true)[i]);
    assert(raw_payload(s, true)[i] == s[start + i]);
}

/// Writing a frame and parsing the bytes back yields the same opcode and
/// payload: the encoding is complete, passes every check of the parser,
/// and unmasks to the original data.
pub proof fn lemma_frame_round_trip(opcode: u8, data: Seq<u8>, key: Option<Seq<u8>>, limit: u64)
    requires
        opcode & 0xF0 == 0,
        data.len() <= limit,
        key matches Option::Some(k) ==> k.len() == 4,
    ensures
        ({
            let masked = key is Some;
            let s = frame_bytes(opcode, data, key);
            frame_ok(s, masked, limit) && opcode_of(s) == opcode && plen(s) == data.len()
                && s.len() == start_of(s, masked) + plen(s) && plain_payload(s, masked) == data
        }),
{
    let masked = key is Some;
    let s = frame_bytes(opcode, data, key);
    let l = data.len() as u64;
    let mb: u8 = if masked {
        0x80u8
    } else {
        0u8
    };
    let hdr = frame_header(opcode, masked, l);
    assert((opcode | 0x80u8) & 0x0Fu8 == opcode && (opcode | 0x80u8) & 0x80u8 != 0)
        by (bit_vector)
        requires
            opcode & 0xF0u8 == 0,
    ;
    assert(s[0] == hdr[0] && s[1] == hdr[1]);
    if l <= 125 {
        let l8 = l as u8;
        assert((l8 | mb) & 0x7Fu8 == l8 && l8 & 0x7Fu8 == l8 && ((l8 | 0x80u8) & 0x80u8 != 0) && (
        (l8 | 0u8) & 0x80u8 == 0)) by (bit_vector)
            requires
                l8 <= 125, mb == 0x80u8 || mb == 0u8,
        ;
        assert(len_field(s) == l8);
        assert(plen(s) == l);
        assert(hdr_size(s) == 2);
        assert(mask_bit(s) == masked);
    } else if l <= 65535 {
        assert((126u8 | mb) & 0x7Fu8 == 126 && ((126u8 | 0x80u8) & 0x80u8 != 0) && ((126u8 | 0u8)
            & 0x80u8 == 0)) by (bit_vector)
            requires
                mb == 0x80u8 || mb == 0u8,
        ;
        assert(len_field(s) == 126);
        assert(s[2] == u16_be(l as u16)[0] && s[3] == u16_be(l as u16)[1]);
        crate::util::lemma_u16_be_round_trip(l as u16, 0, 0);
        assert(plen(s) == l);
        assert(hdr_size(s) == 4);
        assert(mask_bit(s) == masked);
    } else {
        assert((127u8 | mb) & 0x7Fu8 == 127 && ((127u8 | 0x80u8) & 0x80u8 != 0) && ((127u8 | 0u8)
            & 0x80u8 == 0)) by (bit_vector)
            requires
                mb == 0x80u8 || mb == 0u8,
        ;
        assert(len_field(s) == 127);
        assert(s.subrange(2, 10) =~= u64_be(l));
        crate::util::lemma_u64_be_round_trip(l, u64_be(l));
        assert(plen(s) == l);
        assert(hdr_size(s) == 10);
        assert(mask_bit(s) == masked);
    }
    assert(fin_bit(s));
    assert(opcode_of(s) == opcode);
    assert(!need_more(s));
    match key {
        Option::None => {
            assert(s.len() == start_of(s, masked) + plen(s));
            assert(raw_payload(s, masked) =~= data);
        },
        Option::Some(k) => {
            assert(s.len() == hdr.len() + 4 + data.len());
            assert(s.len() == start_of(s, masked) + plen(s));
            assert(key_of(s, masked) =~= k);
            assert(raw_payload(s, masked) =~= xor_mask(data, k));
            lemma_mask_involution(data, k);
            assert(plain_payload(s, masked) =~= data);
        },
    }
}

/// Appends a close frame: the payload is the code in big-endian order
/// followed by the utf-8 reason, at most 123 bytes long.
pub fn write_close(buf: &mut Vec<u8>, code: u16, reason: &[u8], mask: bool)
    requires
        reason@.len() <= 123,
    ensures
        !mask ==> final(buf)@ == old(buf)@ + frame_bytes(
            8,
            u16_be(code) + reason@,
            Option::None,
        ),
        mask ==> exists|k: Seq<u8>|
            k.len() == 4 && final(buf)@ == old(buf)@ + frame_bytes(
                8,
                u16_be(code) + reason@,
                Option::Some(k),
            ),
{
    let mut payload: Vec<u8> = Vec::new();
    payload.push((code >> 8) as u8);
    payload.push(code as u8);
    let mut i: usize = 0;
    while i < reason.len()
        invariant
            0 <= i <= reason@.len(),
            payload@ == u16_be(code) + reason@.subrange(0, i as int),
        decreases reason@.len() - i,
    {
        payload.push(reason[i]);
        proof {
            assert(payload@ =~= u16_be(code) + reason@.subrange(0, i as int + 1));
        }
        i += 1;
    }
    proof {
        assert(u16_be(code) + reason@.subrange(0, reason@.len() as int) =~= u16_be(code)
            + reason@);
    }
    proof {
        assert(8u8 & 0xF0 == 0) by (bit_vector);
    }
    write_packet(buf, 8, payload.as_slice(), mask);
}

} // verus!
