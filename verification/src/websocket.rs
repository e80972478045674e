//! Server-side WebSocket handshake: detecting an upgrade request,
//! computing the `Sec-WebSocket-Accept` digest, and collecting the
//! offered protocols and extensions.

use vstd::prelude::*;
use crate::headers::{Head, Header, header_view, BodyKind, upgrade_lc};
use crate::util::{lower_seq, trim_seq, bytes_trim, ascii_bytes, find_comma};

verus! {

/// The SHA-1 digest of a byte string, named after the outside routine
/// that computes it.
pub uninterp spec fn sha1_of(data: Seq<u8>) -> Seq<u8>;

/// Relies on sha1::Sha1 through the Digest trait: the digest depends on
/// the input bytes alone and is twenty bytes long.
#[verifier::external_body]
fn sha1_digest(data: &Vec<u8>) -> (r: [u8; 20])
    ensures
        r@ == sha1_of(data@),
        r@.len() == 20,
{
    let d = <sha1::Sha1 as sha1::Digest>::digest(data.as_slice());
    let mut out = [0u8; 20];
    out.copy_from_slice(&d);
    out
}

/// The fixed GUID a WebSocket accept digest mixes into the key.
pub open spec fn guid_bytes() -> Seq<u8> {
    ascii_bytes("258EAFA5-E914-47DA-95CA-C5AB0DC85B11"@)
}

/// The `Sec-WebSocket-Accept` digest value.
#[derive(Debug, Clone, PartialEq, Eq)]
pub struct WebsocketAccept(pub [u8; 20]);

/// One base64 digit.
pub open spec fn b64_char(d: int) -> u8 {
    if d < 26 {
        (65 + d) as u8
    } else if d < 52 {
        (97 + d - 26) as u8
    } else if d < 62 {
        (48 + d - 52) as u8
    } else if d == 62 {
        43u8
    } else {
        47u8
    }
}

/// The four base64 digits of one three-byte group.
pub open spec fn b64_group(a: u8, b: u8, c: u8) -> Seq<u8> {
    let n = a * 65536 + b * 256 + c;
    seq![
        b64_char(n / 262144 % 64),
        b64_char(n / 4096 % 64),
        b64_char(n / 64 % 64),
        b64_char(n % 64),
    ]
}

/// Base64 of the full three-byte groups of `s` from position `i` on.
pub open spec fn b64_from(s: Seq<u8>, i: int) -> Seq<u8>
    decreases s.len() - i,
{
    if i < 0 || i + 3 > s.len() {
        Seq::empty()
    } else {
        b64_group(s[i], s[i + 1], s[i + 2]) + b64_from(s, i + 3)
    }
}

/// Base64 of a twenty-byte digest: six full groups, then the two
/// remaining bytes and one padding `=`.
pub open spec fn accept_b64(s: Seq<u8>) -> Seq<u8>
    recommends
        s.len() == 20,
{
    let n = s[18] * 65536 + s[19] * 256;
    b64_from(s, 0) + seq![
        b64_char(n / 262144 % 64),
        b64_char(n / 4096 % 64),
        b64_char(n / 64 % 64),
        61u8,
    ]
}

fn b64_digit(d: u32) -> (r: u8)
    requires
        d < 64,
    ensures
        r == b64_char(d as int),
{
    if d < 26 {
        65 + d as u8
    } else if d < 52 {
        97 + (d as u8 - 26)
    } else if d < 62 {
        48 + (d as u8 - 52)
    } else if d == 62 {
        43
    } else {
        47
    }
}

impl WebsocketAccept {
    /// The textual form of the accept value: base64 of the digest,
    /// twenty-eight ASCII bytes ending in `=`.
    pub fn base64(&self) -> (r: Vec<u8>)
        ensures
            r@ == accept_b64(self.0@),
    {
        let s = &self.0;
        let mut out: Vec<u8> = Vec::new();
        proof {
            assert(Seq::<u8>::empty() + b64_from(s@, 0) =~= b64_from(s@, 0));
        }
        let mut i: usize = 0;
        while i < 6
            invariant
                0 <= i <= 6,
                s@.len() == 20,
                out@ + b64_from(s@, 3 * i as int) == b64_from(s@, 0),
            decreases 6 - i,
        {
            let ghost prior = out@;
            let a = s[3 * i];
            let b = s[3 * i + 1];
            let c = s[3 * i + 2];
            let n: u32 = a as u32 * 65536 + b as u32 * 256 + c as u32;
            out.push(b64_digit(n / 262144 % 64));
            out.push(b64_digit(n / 4096 % 64));
            out.push(b64_digit(n / 64 % 64));
            out.push(b64_digit(n % 64));
            proof {
                assert(out@ =~= prior + b64_group(
                    s@[3 * i as int],
                    s@[3 * i as int + 1],
                    s@[3 * i as int + 2],
                ));
                assert(b64_from(s@, 3 * i as int) == b64_group(
                    s@[3 * i as int],
                    s@[3 * i as int + 1],
                    s@[3 * i as int + 2],
                ) + b64_from(s@, 3 * i as int + 3));
                assert(out@ + b64_from(s@, 3 * (i + 1) as int) =~= b64_from(s@, 0));
            }
            i += 1;
        }
        proof {
            assert(b64_from(s@, 18) =~= Seq::<u8>::empty());
            assert(out@ =~= b64_from(s@, 0));
        }
        let n: u32 = s[18] as u32 * 65536 + s[19] as u32 * 256;
        out.push(b64_digit(n / 262144 % 64));
        out.push(b64_digit(n / 4096 % 64));
        out.push(b64_digit(n / 64 % 64));
        out.push(61);
        proof {
            assert(out@ =~= accept_b64(s@));
        }
        out
    }
}

/// The outcome of a finished WebSocket handshake check.
#[derive(Debug)]
pub struct WebsocketHandshake {
    /// The value for the `Sec-WebSocket-Accept` response header
    pub accept: WebsocketAccept,
    /// The `Sec-WebSocket-Protocol` tokens offered
    pub protocols: Vec<Vec<u8>>,
    /// The `Sec-WebSocket-Extensions` tokens offered
    pub extensions: Vec<Vec<u8>>,
}

/// The non-empty comma-separated tokens of a header value, trimmed.
pub open spec fn token_list(s: Seq<u8>) -> Seq<Seq<u8>>
    decreases s.len(),
{
    let k = find_comma(s);
    if 0 <= k < s.len() {
        let t = trim_seq(s.subrange(0, k));
        (if t.len() > 0 {
            seq![t]
        } else {
            Seq::empty()
        }) + token_list(s.subrange(k + 1, s.len() as int))
    } else {
        let t = trim_seq(s);
        if t.len() > 0 {
            seq![t]
        } else {
            Seq::empty()
        }
    }
}

/// Appends the non-empty trimmed tokens of `s` to `out`.
fn collect_tokens(s: &[u8], out: &mut Vec<Vec<u8>>)
    ensures
        final(out)@.map_values(|v: Vec<u8>| v@) == old(out)@.map_values(|v: Vec<u8>| v@)
            + token_list(s@),
    decreases s@.len(),
{
    let len = s.len();
    let mut i: usize = 0;
    while i < len && s[i] != 44
        invariant
            0 <= i <= len == s@.len(),
            forall|j: int| 0 <= j < i ==> s@[j] != 44,
        decreases len - i,
    {
        i += 1;
    }
    proof {
        crate::util::lemma_find_comma(s@);
    }
    if i < len {
        proof {
            assert(s@[i as int] == 44);
            assert(find_comma(s@) == i);
        }
        let pre = &s[0..i];
        let t = bytes_trim(pre);
        let ghost before = out@;
        if t.len() > 0 {
            out.push(vstd::slice::slice_to_vec(t));
        }
        proof {
            assert(pre@ == s@.subrange(0, i as int));
            assert(out@.map_values(|v: Vec<u8>| v@) =~= before.map_values(|v: Vec<u8>| v@) + (
            if trim_seq(s@.subrange(0, i as int)).len() > 0 {
                seq![trim_seq(s@.subrange(0, i as int))]
            } else {
                Seq::<Seq<u8>>::empty()
            }));
        }
        let ghost mid = out@;
        let rest = &s[i + 1..len];
        collect_tokens(rest, out);
        proof {
            assert(rest@ =~= s@.subrange(i as int + 1, len as int));
            assert(out@.map_values(|v: Vec<u8>| v@) == mid.map_values(|v: Vec<u8>| v@)
                + token_list(rest@));
            assert(token_list(s@) == (if trim_seq(s@.subrange(0, i as int)).len() > 0 {
                seq![trim_seq(s@.subrange(0, i as int))]
            } else {
                Seq::<Seq<u8>>::empty()
            }) + token_list(s@.subrange(i as int + 1, len as int)));
            assert(out@.map_values(|v: Vec<u8>| v@) =~= old(out)@.map_values(|v: Vec<u8>| v@)
                + token_list(s@));
        }
    } else {
        proof {
            assert(find_comma(s@) == -1);
        }
        let t = bytes_trim(s);
        let ghost before = out@;
        if t.len() > 0 {
            out.push(vstd::slice::slice_to_vec(t));
        }
        proof {
            assert(out@.map_values(|v: Vec<u8>| v@) =~= before.map_values(|v: Vec<u8>| v@)
                + token_list(s@));
        }
    }
}

pub open spec fn swk_lc() -> Seq<u8> {
    ascii_bytes("sec-websocket-key"@)
}

pub open spec fn swv_lc() -> Seq<u8> {
    ascii_bytes("sec-websocket-version"@)
}

pub open spec fn swp_lc() -> Seq<u8> {
    ascii_bytes("sec-websocket-protocol"@)
}

pub open spec fn swe_lc() -> Seq<u8> {
    ascii_bytes("sec-websocket-extensions"@)
}

pub open spec fn websocket_lc() -> Seq<u8> {
    ascii_bytes("websocket"@)
}

pub open spec fn thirteen() -> Seq<u8> {
    ascii_bytes("13"@)
}

/// The running state of the handshake check.
pub struct HsModel {
    pub upgrade: bool,
    pub version_ok: bool,
    pub key: Option<Seq<u8>>,
    pub protocols: Seq<Seq<u8>>,
    pub extensions: Seq<Seq<u8>>,
}

/// What one header does to the handshake check: progress, a hard fault,
/// or the finding that this is not a websocket request at all.
pub enum HsOutcome {
    Continue(HsModel),
    Fail,
    NotWs,
}

pub open spec fn hs_init() -> HsModel {
    HsModel {
        upgrade: false,
        version_ok: false,
        key: Option::None,
        protocols: Seq::empty(),
        extensions: Seq::empty(),
    }
}

/// The effect of one header: the key is recorded (a second one is a
/// fault), only version 13 is accepted, protocol and extension tokens
/// accumulate, and an `Upgrade` naming anything but `websocket` makes
/// the request a plain one.
pub open spec fn hs_step(m: HsModel, name: Seq<u8>, value: Seq<u8>) -> HsOutcome {
    let ln = lower_seq(name);
    if ln == swk_lc() {
        if m.key is Some {
            HsOutcome::Fail
        } else {
            HsOutcome::Continue(HsModel { key: Option::Some(trim_seq(value)), ..m })
        }
    } else if ln == swv_lc() {
        if trim_seq(value) == thirteen() {
            HsOutcome::Continue(HsModel { version_ok: true, ..m })
        } else {
            HsOutcome::Fail
        }
    } else if ln == swp_lc() {
        if vstd::utf8::valid_utf8(value) {
            HsOutcome::Continue(HsModel { protocols: m.protocols + token_list(value), ..m })
        } else {
            HsOutcome::Fail
        }
    } else if ln == swe_lc() {
        if vstd::utf8::valid_utf8(value) {
            HsOutcome::Continue(HsModel { extensions: m.extensions + token_list(value), ..m })
        } else {
            HsOutcome::Fail
        }
    } else if ln == upgrade_lc() {
        if lower_seq(value) == websocket_lc() {
            HsOutcome::Continue(HsModel { upgrade: true, ..m })
        } else {
            HsOutcome::NotWs
        }
    } else {
        HsOutcome::Continue(m)
    }
}

/// The handshake check over a sequence of headers; the first fault or
/// not-a-websocket finding wins.
pub open spec fn hs_fold(m: HsModel, hs: Seq<(Seq<u8>, Seq<u8>)>) -> HsOutcome
    decreases hs.len(),
{
    if hs.len() == 0 {
        HsOutcome::Continue(m)
    } else {
        match hs_fold(m, hs.drop_last()) {
            HsOutcome::Fail => HsOutcome::Fail,
            HsOutcome::NotWs => HsOutcome::NotWs,
            HsOutcome::Continue(mm) => hs_step(mm, hs.last().0, hs.last().1),
        }
    }
}

/// A decided prefix (fault or not-a-websocket) decides the whole fold.
proof fn lemma_hs_fold_extend(init: HsModel, hs: Seq<(Seq<u8>, Seq<u8>)>, j: int)
    requires
        0 <= j <= hs.len(),
        !(hs_fold(init, hs.subrange(0, j)) is Continue),
    ensures
        hs_fold(init, hs) == hs_fold(init, hs.subrange(0, j)),
    decreases hs.len(),
{
    if j == hs.len() {
        assert(hs.subrange(0, j) =~= hs);
    } else {
        assert(hs.drop_last().subrange(0, j) =~= hs.subrange(0, j));
        lemma_hs_fold_extend(init, hs.drop_last(), j);
    }
}

/// Whether the `Connection` header of a request names `upgrade`.
pub open spec fn conn_upgrade(h: Head) -> bool {
    match h.connection_header {
        Option::Some(c) => crate::util::any_token_is(c@, upgrade_lc()),
        Option::None => false,
    }
}

/// Checks whether a request is a WebSocket handshake and computes the
/// answer to it.
///
/// `Ok(None)` means a plain HTTP request (no upgrade asked for, or an
/// `Upgrade` header naming something else). `Err(())` means the request
/// tried to upgrade but the handshake is broken: a duplicate or missing
/// key, a version other than 13, bad UTF-8 in the token lists, a missing
/// `Upgrade: websocket`, or a request body. On success the accept value
/// is the SHA-1 of the trimmed key followed by the fixed GUID.
pub fn get_handshake(req: &Head) -> (r: Result<Option<WebsocketHandshake>, ()>)
    ensures
        ({
            let pairs = req.headers@.map_values(|h: Header| header_view(h));
            match r {
                Result::Ok(Option::None) => !conn_upgrade(*req) || hs_fold(hs_init(), pairs)
                    is NotWs,
                Result::Err(()) => conn_upgrade(*req) && match hs_fold(hs_init(), pairs) {
                    HsOutcome::Fail => true,
                    HsOutcome::NotWs => false,
                    HsOutcome::Continue(m) => req.body_kind != BodyKind::Fixed(0) || !m.upgrade
                        || !m.version_ok || m.key is None,
                },
                Result::Ok(Option::Some(hshake)) => conn_upgrade(*req) && match hs_fold(
                    hs_init(),
                    pairs,
                ) {
                    HsOutcome::Continue(m) => req.body_kind == BodyKind::Fixed(0) && m.upgrade
                        && m.version_ok && (match m.key {
                        Option::Some(k) => hshake.accept.0@ == sha1_of(k + guid_bytes()),
                        Option::None => false,
                    }) && hshake.protocols@.map_values(|v: Vec<u8>| v@) == m.protocols
                        && hshake.extensions@.map_values(|v: Vec<u8>| v@) == m.extensions,
                    _ => false,
                },
            }
        }),
{
    proof {
        reveal_strlit("upgrade");
        assert(vstd::string::is_ascii("upgrade"));
        assert(ascii_bytes("upgrade"@) =~= upgrade_lc());
    }
    let up = match req.connection_header() {
        Some(c) => crate::util::any_token_eq(c.as_slice(), crate::util::str_bytes("upgrade")),
        None => false,
    };
    if !up {
        return Result::Ok(Option::None);
    }
    let ghost pairs = req.headers@.map_values(|h: Header| header_view(h));
    let mut upgrade = false;
    let mut version_ok = false;
    let mut key: Option<Vec<u8>> = None;
    let mut protocols: Vec<Vec<u8>> = Vec::new();
    let mut extensions: Vec<Vec<u8>> = Vec::new();
    proof {
        assert(pairs.subrange(0, 0) =~= Seq::<(Seq<u8>, Seq<u8>)>::empty());
        assert(protocols@.map_values(|v: Vec<u8>| v@) =~= Seq::<Seq<u8>>::empty());
        assert(extensions@.map_values(|v: Vec<u8>| v@) =~= Seq::<Seq<u8>>::empty());
    }
    let n = req.headers.len();
    let mut i: usize = 0;
    while i < n
        invariant
            0 <= i <= n == req.headers@.len(),
            pairs == req.headers@.map_values(|h: Header| header_view(h)),
            pairs.len() == req.headers@.len(),
            conn_upgrade(*req),
            hs_fold(hs_init(), pairs.subrange(0, i as int)) == HsOutcome::Continue(
                (HsModel {
                    upgrade: upgrade,
                    version_ok: version_ok,
                    key: crate::headers::opt_view(key),
                    protocols: protocols@.map_values(|v: Vec<u8>| v@),
                    extensions: extensions@.map_values(|v: Vec<u8>| v@),
                }),
            ),
        decreases n - i,
    {
        let ghost mcur = HsModel {
            upgrade: upgrade,
            version_ok: version_ok,
            key: crate::headers::opt_view(key),
            protocols: protocols@.map_values(|v: Vec<u8>| v@),
            extensions: extensions@.map_values(|v: Vec<u8>| v@),
        };
        let name = req.headers[i].name.as_slice();
        let value = req.headers[i].value.as_slice();
        proof {
            assert(pairs[i as int] == header_view(req.headers@[i as int]));
            assert(pairs.subrange(0, i as int + 1).drop_last() =~= pairs.subrange(0, i as int));
            assert(pairs.subrange(0, i as int + 1).last() == pairs[i as int]);
            reveal_strlit("sec-websocket-key");
            reveal_strlit("sec-websocket-version");
            reveal_strlit("sec-websocket-protocol");
            reveal_strlit("sec-websocket-extensions");
            reveal_strlit("upgrade");
            reveal_strlit("websocket");
            reveal_strlit("13");
            assert(vstd::string::is_ascii("sec-websocket-key"));
            assert(vstd::string::is_ascii("sec-websocket-version"));
            assert(vstd::string::is_ascii("sec-websocket-protocol"));
            assert(vstd::string::is_ascii("sec-websocket-extensions"));
            assert(vstd::string::is_ascii("upgrade"));
            assert(vstd::string::is_ascii("websocket"));
            assert(vstd::string::is_ascii("13"));
            assert(ascii_bytes("upgrade"@) =~= upgrade_lc());
        }
        if crate::util::eq_lower(name, crate::util::str_bytes("sec-websocket-key")) {
            if key.is_some() {
                proof {
                    assert(hs_fold(hs_init(), pairs.subrange(0, i as int + 1)) == HsOutcome::Fail);
                    lemma_hs_fold_extend(hs_init(), pairs, i as int + 1);
                }
                return Result::Err(());
            }
            key = Some(vstd::slice::slice_to_vec(bytes_trim(value)));
        } else if crate::util::eq_lower(name, crate::util::str_bytes("sec-websocket-version")) {
            let t = bytes_trim(value);
            if !crate::util::eq_bytes(t, crate::util::str_bytes("13")) {
                proof {
                    assert(hs_fold(hs_init(), pairs.subrange(0, i as int + 1)) == HsOutcome::Fail);
                    lemma_hs_fold_extend(hs_init(), pairs, i as int + 1);
                }
                return Result::Err(());
            }
            version_ok = true;
        } else if crate::util::eq_lower(name, crate::util::str_bytes("sec-websocket-protocol")) {
            if !crate::util::check_utf8(value) {
                proof {
                    assert(hs_fold(hs_init(), pairs.subrange(0, i as int + 1)) == HsOutcome::Fail);
                    lemma_hs_fold_extend(hs_init(), pairs, i as int + 1);
                }
                return Result::Err(());
            }
            collect_tokens(value, &mut protocols);
        } else if crate::util::eq_lower(name, crate::util::str_bytes("sec-websocket-extensions")) {
            if !crate::util::check_utf8(value) {
                proof {
                    assert(hs_fold(hs_init(), pairs.subrange(0, i as int + 1)) == HsOutcome::Fail);
                    lemma_hs_fold_extend(hs_init(), pairs, i as int + 1);
                }
                return Result::Err(());
            }
            collect_tokens(value, &mut extensions);
        } else if crate::util::eq_lower(name, crate::util::str_bytes("upgrade")) {
            if !crate::util::eq_lower(value, crate::util::str_bytes("websocket")) {
                proof {
                    assert(hs_fold(hs_init(), pairs.subrange(0, i as int + 1)) == HsOutcome::NotWs);
                    lemma_hs_fold_extend(hs_init(), pairs, i as int + 1);
                }
                return Result::Ok(Option::None);
            }
            upgrade = true;
        }
        proof {
            let mnew = HsModel {
                upgrade: upgrade,
                version_ok: version_ok,
                key: crate::headers::opt_view(key),
                protocols: protocols@.map_values(|v: Vec<u8>| v@),
                extensions: extensions@.map_values(|v: Vec<u8>| v@),
            };
            assert(hs_step(mcur, pairs[i as int].0, pairs[i as int].1) == HsOutcome::Continue(
                mnew,
            ));
        }
        i += 1;
    }
    proof {
        assert(pairs.subrange(0, n as int) =~= pairs);
    }
    if !matches!(req.body_kind, BodyKind::Fixed(0)) {
        return Result::Err(());
    }
    if !upgrade {
        return Result::Err(());
    }
    if !version_ok {
        return Result::Err(());
    }
    let key_vec = match key {
        None => {
            return Result::Err(());
        },
        Some(k) => k,
    };
    let ghost gk = key_vec@;
    let mut data = key_vec;
    proof {
        reveal_strlit("258EAFA5-E914-47DA-95CA-C5AB0DC85B11");
        assert(vstd::string::is_ascii("258EAFA5-E914-47DA-95CA-C5AB0DC85B11"));
    }
    data.extend_from_slice(crate::util::str_bytes("258EAFA5-E914-47DA-95CA-C5AB0DC85B11"));
    proof {
        assert(data@ =~= gk + guid_bytes());
    }
    let digest = sha1_digest(&data);
    Result::Ok(
        Option::Some(WebsocketHandshake { accept: WebsocketAccept(digest), protocols, extensions }),
    )
}

impl Head {
    /// Checks whether this request is a WebSocket handshake; see
    /// `get_handshake`.
    pub fn get_websocket_upgrade(&self) -> (r: Result<Option<WebsocketHandshake>, ()>)
        ensures
            ({
                let pairs = self.headers@.map_values(|h: Header| header_view(h));
                match r {
                    Result::Ok(Option::None) => !conn_upgrade(*self) || hs_fold(hs_init(), pairs)
                        is NotWs,
                    Result::Err(()) => conn_upgrade(*self) && match hs_fold(hs_init(), pairs) {
                        HsOutcome::Fail => true,
                        HsOutcome::NotWs => false,
                        HsOutcome::Continue(m) => self.body_kind != BodyKind::Fixed(0)
                            || !m.upgrade || !m.version_ok || m.key is None,
                    },
                    Result::Ok(Option::Some(hshake)) => conn_upgrade(*self) && match hs_fold(
                        hs_init(),
                        pairs,
                    ) {
                        HsOutcome::Continue(m) => self.body_kind == BodyKind::Fixed(0)
                            && m.upgrade && m.version_ok && (match m.key {
                            Option::Some(k) => hshake.accept.0@ == sha1_of(k + guid_bytes()),
                            Option::None => false,
                        }) && hshake.protocols@.map_values(|v: Vec<u8>| v@) == m.protocols
                            && hshake.extensions@.map_values(|v: Vec<u8>| v@) == m.extensions,
                        _ => false,
                    },
                }
            }),
    {
        get_handshake(self)
    }
}

} // verus!
