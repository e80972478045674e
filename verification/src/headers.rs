//! Request preamble scanning: the request line, the header block, body
//! framing per the RFC 7230 precedence rules, host extraction and the
//! connection-close flag.

use vstd::prelude::*;
use crate::enums::Version;
use crate::encoder::{http10_bytes, http11_bytes, ResponseConfig};
use crate::request_target::{RequestTarget, target_valid, target_matches};
use crate::util::{find_byte, find_byte_at, find_crlf, find_crlf_at, trim_seq, bytes_trim,
    lower_seq, all_digits, dec_val};

verus! {

/// How the body of a request is framed.
#[derive(Debug, Clone, Copy, PartialEq, Eq, Structural)]
pub enum BodyKind {
    /// A body of exactly this many bytes (0 when no framing header is present)
    Fixed(u64),
    /// `Transfer-Encoding: chunked`
    Chunked,
    /// A CONNECT request; this toolkit does not read such a body
    Unsupported,
}

/// Faults of the header scanner and the preamble parser.
#[derive(Debug, Clone, Copy, PartialEq, Eq, Structural)]
pub enum ErrorEnum {
    /// Malformed request line or header line
    ParseError,
    /// More headers than even the enlarged slot array admits
    TooManyHeaders,
    /// The request-target is not one of the four accepted forms
    BadRequestTarget,
    /// A second `Content-Length`
    DuplicateContentLength,
    /// `Content-Length` is not a decimal 64-bit number
    ContentLengthInvalid,
    /// A second `Host` header
    DuplicateHost,
    /// `Host` is not valid UTF-8
    HostInvalid,
    /// `Connection` is not valid UTF-8
    ConnectionInvalid,
}

/// One request header, name and value, as raw bytes.
#[derive(Debug, Clone, PartialEq, Eq)]
pub struct Header {
    pub name: Vec<u8>,
    pub value: Vec<u8>,
}

/// The name/value view of a header.
pub open spec fn header_view(h: Header) -> (Seq<u8>, Seq<u8>) {
    (h.name@, h.value@)
}

/// Result of parsing the header block.
pub enum LinesResult {
    /// The terminating empty line has not arrived yet
    Incomplete,
    /// A header line without a colon
    Bad,
    /// More headers than the slot limit admits
    TooMany,
    /// The headers, in order, and the bytes used up to and including the
    /// empty line
    Done { headers: Seq<(Seq<u8>, Seq<u8>)>, used: int },
}

/// Parses header lines until the empty line, with at most `max` slots.
/// A header line is split at its first colon; the value is trimmed.
pub open spec fn parse_lines(s: Seq<u8>, max: int) -> LinesResult
    decreases s.len(),
{
    let k = find_crlf(s);
    if k < 0 || k + 2 > s.len() {
        LinesResult::Incomplete
    } else if k == 0 {
        LinesResult::Done { headers: Seq::empty(), used: 2 }
    } else {
        let line = s.subrange(0, k);
        let c = find_byte(line, 58);
        if c < 0 {
            LinesResult::Bad
        } else if max <= 0 {
            LinesResult::TooMany
        } else {
            let name = line.subrange(0, c);
            let value = trim_seq(line.subrange(c + 1, k));
            match parse_lines(s.subrange(k + 2, s.len() as int), max - 1) {
                LinesResult::Incomplete => LinesResult::Incomplete,
                LinesResult::Bad => LinesResult::Bad,
                LinesResult::TooMany => LinesResult::TooMany,
                LinesResult::Done { headers, used } => LinesResult::Done {
                    headers: seq![(name, value)] + headers,
                    used: used + k + 2,
                },
            }
        }
    }
}

/// Is the request line well-formed: method, target and a known HTTP
/// version, separated by single spaces, method and target non-empty?
pub open spec fn req_line_ok(line: Seq<u8>) -> bool {
    let sp1 = find_byte(line, 32);
    if sp1 <= 0 {
        false
    } else {
        let rest = line.subrange(sp1 + 1, line.len() as int);
        let sp2 = find_byte(rest, 32);
        if sp2 <= 0 {
            false
        } else {
            let ver = rest.subrange(sp2 + 1, rest.len() as int);
            ver == http10_bytes() || ver == http11_bytes()
        }
    }
}

pub open spec fn req_method(line: Seq<u8>) -> Seq<u8> {
    line.subrange(0, find_byte(line, 32))
}

pub open spec fn req_target_raw(line: Seq<u8>) -> Seq<u8> {
    let sp1 = find_byte(line, 32);
    let rest = line.subrange(sp1 + 1, line.len() as int);
    rest.subrange(0, find_byte(rest, 32))
}

pub open spec fn req_version(line: Seq<u8>) -> Version {
    let sp1 = find_byte(line, 32);
    let rest = line.subrange(sp1 + 1, line.len() as int);
    let sp2 = find_byte(rest, 32);
    if rest.subrange(sp2 + 1, rest.len() as int) == http11_bytes() {
        Version::Http11
    } else {
        Version::Http10
    }
}

/// Result of parsing a whole preamble.
pub enum PreResult {
    /// The blank line has not arrived yet
    Incomplete,
    /// Malformed request line or header line
    Bad,
    /// More headers than the slot limit admits
    TooMany,
    /// The parsed pieces and the preamble length in bytes
    Done {
        method: Seq<u8>,
        target: Seq<u8>,
        version: Version,
        headers: Seq<(Seq<u8>, Seq<u8>)>,
        used: int,
    },
}

/// Parses a request preamble: request line, then headers, with at most
/// `max` header slots.
pub open spec fn spec_preamble(s: Seq<u8>, max: int) -> PreResult {
    let k = find_crlf(s);
    if k < 0 {
        PreResult::Incomplete
    } else if !req_line_ok(s.subrange(0, k)) {
        PreResult::Bad
    } else {
        let line = s.subrange(0, k);
        match parse_lines(s.subrange(k + 2, s.len() as int), max) {
            LinesResult::Incomplete => PreResult::Incomplete,
            LinesResult::Bad => PreResult::Bad,
            LinesResult::TooMany => PreResult::TooMany,
            LinesResult::Done { headers, used } => PreResult::Done {
                method: req_method(line),
                target: req_target_raw(line),
                version: req_version(line),
                headers,
                used: used + k + 2,
            },
        }
    }
}

/// A completed header block uses at least the empty line and at most the
/// whole input.
proof fn lemma_parse_lines_used(s: Seq<u8>, max: int)
    ensures
        parse_lines(s, max) matches LinesResult::Done { headers, used } ==> 2 <= used <= s.len(),
    decreases s.len(),
{
    crate::util::lemma_find_crlf(s);
    let k = find_crlf(s);
    if k > 0 {
        let line = s.subrange(0, k);
        if find_byte(line, 58) >= 0 && max > 0 {
            lemma_parse_lines_used(s.subrange(k + 2, s.len() as int), max - 1);
        }
    }
}

fn version_from(v: &[u8]) -> (r: Option<Version>)
    ensures
        match r {
            Some(Version::Http10) => v@ == http10_bytes(),
            Some(Version::Http11) => v@ == http11_bytes(),
            None => v@ != http10_bytes() && v@ != http11_bytes(),
        },
{
    if v.len() != 8 {
        return None;
    }
    let ok_prefix = v[0] == 'H' as u8 && v[1] == 'T' as u8 && v[2] == 'T' as u8 && v[3]
        == 'P' as u8 && v[4] == '/' as u8 && v[5] == '1' as u8 && v[6] == '.' as u8;
    if !ok_prefix {
        proof {
            if v@ == http10_bytes() || v@ == http11_bytes() {
                assert(v@[0] == 'H' as u8 && v@[1] == 'T' as u8 && v@[2] == 'T' as u8 && v@[3]
                    == 'P' as u8 && v@[4] == '/' as u8 && v@[5] == '1' as u8 && v@[6] == '.' as u8);
            }
        }
        return None;
    }
    if v[7] == '0' as u8 {
        proof {
            assert(v@ =~= http10_bytes());
        }
        Some(Version::Http10)
    } else if v[7] == '1' as u8 {
        proof {
            assert(v@ =~= http11_bytes());
        }
        Some(Version::Http11)
    } else {
        proof {
            if v@ == http10_bytes() {
                assert(v@[7] == '0' as u8);
            }
            if v@ == http11_bytes() {
                assert(v@[7] == '1' as u8);
            }
        }
        None
    }
}

/// Parses header lines into `out`, mirroring `parse_lines`. Returns the
/// bytes used, `Ok(None)` while incomplete, `ParseError` for a line
/// without a colon, and `TooManyHeaders` past the slot limit.
fn parse_lines_into(s: &[u8], max: usize, out: &mut Vec<Header>) -> (r: Result<
    Option<usize>,
    ErrorEnum,
>)
    ensures
        match parse_lines(s@, max as int) {
            LinesResult::Incomplete => r == Result::<Option<usize>, ErrorEnum>::Ok(
                Option::<usize>::None,
            ),
            LinesResult::Bad => r == Result::<Option<usize>, ErrorEnum>::Err(ErrorEnum::ParseError),
            LinesResult::TooMany => r == Result::<Option<usize>, ErrorEnum>::Err(
                ErrorEnum::TooManyHeaders,
            ),
            LinesResult::Done { headers, used } => r == Result::<Option<usize>, ErrorEnum>::Ok(
                Option::Some(used as usize),
            ) && final(out)@.map_values(|h: Header| header_view(h)) == old(out)@.map_values(
                |h: Header| header_view(h),
            ) + headers,
        },
    decreases s@.len(),
{
    let slen = s.len();
    match find_crlf_at(s) {
        None => Result::Ok(Option::None),
        Some(k) => {
            proof {
                crate::util::lemma_find_crlf(s@);
            }
            if k == 0 {
                proof {
                    assert(final(out)@.map_values(|h: Header| header_view(h)) =~= old(
                        out,
                    )@.map_values(|h: Header| header_view(h)) + Seq::<(Seq<u8>, Seq<u8>)>::empty());
                }
                Result::Ok(Option::Some(2))
            } else {
                let line = &s[0..k];
                match find_byte_at(line, 58) {
                    None => Result::Err(ErrorEnum::ParseError),
                    Some(c) => {
                        proof {
                            crate::util::lemma_find_byte(line@, 58);
                        }
                        if max == 0 {
                            Result::Err(ErrorEnum::TooManyHeaders)
                        } else {
                            let ghost lineview = s@.subrange(0, k as int);
                            let ghost spec_name = lineview.subrange(0, c as int);
                            let ghost spec_value = trim_seq(
                                lineview.subrange(c as int + 1, k as int),
                            );
                            let name = vstd::slice::slice_to_vec(&line[0..c]);
                            let value_sl = bytes_trim(&line[c + 1..k]);
                            let value = vstd::slice::slice_to_vec(value_sl);
                            proof {
                                assert(line@.subrange(c as int + 1, k as int) =~= lineview.subrange(
                                    c as int + 1,
                                    k as int,
                                ));
                                assert(name@ =~= spec_name);
                                assert(value@ =~= spec_value);
                            }
                            let h = Header { name, value };
                            out.push(h);
                            let ghost mid = out@;
                            let rest = &s[k + 2..slen];
                            let rr = parse_lines_into(rest, max - 1, out);
                            proof {
                                lemma_parse_lines_used(rest@, max as int - 1);
                            }
                            match rr {
                                Result::Ok(Option::Some(used)) => {
                                    proof {
                                        let f = |h: Header| header_view(h);
                                        assert(mid.map_values(f) =~= old(out)@.map_values(f)
                                            + seq![(spec_name, spec_value)]);
                                        let lr = parse_lines(rest@, max as int - 1);
                                        match lr {
                                            LinesResult::Done { headers, used: u2 } => {
                                                assert(final(out)@.map_values(f) =~= old(
                                                    out,
                                                )@.map_values(f) + (seq![(spec_name, spec_value)]
                                                    + headers));
                                            },
                                            _ => {
                                                assert(false);
                                            },
                                        }
                                    }
                                    Result::Ok(Option::Some(used + k + 2))
                                },
                                other => other,
                            }
                        }
                    },
                }
            }
        },
    }
}

pub open spec fn host_lc() -> Seq<u8> {
    seq!['h' as u8, 'o' as u8, 's' as u8, 't' as u8]
}

pub open spec fn expect_lc() -> Seq<u8> {
    seq!['e' as u8, 'x' as u8, 'p' as u8, 'e' as u8, 'c' as u8, 't' as u8]
}

pub open spec fn continue_tok() -> Seq<u8> {
    seq![
        '1' as u8,
        '0' as u8,
        '0' as u8,
        '-' as u8,
        'c' as u8,
        'o' as u8,
        'n' as u8,
        't' as u8,
        'i' as u8,
        'n' as u8,
        'u' as u8,
        'e' as u8,
    ]
}

pub open spec fn connect_bytes() -> Seq<u8> {
    seq!['C' as u8, 'O' as u8, 'N' as u8, 'N' as u8, 'E' as u8, 'C' as u8, 'T' as u8]
}

/// The running state of the header scan, at the specification level.
pub struct ScanModel {
    pub body: BodyKind,
    pub expect_continue: bool,
    pub close: bool,
    pub connection: Option<Seq<u8>>,
    pub host: Option<Seq<u8>>,
    pub conflicting_host: bool,
    pub has_content_length: bool,
    pub host_header: bool,
}

/// The scan state before any header is looked at: an empty body, close
/// for HTTP/1.0, and the host taken from the request-target when that
/// carried an authority.
pub open spec fn scan_init(target_host: Option<Seq<u8>>, version: Version) -> ScanModel {
    ScanModel {
        body: BodyKind::Fixed(0),
        expect_continue: false,
        close: version is Http10,
        connection: Option::None,
        host: target_host,
        conflicting_host: false,
        has_content_length: false,
        host_header: false,
    }
}

/// The effect of one header on the scan state, per the RFC 7230 body
/// length rules: a final `chunked` transfer-coding wins over a
/// `Content-Length` but then forces the connection closed; a duplicate
/// `Content-Length` or `Host` is a hard error.
pub open spec fn scan_step(m: ScanModel, name: Seq<u8>, value: Seq<u8>) -> Result<
    ScanModel,
    ErrorEnum,
> {
    let ln = lower_seq(name);
    if ln == lower_seq(crate::encoder::transfer_encoding_bytes()) {
        if crate::util::tok_is(crate::util::last_token(value), crate::encoder::chunked_word()) {
            Result::Ok(
                ScanModel { body: BodyKind::Chunked, close: m.close || m.has_content_length, ..m },
            )
        } else {
            Result::Ok(m)
        }
    } else if ln == lower_seq(crate::encoder::content_length_bytes()) {
        if m.has_content_length {
            Result::Err(ErrorEnum::DuplicateContentLength)
        } else if !(m.body is Chunked) {
            if value.len() > 0 && all_digits(value) && dec_val(value) <= u64::MAX {
                Result::Ok(
                    ScanModel {
                        body: BodyKind::Fixed(dec_val(value) as u64),
                        has_content_length: true,
                        ..m
                    },
                )
            } else {
                Result::Err(ErrorEnum::ContentLengthInvalid)
            }
        } else {
            Result::Ok(ScanModel { close: true, has_content_length: true, ..m })
        }
    } else if ln == lower_seq(crate::encoder::connection_bytes()) {
        if !vstd::utf8::valid_utf8(value) {
            Result::Err(ErrorEnum::ConnectionInvalid)
        } else {
            let t = trim_seq(value);
            let joined = match m.connection {
                Option::Some(x) => x + seq![44u8, 32u8] + t,
                Option::None => t,
            };
            Result::Ok(
                ScanModel {
                    connection: Option::Some(joined),
                    close: m.close || crate::util::any_token_is(
                        value,
                        crate::encoder::close_word(),
                    ),
                    ..m
                },
            )
        }
    } else if ln == host_lc() {
        if m.host_header {
            Result::Err(ErrorEnum::DuplicateHost)
        } else if !vstd::utf8::valid_utf8(value) {
            Result::Err(ErrorEnum::HostInvalid)
        } else {
            let t = trim_seq(value);
            if m.host is None {
                Result::Ok(ScanModel { host: Option::Some(t), host_header: true, ..m })
            } else if m.host != Option::Some(t) {
                Result::Ok(ScanModel { conflicting_host: true, host_header: true, ..m })
            } else {
                Result::Ok(ScanModel { host_header: true, ..m })
            }
        }
    } else if ln == expect_lc() {
        if crate::util::tok_is(value, continue_tok()) {
            Result::Ok(ScanModel { expect_continue: true, ..m })
        } else {
            Result::Ok(m)
        }
    } else {
        Result::Ok(m)
    }
}

/// The scan state after a sequence of headers, or the first hard error.
pub open spec fn scan_fold(init: ScanModel, hs: Seq<(Seq<u8>, Seq<u8>)>) -> Result<
    ScanModel,
    ErrorEnum,
>
    decreases hs.len(),
{
    if hs.len() == 0 {
        Result::Ok(init)
    } else {
        match scan_fold(init, hs.drop_last()) {
            Result::Err(e) => Result::Err(e),
            Result::Ok(m) => scan_step(m, hs.last().0, hs.last().1),
        }
    }
}

/// The whole scan: the fold over the headers, then the CONNECT override.
pub open spec fn spec_scan(
    method: Seq<u8>,
    target_host: Option<Seq<u8>>,
    version: Version,
    hs: Seq<(Seq<u8>, Seq<u8>)>,
) -> Result<ScanModel, ErrorEnum> {
    match scan_fold(scan_init(target_host, version), hs) {
        Result::Err(e) => Result::Err(e),
        Result::Ok(m) => Result::Ok(
            if method == connect_bytes() {
                ScanModel { body: BodyKind::Unsupported, ..m }
            } else {
                m
            },
        ),
    }
}

/// The authority carried by the request-target, if any: the whole target
/// in authority form, the authority part in absolute form.
pub open spec fn spec_target_host(s: Seq<u8>) -> Option<Seq<u8>> {
    if s == seq![42u8] {
        Option::None
    } else if s.len() > 0 && s[0] == 47 {
        Option::None
    } else {
        let k = crate::util::find_scheme_sep(s);
        if k >= 0 {
            let rest = s.subrange(k + 3, s.len() as int);
            let j = find_byte(rest, 47);
            if j >= 0 {
                Option::Some(rest.subrange(0, j))
            } else {
                Option::Some(rest)
            }
        } else {
            Option::Some(s)
        }
    }
}

/// The scanner's findings for one request.
#[derive(Debug, Clone, PartialEq, Eq)]
pub struct RequestConfig {
    pub body: BodyKind,
    pub expect_continue: bool,
    pub connection_close: bool,
    pub connection: Option<Vec<u8>>,
    pub host: Option<Vec<u8>>,
    pub conflicting_host: bool,
}

pub open spec fn opt_view(o: Option<Vec<u8>>) -> Option<Seq<u8>> {
    match o {
        Option::Some(v) => Option::Some(v@),
        Option::None => Option::None,
    }
}

/// The scanner output agrees with a scan model.
pub open spec fn config_matches(c: RequestConfig, m: ScanModel) -> bool {
    &&& c.body == m.body
    &&& c.expect_continue == m.expect_continue
    &&& c.connection_close == m.close
    &&& opt_view(c.connection) == m.connection
    &&& opt_view(c.host) == m.host
    &&& c.conflicting_host == m.conflicting_host
}

/// A hard error in a prefix of the headers decides the whole fold.
proof fn lemma_scan_fold_extend(init: ScanModel, hs: Seq<(Seq<u8>, Seq<u8>)>, j: int)
    requires
        0 <= j <= hs.len(),
        scan_fold(init, hs.subrange(0, j)) is Err,
    ensures
        scan_fold(init, hs) == scan_fold(init, hs.subrange(0, j)),
    decreases hs.len(),
{
    if j == hs.len() {
        assert(hs.subrange(0, j) =~= hs);
    } else {
        assert(hs.drop_last().subrange(0, j) =~= hs.subrange(0, j));
        lemma_scan_fold_extend(init, hs.drop_last(), j);
    }
}

/// Scans the headers of one request: body framing per the RFC 7230
/// precedence, the joined `Connection` value and the close flag, the
/// host (also from the request-target), the continue expectation, and
/// the parsed request-target itself.
pub fn scan_headers(
    method: &[u8],
    raw_target: &[u8],
    version: Version,
    headers: &Vec<Header>,
) -> (r: Result<(RequestConfig, RequestTarget), ErrorEnum>)
    ensures
        ({
            let pairs = headers@.map_values(|h: Header| header_view(h));
            match r {
                Result::Ok((cfg, t)) => target_valid(raw_target@) && target_matches(
                    t,
                    raw_target@,
                ) && match spec_scan(method@, spec_target_host(raw_target@), version, pairs) {
                    Result::Ok(m) => config_matches(cfg, m),
                    Result::Err(e) => false,
                },
                Result::Err(e) => e != ErrorEnum::ParseError && e != ErrorEnum::TooManyHeaders
                    && (if e == ErrorEnum::BadRequestTarget {
                    !target_valid(raw_target@)
                } else {
                    target_valid(raw_target@) && spec_scan(
                        method@,
                        spec_target_host(raw_target@),
                        version,
                        pairs,
                    ) == Result::<ScanModel, ErrorEnum>::Err(e)
                }),
            }
        }),
{
    let target = match crate::request_target::parse(raw_target) {
        None => {
            return Result::Err(ErrorEnum::BadRequestTarget);
        },
        Some(t) => t,
    };
    let host0: Option<Vec<u8>> = match &target {
        RequestTarget::Authority(a) => Some(a.clone()),
        RequestTarget::Absolute { authority, path } => Some(authority.clone()),
        RequestTarget::Origin(p) => None,
        RequestTarget::Asterisk => None,
    };
    proof {
        assert(opt_view(host0) == spec_target_host(raw_target@));
    }
    let ghost pairs = headers@.map_values(|h: Header| header_view(h));
    let ghost init = scan_init(spec_target_host(raw_target@), version);
    let mut body = BodyKind::Fixed(0);
    let mut expect_continue = false;
    let mut close = matches!(version, Version::Http10);
    let mut connection: Option<Vec<u8>> = None;
    let mut host = host0;
    let mut conflicting_host = false;
    let mut has_cl = false;
    let mut host_hdr = false;
    proof {
        assert(pairs.subrange(0, 0) =~= Seq::<(Seq<u8>, Seq<u8>)>::empty());
    }
    let n = headers.len();
    let mut i: usize = 0;
    while i < n
        invariant
            0 <= i <= n == headers@.len(),
            pairs == headers@.map_values(|h: Header| header_view(h)),
            pairs.len() == headers@.len(),
            init == scan_init(spec_target_host(raw_target@), version),
            target_valid(raw_target@),
            target_matches(target, raw_target@),
            scan_fold(init, pairs.subrange(0, i as int)) == Result::<ScanModel, ErrorEnum>::Ok(
                (ScanModel {
                    body: body,
                    expect_continue: expect_continue,
                    close: close,
                    connection: opt_view(connection),
                    host: opt_view(host),
                    conflicting_host: conflicting_host,
                    has_content_length: has_cl,
                    host_header: host_hdr,
                }),
            ),
        decreases n - i,
    {
        let ghost mcur = ScanModel {
            body: body,
            expect_continue: expect_continue,
            close: close,
            connection: opt_view(connection),
            host: opt_view(host),
            conflicting_host: conflicting_host,
            has_content_length: has_cl,
            host_header: host_hdr,
        };
        let name = headers[i].name.as_slice();
        let value = headers[i].value.as_slice();
        proof {
            assert(pairs[i as int] == header_view(headers@[i as int]));
            assert(pairs.subrange(0, i as int + 1).drop_last() =~= pairs.subrange(0, i as int));
            assert(pairs.subrange(0, i as int + 1).last() == pairs[i as int]);
            reveal_strlit("transfer-encoding");
            reveal_strlit("content-length");
            reveal_strlit("connection");
            reveal_strlit("host");
            reveal_strlit("expect");
            reveal_strlit("chunked");
            reveal_strlit("close");
            reveal_strlit("100-continue");
            assert(vstd::string::is_ascii("transfer-encoding"));
            assert(vstd::string::is_ascii("content-length"));
            assert(vstd::string::is_ascii("connection"));
            assert(vstd::string::is_ascii("host"));
            assert(vstd::string::is_ascii("expect"));
            assert(vstd::string::is_ascii("chunked"));
            assert(vstd::string::is_ascii("close"));
            assert(vstd::string::is_ascii("100-continue"));
            assert(crate::util::ascii_bytes("transfer-encoding"@) =~= lower_seq(
                crate::encoder::transfer_encoding_bytes(),
            ));
            assert(crate::util::ascii_bytes("content-length"@) =~= lower_seq(
                crate::encoder::content_length_bytes(),
            ));
            assert(crate::util::ascii_bytes("connection"@) =~= lower_seq(
                crate::encoder::connection_bytes(),
            ));
            assert(crate::util::ascii_bytes("host"@) =~= host_lc());
            assert(crate::util::ascii_bytes("expect"@) =~= expect_lc());
            assert(crate::util::ascii_bytes("chunked"@) =~= crate::encoder::chunked_word());
            assert(crate::util::ascii_bytes("close"@) =~= crate::encoder::close_word());
            assert(crate::util::ascii_bytes("100-continue"@) =~= continue_tok());
        }
        if crate::util::eq_lower(name, crate::util::str_bytes("transfer-encoding")) {
            let enc = crate::util::last_token_slice(value);
            if crate::util::token_eq(enc, crate::util::str_bytes("chunked")) {
                if has_cl {
                    close = true;
                }
                body = BodyKind::Chunked;
            }
        } else if crate::util::eq_lower(name, crate::util::str_bytes("content-length")) {
            if has_cl {
                proof {
                    assert(scan_step(mcur, pairs[i as int].0, pairs[i as int].1) == Result::<
                        ScanModel,
                        ErrorEnum,
                    >::Err(ErrorEnum::DuplicateContentLength));
                    assert(scan_fold(init, pairs.subrange(0, i as int + 1)) == Result::<
                        ScanModel,
                        ErrorEnum,
                    >::Err(ErrorEnum::DuplicateContentLength));
                    lemma_scan_fold_extend(init, pairs, i as int + 1);
                    assert(headers@.map_values(|h: Header| header_view(h)) =~= pairs);
                    assert(spec_scan(method@, spec_target_host(raw_target@), version, pairs)
                        == Result::<ScanModel, ErrorEnum>::Err(ErrorEnum::DuplicateContentLength));
                }
                return Result::Err(ErrorEnum::DuplicateContentLength);
            }
            has_cl = true;
            if !matches!(body, BodyKind::Chunked) {
                match crate::util::parse_u64_dec(value) {
                    None => {
                        proof {
                            assert(scan_step(mcur, pairs[i as int].0, pairs[i as int].1)
                                == Result::<ScanModel, ErrorEnum>::Err(
                                ErrorEnum::ContentLengthInvalid,
                            ));
                            assert(scan_fold(init, pairs.subrange(0, i as int + 1)) == Result::<
                                ScanModel,
                                ErrorEnum,
                            >::Err(ErrorEnum::ContentLengthInvalid));
                            lemma_scan_fold_extend(init, pairs, i as int + 1);
                            assert(headers@.map_values(|h: Header| header_view(h)) =~= pairs);
                            assert(spec_scan(
                                method@,
                                spec_target_host(raw_target@),
                                version,
                                pairs,
                            ) == Result::<ScanModel, ErrorEnum>::Err(ErrorEnum::ContentLengthInvalid));
                        }
                        return Result::Err(ErrorEnum::ContentLengthInvalid);
                    },
                    Some(len) => {
                        body = BodyKind::Fixed(len);
                    },
                }
            } else {
                close = true;
            }
        } else if crate::util::eq_lower(name, crate::util::str_bytes("connection")) {
            if !crate::util::check_utf8(value) {
                proof {
                    assert(scan_step(mcur, pairs[i as int].0, pairs[i as int].1) == Result::<
                        ScanModel,
                        ErrorEnum,
                    >::Err(ErrorEnum::ConnectionInvalid));
                    assert(scan_fold(init, pairs.subrange(0, i as int + 1)) == Result::<
                        ScanModel,
                        ErrorEnum,
                    >::Err(ErrorEnum::ConnectionInvalid));
                    lemma_scan_fold_extend(init, pairs, i as int + 1);
                    assert(headers@.map_values(|h: Header| header_view(h)) =~= pairs);
                    assert(spec_scan(method@, spec_target_host(raw_target@), version, pairs)
                        == Result::<ScanModel, ErrorEnum>::Err(ErrorEnum::ConnectionInvalid));
                }
                return Result::Err(ErrorEnum::ConnectionInvalid);
            }
            let trimmed = bytes_trim(value);
            let prev = connection;
            connection = Some(
                match prev {
                    Some(mut x) => {
                        x.push(44);
                        x.push(32);
                        x.extend_from_slice(trimmed);
                        proof {
                            assert(x@ =~= mcur.connection.unwrap() + seq![44u8, 32u8] + trimmed@);
                        }
                        x
                    },
                    None => vstd::slice::slice_to_vec(trimmed),
                },
            );
            if crate::util::any_token_eq(value, crate::util::str_bytes("close")) {
                close = true;
            }
        } else if crate::util::eq_lower(name, crate::util::str_bytes("host")) {
            if host_hdr {
                proof {
                    assert(scan_step(mcur, pairs[i as int].0, pairs[i as int].1) == Result::<
                        ScanModel,
                        ErrorEnum,
                    >::Err(ErrorEnum::DuplicateHost));
                    assert(scan_fold(init, pairs.subrange(0, i as int + 1)) == Result::<
                        ScanModel,
                        ErrorEnum,
                    >::Err(ErrorEnum::DuplicateHost));
                    lemma_scan_fold_extend(init, pairs, i as int + 1);
                    assert(headers@.map_values(|h: Header| header_view(h)) =~= pairs);
                    assert(spec_scan(method@, spec_target_host(raw_target@), version, pairs)
                        == Result::<ScanModel, ErrorEnum>::Err(ErrorEnum::DuplicateHost));
                }
                return Result::Err(ErrorEnum::DuplicateHost);
            }
            if !crate::util::check_utf8(value) {
                proof {
                    assert(scan_step(mcur, pairs[i as int].0, pairs[i as int].1) == Result::<
                        ScanModel,
                        ErrorEnum,
                    >::Err(ErrorEnum::HostInvalid));
                    assert(scan_fold(init, pairs.subrange(0, i as int + 1)) == Result::<
                        ScanModel,
                        ErrorEnum,
                    >::Err(ErrorEnum::HostInvalid));
                    lemma_scan_fold_extend(init, pairs, i as int + 1);
                    assert(headers@.map_values(|h: Header| header_view(h)) =~= pairs);
                    assert(spec_scan(method@, spec_target_host(raw_target@), version, pairs)
                        == Result::<ScanModel, ErrorEnum>::Err(ErrorEnum::HostInvalid));
                }
                return Result::Err(ErrorEnum::HostInvalid);
            }
            host_hdr = true;
            let trimmed = bytes_trim(value);
            if host.is_none() {
                host = Some(vstd::slice::slice_to_vec(trimmed));
            } else {
                match &host {
                    Some(hv) => {
                        if !crate::util::eq_bytes(hv.as_slice(), trimmed) {
                            conflicting_host = true;
                        }
                    },
                    None => {
                        proof {
                            assert(false);
                        }
                    },
                }
            }
        } else if crate::util::eq_lower(name, crate::util::str_bytes("expect")) {
            if crate::util::token_eq(value, crate::util::str_bytes("100-continue")) {
                expect_continue = true;
            }
        }
        proof {
            let mnew = ScanModel {
                body: body,
                expect_continue: expect_continue,
                close: close,
                connection: opt_view(connection),
                host: opt_view(host),
                conflicting_host: conflicting_host,
                has_content_length: has_cl,
                host_header: host_hdr,
            };
            assert(scan_step(mcur, pairs[i as int].0, pairs[i as int].1) == Result::<
                ScanModel,
                ErrorEnum,
            >::Ok(mnew));
        }
        i += 1;
    }
    proof {
        assert(pairs.subrange(0, n as int) =~= pairs);
        assert(headers@.map_values(|h: Header| header_view(h)) =~= pairs);
    }
    proof {
        reveal_strlit("CONNECT");
        assert(vstd::string::is_ascii("CONNECT"));
        assert(crate::util::ascii_bytes("CONNECT"@) =~= connect_bytes());
    }
    if crate::util::eq_bytes(method, crate::util::str_bytes("CONNECT")) {
        body = BodyKind::Unsupported;
    }
    let cfg = RequestConfig {
        body,
        expect_continue,
        connection_close: close,
        connection,
        host,
        conflicting_host,
    };
    Result::Ok((cfg, target))
}

/// A larger slot limit never changes a completed, failed or incomplete
/// parse; it can only turn `TooMany` into something else.
proof fn lemma_parse_lines_mono(s: Seq<u8>, m1: int, m2: int)
    requires
        m1 <= m2,
    ensures
        parse_lines(s, m1) is TooMany || parse_lines(s, m1) == parse_lines(s, m2),
    decreases s.len(),
{
    let k = find_crlf(s);
    if k < 0 || k + 2 > s.len() {
    } else if k == 0 {
    } else {
        let line = s.subrange(0, k);
        if find_byte(line, 58) >= 0 && m1 > 0 {
            lemma_parse_lines_mono(s.subrange(k + 2, s.len() as int), m1 - 1, m2 - 1);
        }
    }
}

pub open spec fn head_word() -> Seq<u8> {
    seq!['H' as u8, 'E' as u8, 'A' as u8, 'D' as u8]
}

pub open spec fn upgrade_lc() -> Seq<u8> {
    seq!['u' as u8, 'p' as u8, 'g' as u8, 'r' as u8, 'a' as u8, 'd' as u8, 'e' as u8]
}

/// The parsed request preamble, with everything the scanner computed.
/// The strings are copies of the read buffer's bytes.
#[derive(Debug)]
pub struct Head {
    pub method: Vec<u8>,
    pub raw_target: Vec<u8>,
    pub target: RequestTarget,
    pub host: Option<Vec<u8>>,
    pub conflicting_host: bool,
    pub version: Version,
    pub headers: Vec<Header>,
    pub body_kind: BodyKind,
    pub connection_close: bool,
    pub connection_header: Option<Vec<u8>>,
}

impl Head {
    /// The HTTP method.
    pub fn method(&self) -> (r: &Vec<u8>)
        ensures
            r@ == self.method@,
    {
        &self.method
    }

    /// The parsed request-target.
    pub fn request_target(&self) -> (r: &RequestTarget)
        ensures
            r == self.target,
    {
        &self.target
    }

    /// The raw request-target, as it stood on the request line.
    pub fn raw_request_target(&self) -> (r: &Vec<u8>)
        ensures
            r@ == self.raw_target@,
    {
        &self.raw_target
    }

    /// The path portion of the request-target, absent for the authority
    /// and asterisk forms.
    pub fn path(&self) -> (r: Option<&Vec<u8>>)
        ensures
            match r {
                Some(p) => (self.target matches RequestTarget::Origin(x) && p@ == x@) || (
                self.target matches RequestTarget::Absolute { authority, path } && p@ == path@),
                None => self.target is Authority || self.target is Asterisk,
            },
    {
        match &self.target {
            RequestTarget::Origin(x) => Some(x),
            RequestTarget::Absolute { authority, path } => Some(path),
            RequestTarget::Authority(a) => None,
            RequestTarget::Asterisk => None,
        }
    }

    /// The host of the request, from the `Host` header or from an
    /// authority in the request-target; the target wins a conflict.
    pub fn host(&self) -> (r: Option<&Vec<u8>>)
        ensures
            match r {
                Some(h) => self.host matches Some(x) && h@ == x@,
                None => self.host is None,
            },
    {
        match &self.host {
            Some(h) => Some(h),
            None => None,
        }
    }

    /// True when a `Host` header disagreed with the authority in the
    /// request-target.
    pub fn has_conflicting_host(&self) -> (r: bool)
        ensures
            r == self.conflicting_host,
    {
        self.conflicting_host
    }

    /// Version of the HTTP request.
    pub fn version(&self) -> (r: Version)
        ensures
            r == self.version,
    {
        self.version
    }

    /// All headers of the request, hop-by-hop ones included.
    pub fn all_headers(&self) -> (r: &Vec<Header>)
        ensures
            r@ == self.headers@,
    {
        &self.headers
    }

    /// True when `Connection: close` was present (or HTTP/1.0 implied it).
    pub fn connection_close(&self) -> (r: bool)
        ensures
            r == self.connection_close,
    {
        self.connection_close
    }

    /// The joined value of every `Connection` header, if any was present.
    pub fn connection_header(&self) -> (r: Option<&Vec<u8>>)
        ensures
            match r {
                Some(c) => self.connection_header matches Some(x) && c@ == x@,
                None => self.connection_header is None,
            },
    {
        match &self.connection_header {
            Some(c) => Some(c),
            None => None,
        }
    }

    /// True when the request carries a body: any framing other than a
    /// fixed length of zero.
    pub fn has_body(&self) -> (r: bool)
        ensures
            r == (self.body_kind != BodyKind::Fixed(0)),
    {
        !matches!(self.body_kind, BodyKind::Fixed(0))
    }

    /// The size of the body when it is known in advance.
    pub fn body_length(&self) -> (r: Option<u64>)
        ensures
            match r {
                Some(n) => self.body_kind == BodyKind::Fixed(n),
                None => !(self.body_kind is Fixed),
            },
    {
        match self.body_kind {
            BodyKind::Fixed(x) => Some(x),
            _ => None,
        }
    }

    /// Iterator over the meaningful headers of the request: hop-by-hop
    /// headers, `Host`, `Upgrade` and the body-framing headers are
    /// stripped.
    pub fn headers<'a>(&'a self) -> (r: HeaderIter<'a>)
        ensures
            r.head == self,
            r.idx == 0,
    {
        HeaderIter { head: self, idx: 0 }
    }
}

impl ResponseConfig {
    /// The response settings a request dictates: its version, whether it
    /// was a HEAD request, and whether the connection closes after it.
    pub fn from(req: &Head) -> (r: ResponseConfig)
        ensures
            r.version == req.version,
            r.do_close == req.connection_close,
            r.is_head == (req.method@ == head_word()),
    {
        proof {
            reveal_strlit("HEAD");
            assert(vstd::string::is_ascii("HEAD"));
            assert(crate::util::ascii_bytes("HEAD"@) =~= head_word());
        }
        ResponseConfig {
            version: req.version,
            is_head: crate::util::eq_bytes(req.method.as_slice(), crate::util::str_bytes("HEAD")),
            do_close: req.connection_close,
        }
    }
}

/// Does position `j` of the header list survive the `HeaderIter` filter?
/// Hop-by-hop headers (`Connection` and everything it names), the body
/// framing headers, `Host` and `Upgrade` are stripped.
pub open spec fn keep_header(h: Head, j: int) -> bool {
    let name = h.headers@[j].name@;
    let ln = lower_seq(name);
    &&& ln != lower_seq(crate::encoder::connection_bytes())
    &&& ln != lower_seq(crate::encoder::transfer_encoding_bytes())
    &&& ln != lower_seq(crate::encoder::content_length_bytes())
    &&& ln != upgrade_lc()
    &&& ln != host_lc()
    &&& !(match h.connection_header {
        Some(c) => crate::util::any_token_is(c@, ln),
        None => false,
    })
}

/// Iterator over all meaningful headers of a request, in order. Created
/// by `Head::headers`; duplicates are neither joined nor sorted.
pub struct HeaderIter<'a> {
    pub head: &'a Head,
    pub idx: usize,
}

impl<'a> HeaderIter<'a> {
    /// The next header that survives the filter, with its raw value.
    pub fn next(&mut self) -> (r: Option<(&'a Vec<u8>, &'a Vec<u8>)>)
        requires
            old(self).idx <= old(self).head.headers@.len(),
        ensures
            final(self).head == old(self).head,
            match r {
                None => final(self).idx == old(self).head.headers@.len() && forall|j: int|
                    old(self).idx <= j < old(self).head.headers@.len() ==> !keep_header(
                        *old(self).head,
                        j,
                    ),
                Some((n, v)) => {
                    let at = final(self).idx - 1;
                    &&& old(self).idx <= at < old(self).head.headers@.len()
                    &&& keep_header(*old(self).head, at)
                    &&& n@ == old(self).head.headers@[at].name@
                    &&& v@ == old(self).head.headers@[at].value@
                    &&& forall|j: int| old(self).idx <= j < at ==> !keep_header(*old(self).head, j)
                },
            },
    {
        let h: &'a Head = self.head;
        let n = h.headers.len();
        #[verifier::loop_isolation(false)]
        while self.idx < n
            invariant
                self.head == h,
                old(self).idx <= self.idx <= n == h.headers@.len(),
                forall|j: int| old(self).idx <= j < self.idx ==> !keep_header(*h, j),
            decreases n - self.idx,
        {
            let at = self.idx;
            let name = h.headers[at].name.as_slice();
            proof {
                reveal_strlit("connection");
                reveal_strlit("transfer-encoding");
                reveal_strlit("content-length");
                reveal_strlit("upgrade");
                reveal_strlit("host");
                assert(vstd::string::is_ascii("connection"));
                assert(vstd::string::is_ascii("transfer-encoding"));
                assert(vstd::string::is_ascii("content-length"));
                assert(vstd::string::is_ascii("upgrade"));
                assert(vstd::string::is_ascii("host"));
                assert(crate::util::ascii_bytes("connection"@) =~= lower_seq(
                    crate::encoder::connection_bytes(),
                ));
                assert(crate::util::ascii_bytes("transfer-encoding"@) =~= lower_seq(
                    crate::encoder::transfer_encoding_bytes(),
                ));
                assert(crate::util::ascii_bytes("content-length"@) =~= lower_seq(
                    crate::encoder::content_length_bytes(),
                ));
                assert(crate::util::ascii_bytes("upgrade"@) =~= upgrade_lc());
                assert(crate::util::ascii_bytes("host"@) =~= host_lc());
            }
            let hop = crate::util::eq_lower(name, crate::util::str_bytes("connection"))
                || crate::util::eq_lower(name, crate::util::str_bytes("transfer-encoding"))
                || crate::util::eq_lower(name, crate::util::str_bytes("content-length"))
                || crate::util::eq_lower(name, crate::util::str_bytes("upgrade"))
                || crate::util::eq_lower(name, crate::util::str_bytes("host"));
            if hop {
                self.idx = at + 1;
            } else {
                let in_connection = match &h.connection_header {
                    Some(c) => {
                        let lname = crate::util::to_lower_vec(name);
                        crate::util::any_token_eq(c.as_slice(), lname.as_slice())
                    },
                    None => false,
                };
                if in_connection {
                    self.idx = at + 1;
                } else {
                    self.idx = at + 1;
                    return Some((&h.headers[at].name, &h.headers[at].value));
                }
            }
        }
        None
    }
}

/// Parses one request preamble out of the read buffer.
///
/// Returns `Ok(None)` while the preamble is still incomplete. On success
/// it yields the body framing, the parsed `Head`, the settings for the
/// response, and the number of bytes the preamble used, which the caller
/// consumes from the buffer. Headers are first parsed into sixteen
/// slots; on overflow the parse is retried with 1024, beyond which
/// `TooManyHeaders` is a hard error.
pub fn parse_headers(buffer: &[u8]) -> (r: Result<
    Option<(BodyKind, Head, ResponseConfig, usize)>,
    ErrorEnum,
>)
    ensures
        ({
            let p = spec_preamble(buffer@, 1024);
            match r {
                Result::Ok(Option::None) => p is Incomplete,
                Result::Ok(Option::Some((bk, head, rc, consumed))) => p matches PreResult::Done {
                    method,
                    target,
                    version,
                    headers,
                    used,
                } && {
                    &&& target_valid(target)
                    &&& consumed == used
                    &&& head.method@ == method
                    &&& head.raw_target@ == target
                    &&& head.version == version
                    &&& head.headers@.map_values(|h: Header| header_view(h)) == headers
                    &&& target_matches(head.target, target)
                    &&& match spec_scan(method, spec_target_host(target), version, headers) {
                        Result::Ok(m) => bk == m.body && head.body_kind == m.body
                            && head.connection_close == m.close && opt_view(head.host) == m.host
                            && head.conflicting_host == m.conflicting_host && opt_view(
                            head.connection_header,
                        ) == m.connection && rc.version == version && rc.do_close == m.close
                            && rc.is_head == (method == head_word()),
                        Result::Err(e) => false,
                    }
                },
                Result::Err(e) => match e {
                    ErrorEnum::ParseError => p is Bad,
                    ErrorEnum::TooManyHeaders => p is TooMany,
                    _ => p matches PreResult::Done { method, target, version, headers, used } && (
                    if e == ErrorEnum::BadRequestTarget {
                        !target_valid(target)
                    } else {
                        target_valid(target) && spec_scan(
                            method,
                            spec_target_host(target),
                            version,
                            headers,
                        ) == Result::<ScanModel, ErrorEnum>::Err(e)
                    }),
                },
            }
        }),
{
    let slen = buffer.len();
    let k = match find_crlf_at(buffer) {
        None => {
            return Result::Ok(Option::None);
        },
        Some(k) => k,
    };
    proof {
        crate::util::lemma_find_crlf(buffer@);
    }
    let line = &buffer[0..k];
    let sp1 = match find_byte_at(line, 32) {
        None => {
            return Result::Err(ErrorEnum::ParseError);
        },
        Some(x) => x,
    };
    proof {
        crate::util::lemma_find_byte(line@, 32);
    }
    if sp1 == 0 {
        return Result::Err(ErrorEnum::ParseError);
    }
    let rest = &line[sp1 + 1..k];
    let sp2 = match find_byte_at(rest, 32) {
        None => {
            return Result::Err(ErrorEnum::ParseError);
        },
        Some(x) => x,
    };
    proof {
        crate::util::lemma_find_byte(rest@, 32);
    }
    if sp2 == 0 {
        return Result::Err(ErrorEnum::ParseError);
    }
    let ver_sl = &rest[sp2 + 1..rest.len()];
    let version = match version_from(ver_sl) {
        None => {
            proof {
                assert(!req_line_ok(buffer@.subrange(0, k as int)));
            }
            return Result::Err(ErrorEnum::ParseError);
        },
        Some(v) => v,
    };
    proof {
        assert(req_line_ok(buffer@.subrange(0, k as int)));
        assert(req_version(buffer@.subrange(0, k as int)) == version);
    }
    let tail = &buffer[k + 2..slen];
    let mut hdrs: Vec<Header> = Vec::new();
    let first = parse_lines_into(tail, 16, &mut hdrs);
    proof {
        lemma_parse_lines_mono(tail@, 16, 1024);
    }
    let used = match first {
        Result::Ok(Option::Some(u)) => u,
        Result::Ok(Option::None) => {
            return Result::Ok(Option::None);
        },
        Result::Err(ErrorEnum::TooManyHeaders) => {
            let mut hdrs2: Vec<Header> = Vec::new();
            match parse_lines_into(tail, 1024, &mut hdrs2) {
                Result::Ok(Option::Some(u)) => {
                    hdrs = hdrs2;
                    u
                },
                Result::Ok(Option::None) => {
                    return Result::Ok(Option::None);
                },
                Result::Err(e2) => {
                    return Result::Err(e2);
                },
            }
        },
        Result::Err(e) => {
            return Result::Err(e);
        },
    };
    proof {
        lemma_parse_lines_used(tail@, 1024);
        assert(Seq::<Header>::empty().map_values(|h: Header| header_view(h)) =~= Seq::<
            (Seq<u8>, Seq<u8>),
        >::empty());
    }
    let method_sl = &line[0..sp1];
    let target_sl = &rest[0..sp2];
    proof {
        assert(method_sl@ == req_method(buffer@.subrange(0, k as int)));
        assert(target_sl@ == req_target_raw(buffer@.subrange(0, k as int)));
    }
    let (cfg, tgt) = match scan_headers(method_sl, target_sl, version, &hdrs) {
        Result::Err(e) => {
            return Result::Err(e);
        },
        Result::Ok(x) => x,
    };
    let head = Head {
        method: vstd::slice::slice_to_vec(method_sl),
        raw_target: vstd::slice::slice_to_vec(target_sl),
        target: tgt,
        host: cfg.host,
        conflicting_host: cfg.conflicting_host,
        version,
        headers: hdrs,
        body_kind: cfg.body,
        connection_close: cfg.connection_close,
        connection_header: cfg.connection,
    };
    let rc = ResponseConfig::from(&head);
    let consumed = k + 2 + used;
    Result::Ok(Option::Some((head.body_kind, head, rc, consumed)))
}

} // verus!
