//! Response serializer: a state machine that guarantees every byte put
//! into the outgoing buffer forms a syntactically valid HTTP message.
//!
//! The encoder records a ghost transcript of everything it emitted. The
//! well-formedness invariant ties the byte buffer to the transcript and
//! carries the protocol laws: at most one body-length header is ever
//! written, a fixed-length body is emitted in full, a chunked body is
//! terminated by exactly one zero chunk, and a HEAD response carries no
//! body bytes at all.

use vstd::prelude::*;
use crate::enums::Version;
use crate::util::{dec_digits, hex_digits, lower_seq, ascii_bytes, eq_lower, str_bytes,
    push_dec_u64, push_hex_u64};

verus! {

/// Phase of the message being serialized.
#[derive(Clone, Copy, Debug)]
pub enum State {
    /// Nothing written yet (100-continue responses excepted)
    Start,
    /// Status line written, headers may be added
    Headers,
    /// Headers closed, body may be written
    Body,
    /// `done` was called
    Finished,
}

/// How the body's end is determined.
#[derive(Clone, Copy, Debug)]
pub enum Framing {
    /// No body-length header seen yet
    Unset,
    /// `Content-Length: total`; `written` body bytes emitted so far
    Fixed { total: u64, written: u64 },
    /// `Transfer-Encoding: chunked`
    Chunked,
}

/// Typed rejection of a header that must go through its dedicated path.
#[derive(Clone, Copy, Debug, PartialEq, Eq, Structural)]
pub enum HeaderError {
    /// `Content-Length` must be set with `add_length`
    ContentLength,
    /// `Transfer-Encoding` must be set with `add_chunked`
    TransferEncoding,
    /// `Connection` is managed by the encoder itself
    Connection,
    /// A second `Content-Length` (or one after chunked)
    DuplicateContentLength,
    /// A second `Transfer-Encoding` (or one after a length)
    DuplicateTransferEncoding,
}

/// One item the encoder emitted, in order of emission.
pub enum EncEvent {
    /// `HTTP/1.1 100 Continue` plus the blank line
    Continue100,
    /// The status line
    StatusLine { version: Version, code: u16, reason: Seq<u8> },
    /// The request line of a client-side message
    RequestLine { method: Seq<u8>, target: Seq<u8>, version: Version },
    /// An ordinary header
    Header { name: Seq<u8>, value: Seq<u8> },
    /// `Connection: close`, emitted by `done_headers`
    CloseHeader,
    /// `Content-Length: n`
    LengthHeader(u64),
    /// `Transfer-Encoding: chunked`
    ChunkedHeader,
    /// The blank line closing the headers
    EndHeaders,
    /// Raw body bytes of a fixed-length body
    BodyChunk(Seq<u8>),
    /// One non-empty chunk of a chunked body
    ChunkedChunk(Seq<u8>),
    /// The terminating zero chunk
    ZeroChunk,
}

pub open spec fn crlf() -> Seq<u8> {
    seq![13u8, 10u8]
}

pub open spec fn colon_sp() -> Seq<u8> {
    seq![58u8, 32u8]
}

pub open spec fn http10_bytes() -> Seq<u8> {
    seq![
        'H' as u8,
        'T' as u8,
        'T' as u8,
        'P' as u8,
        '/' as u8,
        '1' as u8,
        '.' as u8,
        '0' as u8,
    ]
}

pub open spec fn http11_bytes() -> Seq<u8> {
    seq![
        'H' as u8,
        'T' as u8,
        'T' as u8,
        'P' as u8,
        '/' as u8,
        '1' as u8,
        '.' as u8,
        '1' as u8,
    ]
}

pub open spec fn version_bytes(v: Version) -> Seq<u8> {
    match v {
        Version::Http10 => http10_bytes(),
        Version::Http11 => http11_bytes(),
    }
}

pub open spec fn continue_reason() -> Seq<u8> {
    seq![
        'C' as u8,
        'o' as u8,
        'n' as u8,
        't' as u8,
        'i' as u8,
        'n' as u8,
        'u' as u8,
        'e' as u8,
    ]
}

pub open spec fn connection_bytes() -> Seq<u8> {
    seq![
        'C' as u8,
        'o' as u8,
        'n' as u8,
        'n' as u8,
        'e' as u8,
        'c' as u8,
        't' as u8,
        'i' as u8,
        'o' as u8,
        'n' as u8,
    ]
}

pub open spec fn close_word() -> Seq<u8> {
    seq!['c' as u8, 'l' as u8, 'o' as u8, 's' as u8, 'e' as u8]
}

pub open spec fn content_length_bytes() -> Seq<u8> {
    seq![
        'C' as u8,
        'o' as u8,
        'n' as u8,
        't' as u8,
        'e' as u8,
        'n' as u8,
        't' as u8,
        '-' as u8,
        'L' as u8,
        'e' as u8,
        'n' as u8,
        'g' as u8,
        't' as u8,
        'h' as u8,
    ]
}

pub open spec fn transfer_encoding_bytes() -> Seq<u8> {
    seq![
        'T' as u8,
        'r' as u8,
        'a' as u8,
        'n' as u8,
        's' as u8,
        'f' as u8,
        'e' as u8,
        'r' as u8,
        '-' as u8,
        'E' as u8,
        'n' as u8,
        'c' as u8,
        'o' as u8,
        'd' as u8,
        'i' as u8,
        'n' as u8,
        'g' as u8,
    ]
}

pub open spec fn chunked_word() -> Seq<u8> {
    seq!['c' as u8, 'h' as u8, 'u' as u8, 'n' as u8, 'k' as u8, 'e' as u8, 'd' as u8]
}

/// The status line: version, code and reason, separated by spaces.
pub open spec fn status_line_bytes(v: Version, code: u16, reason: Seq<u8>) -> Seq<u8> {
    version_bytes(v) + seq![32u8] + dec_digits(code as int) + seq![32u8] + reason + crlf()
}

/// `0\r\n\r\n`: the terminating zero chunk.
pub open spec fn zero_chunk_bytes() -> Seq<u8> {
    seq![48u8, 13u8, 10u8, 13u8, 10u8]
}

/// The bytes one transcript event stands for.
pub open spec fn render(e: EncEvent) -> Seq<u8> {
    match e {
        EncEvent::Continue100 => status_line_bytes(Version::Http11, 100, continue_reason())
            + crlf(),
        EncEvent::StatusLine { version, code, reason } => status_line_bytes(version, code, reason),
        EncEvent::RequestLine { method, target, version } => method + seq![32u8] + target + seq![
            32u8,
        ] + version_bytes(version) + crlf(),
        EncEvent::Header { name, value } => name + colon_sp() + value + crlf(),
        EncEvent::CloseHeader => connection_bytes() + colon_sp() + close_word() + crlf(),
        EncEvent::LengthHeader(n) => content_length_bytes() + colon_sp() + dec_digits(n as int)
            + crlf(),
        EncEvent::ChunkedHeader => transfer_encoding_bytes() + colon_sp() + chunked_word() + crlf(),
        EncEvent::EndHeaders => crlf(),
        EncEvent::BodyChunk(d) => d,
        EncEvent::ChunkedChunk(d) => hex_digits(d.len() as int) + crlf() + d + crlf(),
        EncEvent::ZeroChunk => zero_chunk_bytes(),
    }
}

/// The bytes a whole transcript stands for.
pub open spec fn render_all(es: Seq<EncEvent>) -> Seq<u8>
    decreases es.len(),
{
    if es.len() == 0 {
        Seq::empty()
    } else {
        render_all(es.drop_last()) + render(es.last())
    }
}

/// The body bytes an event contributes to the message body.
pub open spec fn event_body(e: EncEvent) -> Seq<u8> {
    match e {
        EncEvent::BodyChunk(d) => d,
        EncEvent::ChunkedChunk(d) => d,
        _ => Seq::empty(),
    }
}

/// All body bytes of a transcript, in order.
pub open spec fn body_bytes_of(es: Seq<EncEvent>) -> Seq<u8>
    decreases es.len(),
{
    if es.len() == 0 {
        Seq::empty()
    } else {
        body_bytes_of(es.drop_last()) + event_body(es.last())
    }
}

pub open spec fn is_framing_event(e: EncEvent) -> bool {
    e is LengthHeader || e is ChunkedHeader
}

/// The body-length headers of a transcript, in order.
pub open spec fn framing_events(es: Seq<EncEvent>) -> Seq<EncEvent>
    decreases es.len(),
{
    if es.len() == 0 {
        Seq::empty()
    } else if is_framing_event(es.last()) {
        framing_events(es.drop_last()).push(es.last())
    } else {
        framing_events(es.drop_last())
    }
}

/// How many zero chunks a transcript holds.
pub open spec fn zero_count(es: Seq<EncEvent>) -> int
    decreases es.len(),
{
    if es.len() == 0 {
        0
    } else {
        zero_count(es.drop_last()) + if es.last() is ZeroChunk {
            1int
        } else {
            0int
        }
    }
}

/// How each aggregate changes when one event is appended.
proof fn lemma_push(es: Seq<EncEvent>, e: EncEvent)
    ensures
        render_all(es.push(e)) == render_all(es) + render(e),
        body_bytes_of(es.push(e)) == body_bytes_of(es) + event_body(e),
        framing_events(es.push(e)) == if is_framing_event(e) {
            framing_events(es).push(e)
        } else {
            framing_events(es)
        },
        zero_count(es.push(e)) == zero_count(es) + if e is ZeroChunk {
            1int
        } else {
            0int
        },
{
    assert(es.push(e).drop_last() =~= es);
    assert(es.push(e).last() == e);
}

fn push_crlf(buf: &mut Vec<u8>)
    ensures
        final(buf)@ == old(buf)@ + crlf(),
{
    buf.push(13);
    buf.push(10);
    proof {
        assert(final(buf)@ =~= old(buf)@ + crlf());
    }
}

fn push_colon_sp(buf: &mut Vec<u8>)
    ensures
        final(buf)@ == old(buf)@ + colon_sp(),
{
    buf.push(58);
    buf.push(32);
    proof {
        assert(final(buf)@ =~= old(buf)@ + colon_sp());
    }
}

fn push_version(buf: &mut Vec<u8>, v: Version)
    ensures
        final(buf)@ == old(buf)@ + version_bytes(v),
{
    buf.push('H' as u8);
    buf.push('T' as u8);
    buf.push('T' as u8);
    buf.push('P' as u8);
    buf.push('/' as u8);
    buf.push('1' as u8);
    buf.push('.' as u8);
    match v {
        Version::Http10 => buf.push('0' as u8),
        Version::Http11 => buf.push('1' as u8),
    }
    proof {
        assert(final(buf)@ =~= old(buf)@ + version_bytes(v));
    }
}

fn push_connection_close(buf: &mut Vec<u8>)
    ensures
        final(buf)@ == old(buf)@ + render(EncEvent::CloseHeader),
{
    buf.push('C' as u8);
    buf.push('o' as u8);
    buf.push('n' as u8);
    buf.push('n' as u8);
    buf.push('e' as u8);
    buf.push('c' as u8);
    buf.push('t' as u8);
    buf.push('i' as u8);
    buf.push('o' as u8);
    buf.push('n' as u8);
    push_colon_sp(buf);
    buf.push('c' as u8);
    buf.push('l' as u8);
    buf.push('o' as u8);
    buf.push('s' as u8);
    buf.push('e' as u8);
    push_crlf(buf);
    proof {
        assert(final(buf)@ =~= old(buf)@ + render(EncEvent::CloseHeader));
    }
}

fn push_length_header(buf: &mut Vec<u8>, n: u64)
    ensures
        final(buf)@ == old(buf)@ + render(EncEvent::LengthHeader(n)),
{
    buf.push('C' as u8);
    buf.push('o' as u8);
    buf.push('n' as u8);
    buf.push('t' as u8);
    buf.push('e' as u8);
    buf.push('n' as u8);
    buf.push('t' as u8);
    buf.push('-' as u8);
    buf.push('L' as u8);
    buf.push('e' as u8);
    buf.push('n' as u8);
    buf.push('g' as u8);
    buf.push('t' as u8);
    buf.push('h' as u8);
    push_colon_sp(buf);
    push_dec_u64(buf, n);
    push_crlf(buf);
    proof {
        assert(final(buf)@ =~= old(buf)@ + render(EncEvent::LengthHeader(n)));
    }
}

fn push_chunked_header(buf: &mut Vec<u8>)
    ensures
        final(buf)@ == old(buf)@ + render(EncEvent::ChunkedHeader),
{
    buf.push('T' as u8);
    buf.push('r' as u8);
    buf.push('a' as u8);
    buf.push('n' as u8);
    buf.push('s' as u8);
    buf.push('f' as u8);
    buf.push('e' as u8);
    buf.push('r' as u8);
    buf.push('-' as u8);
    buf.push('E' as u8);
    buf.push('n' as u8);
    buf.push('c' as u8);
    buf.push('o' as u8);
    buf.push('d' as u8);
    buf.push('i' as u8);
    buf.push('n' as u8);
    buf.push('g' as u8);
    push_colon_sp(buf);
    buf.push('c' as u8);
    buf.push('h' as u8);
    buf.push('u' as u8);
    buf.push('n' as u8);
    buf.push('k' as u8);
    buf.push('e' as u8);
    buf.push('d' as u8);
    push_crlf(buf);
    proof {
        assert(final(buf)@ =~= old(buf)@ + render(EncEvent::ChunkedHeader));
    }
}

fn push_zero_chunk(buf: &mut Vec<u8>)
    ensures
        final(buf)@ == old(buf)@ + zero_chunk_bytes(),
{
    buf.push(48);
    buf.push(13);
    buf.push(10);
    buf.push(13);
    buf.push(10);
    proof {
        assert(final(buf)@ =~= old(buf)@ + zero_chunk_bytes());
    }
}

fn push_status_line(buf: &mut Vec<u8>, v: Version, code: u16, reason: &[u8])
    ensures
        final(buf)@ == old(buf)@ + status_line_bytes(v, code, reason@),
{
    push_version(buf, v);
    buf.push(32);
    push_dec_u64(buf, code as u64);
    buf.push(32);
    buf.extend_from_slice(reason);
    push_crlf(buf);
    proof {
        assert(final(buf)@ =~= old(buf)@ + status_line_bytes(v, code, reason@));
    }
}

/// All needed to start the response of a request in a correct manner.
#[derive(Debug, Clone, Copy)]
pub struct ResponseConfig {
    /// Whether the request was a HEAD request
    pub is_head: bool,
    /// `Connection: close` in the request, or HTTP version 1.0
    pub do_close: bool,
    /// Version of the HTTP request
    pub version: Version,
}

/// The response writer handed to a codec. Its methods keep the outgoing
/// buffer a valid HTTP message; the ghost transcript records what was
/// emitted.
pub struct Encoder {
    out_buf: Vec<u8>,
    state: State,
    version: Version,
    close: bool,
    is_head: bool,
    code: u16,
    framing: Framing,
    events: Ghost<Seq<EncEvent>>,
    base: Ghost<Seq<u8>>,
}

/// Returned by `Encoder::done`: the continuation carrying the write
/// buffer back to the connection.
pub struct EncoderDone {
    buf: Vec<u8>,
}

impl EncoderDone {
    /// The bytes of the write buffer, message included.
    pub closed spec fn bytes(self) -> Seq<u8> {
        self.buf@
    }
}

/// Takes the write buffer back out of the continuation.
pub fn get_inner(e: EncoderDone) -> (r: Vec<u8>)
    ensures
        r@ == e.bytes(),
{
    e.buf
}

impl Encoder {
    /// Everything emitted so far, as bytes in the buffer.
    pub closed spec fn out(self) -> Seq<u8> {
        self.out_buf@
    }

    /// The buffer contents the encoder started from.
    pub closed spec fn base_of(self) -> Seq<u8> {
        self.base@
    }

    /// The ghost transcript of emitted items.
    pub closed spec fn transcript(self) -> Seq<EncEvent> {
        self.events@
    }

    pub closed spec fn state_of(self) -> State {
        self.state
    }

    pub closed spec fn framing_of(self) -> Framing {
        self.framing
    }

    pub closed spec fn head_of(self) -> bool {
        self.is_head
    }

    pub closed spec fn close_of(self) -> bool {
        self.close
    }

    pub closed spec fn version_of(self) -> Version {
        self.version
    }

    pub closed spec fn code_of(self) -> u16 {
        self.code
    }

    /// Well-formedness: the buffer equals the base plus the rendered
    /// transcript, and the transcript obeys the protocol laws.
    pub closed spec fn wf(self) -> bool {
        &&& self.out_buf@ == self.base@ + render_all(self.events@)
        &&& framing_events(self.events@) == match self.framing {
            Framing::Unset => Seq::<EncEvent>::empty(),
            Framing::Fixed { total, written } => seq![EncEvent::LengthHeader(total)],
            Framing::Chunked => seq![EncEvent::ChunkedHeader],
        }
        &&& match self.framing {
            Framing::Fixed { total, written } => body_bytes_of(self.events@).len() == written
                && written <= total,
            _ => true,
        }
        &&& (self.is_head ==> body_bytes_of(self.events@).len() == 0)
        &&& (self.state is Start || self.state is Headers ==> body_bytes_of(self.events@).len()
            == 0)
        &&& (!(self.state is Finished) ==> zero_count(self.events@) == 0)
        &&& (self.state is Start ==> self.framing is Unset)
    }

    /// A new encoder around the connection's write buffer.
    pub fn new(out_buf: Vec<u8>, cfg: ResponseConfig) -> (e: Encoder)
        ensures
            e.wf(),
            e.state_of() is Start,
            e.transcript() == Seq::<EncEvent>::empty(),
            e.out() == out_buf@,
            e.base_of() == out_buf@,
            e.head_of() == cfg.is_head,
            e.close_of() == (cfg.do_close || cfg.version is Http10),
            e.version_of() == cfg.version,
            e.framing_of() is Unset,
    {
        let do_close = cfg.do_close || match cfg.version {
            Version::Http10 => true,
            Version::Http11 => false,
        };
        let ghost b = out_buf@;
        let e = Encoder {
            out_buf,
            state: State::Start,
            version: cfg.version,
            close: do_close,
            is_head: cfg.is_head,
            code: 0,
            framing: Framing::Unset,
            events: Ghost(Seq::empty()),
            base: Ghost(b),
        };
        proof {
            assert(e.out_buf@ =~= e.base@ + render_all(e.events@));
        }
        e
    }

    /// Returns true once the status line has been written.
    pub fn is_started(&self) -> (r: bool)
        ensures
            r == !(self.state_of() is Start),
    {
        !matches!(self.state, State::Start)
    }

    /// Returns true once `done` has been called.
    pub fn is_complete(&self) -> (r: bool)
        ensures
            r == (self.state_of() is Finished),
    {
        matches!(self.state, State::Finished)
    }

    /// Writes a 100 (Continue) interim response; the message state does
    /// not advance.
    pub fn response_continue(&mut self)
        requires
            old(self).wf(),
            old(self).state_of() is Start,
        ensures
            final(self).wf(),
            final(self).state_of() is Start,
            final(self).transcript() == old(self).transcript().push(EncEvent::Continue100),
            final(self).out() == old(self).out() + render(EncEvent::Continue100),
            final(self).framing_of() == old(self).framing_of(),
            final(self).head_of() == old(self).head_of(),
            final(self).close_of() == old(self).close_of(),
            final(self).version_of() == old(self).version_of(),
            final(self).base_of() == old(self).base_of(),
    {
        push_version(&mut self.out_buf, Version::Http11);
        self.out_buf.push(32);
        push_dec_u64(&mut self.out_buf, 100);
        self.out_buf.push(32);
        self.out_buf.push('C' as u8);
        self.out_buf.push('o' as u8);
        self.out_buf.push('n' as u8);
        self.out_buf.push('t' as u8);
        self.out_buf.push('i' as u8);
        self.out_buf.push('n' as u8);
        self.out_buf.push('u' as u8);
        self.out_buf.push('e' as u8);
        push_crlf(&mut self.out_buf);
        push_crlf(&mut self.out_buf);
        proof {
            assert(self.out_buf@ =~= old(self).out() + render(EncEvent::Continue100));
            lemma_push(self.events@, EncEvent::Continue100);
        }
        self.events = Ghost(self.events@.push(EncEvent::Continue100));
        proof {
            assert(self.out_buf@ =~= self.base@ + render_all(self.events@));
        }
    }

    /// Writes the status line. 100 is not allowed as a final status.
    pub fn custom_status(&mut self, code: u16, reason: &[u8])
        requires
            old(self).wf(),
            old(self).state_of() is Start,
            code != 100,
        ensures
            final(self).wf(),
            final(self).state_of() is Headers,
            final(self).transcript() == old(self).transcript().push(
                EncEvent::StatusLine {
                    version: old(self).version_of(),
                    code,
                    reason: reason@,
                },
            ),
            final(self).out() == old(self).out() + status_line_bytes(
                old(self).version_of(),
                code,
                reason@,
            ),
            final(self).code_of() == code,
            final(self).framing_of() == old(self).framing_of(),
            final(self).head_of() == old(self).head_of(),
            final(self).close_of() == old(self).close_of(),
            final(self).version_of() == old(self).version_of(),
            final(self).base_of() == old(self).base_of(),
    {
        push_status_line(&mut self.out_buf, self.version, code, reason);
        let ghost ev = EncEvent::StatusLine { version: self.version, code, reason: reason@ };
        proof {
            lemma_push(self.events@, ev);
        }
        self.events = Ghost(self.events@.push(ev));
        self.code = code;
        self.state = State::Headers;
        proof {
            assert(self.out_buf@ =~= self.base@ + render_all(self.events@));
        }
    }

    /// Writes the request line of a client-side message: the mirror of
    /// `custom_status`, with the same header and body discipline after it.
    pub fn request_line(&mut self, method: &[u8], target: &[u8])
        requires
            old(self).wf(),
            old(self).state_of() is Start,
        ensures
            final(self).wf(),
            final(self).state_of() is Headers,
            final(self).transcript() == old(self).transcript().push(
                EncEvent::RequestLine {
                    method: method@,
                    target: target@,
                    version: old(self).version_of(),
                },
            ),
            final(self).out() == old(self).out() + render(
                EncEvent::RequestLine {
                    method: method@,
                    target: target@,
                    version: old(self).version_of(),
                },
            ),
            final(self).code_of() == old(self).code_of(),
            final(self).framing_of() == old(self).framing_of(),
            final(self).head_of() == old(self).head_of(),
            final(self).close_of() == old(self).close_of(),
            final(self).version_of() == old(self).version_of(),
            final(self).base_of() == old(self).base_of(),
    {
        self.out_buf.extend_from_slice(method);
        self.out_buf.push(32);
        self.out_buf.extend_from_slice(target);
        self.out_buf.push(32);
        push_version(&mut self.out_buf, self.version);
        push_crlf(&mut self.out_buf);
        let ghost ev = EncEvent::RequestLine {
            method: method@,
            target: target@,
            version: self.version,
        };
        proof {
            assert(self.out_buf@ =~= old(self).out() + render(ev));
            lemma_push(self.events@, ev);
        }
        self.events = Ghost(self.events@.push(ev));
        self.state = State::Headers;
        proof {
            assert(self.out_buf@ =~= self.base@ + render_all(self.events@));
        }
    }

    /// Adds an ordinary header. `Content-Length`, `Transfer-Encoding` and
    /// `Connection` are rejected: they go through their typed paths.
    pub fn add_header(&mut self, name: &[u8], value: &[u8]) -> (r: Result<(), HeaderError>)
        requires
            old(self).wf(),
            old(self).state_of() is Headers,
        ensures
            final(self).wf(),
            final(self).state_of() is Headers,
            final(self).framing_of() == old(self).framing_of(),
            final(self).head_of() == old(self).head_of(),
            final(self).close_of() == old(self).close_of(),
            final(self).version_of() == old(self).version_of(),
            final(self).code_of() == old(self).code_of(),
            final(self).base_of() == old(self).base_of(),
            match r {
                Result::Ok(()) => {
                    &&& lower_seq(name@) != lower_seq(content_length_bytes())
                    &&& lower_seq(name@) != lower_seq(transfer_encoding_bytes())
                    &&& lower_seq(name@) != lower_seq(connection_bytes())
                    &&& final(self).transcript() == old(self).transcript().push(
                        EncEvent::Header { name: name@, value: value@ },
                    )
                    &&& final(self).out() == old(self).out() + render(
                        EncEvent::Header { name: name@, value: value@ },
                    )
                },
                Result::Err(e) => final(self).transcript() == old(self).transcript()
                    && final(self).out() == old(self).out() && match e {
                    HeaderError::ContentLength => lower_seq(name@) == lower_seq(
                        content_length_bytes(),
                    ),
                    HeaderError::TransferEncoding => lower_seq(name@) == lower_seq(
                        transfer_encoding_bytes(),
                    ),
                    HeaderError::Connection => lower_seq(name@) == lower_seq(connection_bytes()),
                    _ => false,
                },
            },
    {
        proof {
            reveal_strlit("content-length");
            reveal_strlit("transfer-encoding");
            reveal_strlit("connection");
            assert(vstd::string::is_ascii("content-length"));
            assert(vstd::string::is_ascii("transfer-encoding"));
            assert(vstd::string::is_ascii("connection"));
            assert(ascii_bytes("content-length"@) =~= lower_seq(content_length_bytes()));
            assert(ascii_bytes("transfer-encoding"@) =~= lower_seq(transfer_encoding_bytes()));
            assert(ascii_bytes("connection"@) =~= lower_seq(connection_bytes()));
        }
        if eq_lower(name, str_bytes("content-length")) {
            return Result::Err(HeaderError::ContentLength);
        }
        if eq_lower(name, str_bytes("transfer-encoding")) {
            return Result::Err(HeaderError::TransferEncoding);
        }
        if eq_lower(name, str_bytes("connection")) {
            return Result::Err(HeaderError::Connection);
        }
        self.out_buf.extend_from_slice(name);
        push_colon_sp(&mut self.out_buf);
        self.out_buf.extend_from_slice(value);
        push_crlf(&mut self.out_buf);
        let ghost ev = EncEvent::Header { name: name@, value: value@ };
        proof {
            assert(self.out_buf@ =~= old(self).out() + render(ev));
            lemma_push(self.events@, ev);
        }
        self.events = Ghost(self.events@.push(ev));
        proof {
            assert(self.out_buf@ =~= self.base@ + render_all(self.events@));
        }
        Result::Ok(())
    }

    /// Adds `Content-Length: n` and fixes the framing, unless a length or
    /// chunked framing was already set.
    pub fn add_length(&mut self, n: u64) -> (r: Result<(), HeaderError>)
        requires
            old(self).wf(),
            old(self).state_of() is Headers,
        ensures
            final(self).wf(),
            final(self).state_of() is Headers,
            final(self).head_of() == old(self).head_of(),
            final(self).close_of() == old(self).close_of(),
            final(self).version_of() == old(self).version_of(),
            final(self).code_of() == old(self).code_of(),
            final(self).base_of() == old(self).base_of(),
            match r {
                Result::Ok(()) => {
                    &&& old(self).framing_of() is Unset
                    &&& final(self).framing_of() == (Framing::Fixed { total: n, written: 0 })
                    &&& final(self).transcript() == old(self).transcript().push(
                        EncEvent::LengthHeader(n),
                    )
                    &&& final(self).out() == old(self).out() + render(EncEvent::LengthHeader(n))
                },
                Result::Err(e) => {
                    &&& e == HeaderError::DuplicateContentLength
                    &&& !(old(self).framing_of() is Unset)
                    &&& *final(self) == *old(self)
                },
            },
    {
        match self.framing {
            Framing::Unset => {},
            _ => {
                return Result::Err(HeaderError::DuplicateContentLength);
            },
        }
        push_length_header(&mut self.out_buf, n);
        let ghost ev = EncEvent::LengthHeader(n);
        proof {
            lemma_push(self.events@, ev);
        }
        self.events = Ghost(self.events@.push(ev));
        self.framing = Framing::Fixed { total: n, written: 0 };
        proof {
            assert(self.out_buf@ =~= self.base@ + render_all(self.events@));
            assert(framing_events(self.events@) =~= seq![EncEvent::LengthHeader(n)]);
        }
        Result::Ok(())
    }

    /// Adds `Transfer-Encoding: chunked` and fixes the framing, unless a
    /// length or chunked framing was already set.
    pub fn add_chunked(&mut self) -> (r: Result<(), HeaderError>)
        requires
            old(self).wf(),
            old(self).state_of() is Headers,
        ensures
            final(self).wf(),
            final(self).state_of() is Headers,
            final(self).head_of() == old(self).head_of(),
            final(self).close_of() == old(self).close_of(),
            final(self).version_of() == old(self).version_of(),
            final(self).code_of() == old(self).code_of(),
            final(self).base_of() == old(self).base_of(),
            match r {
                Result::Ok(()) => {
                    &&& old(self).framing_of() is Unset
                    &&& final(self).framing_of() is Chunked
                    &&& final(self).transcript() == old(self).transcript().push(
                        EncEvent::ChunkedHeader,
                    )
                    &&& final(self).out() == old(self).out() + render(EncEvent::ChunkedHeader)
                },
                Result::Err(e) => {
                    &&& e == HeaderError::DuplicateTransferEncoding
                    &&& !(old(self).framing_of() is Unset)
                    &&& *final(self) == *old(self)
                },
            },
    {
        match self.framing {
            Framing::Unset => {},
            _ => {
                return Result::Err(HeaderError::DuplicateTransferEncoding);
            },
        }
        push_chunked_header(&mut self.out_buf);
        let ghost ev = EncEvent::ChunkedHeader;
        proof {
            lemma_push(self.events@, ev);
        }
        self.events = Ghost(self.events@.push(ev));
        self.framing = Framing::Chunked;
        proof {
            assert(self.out_buf@ =~= self.base@ + render_all(self.events@));
            assert(framing_events(self.events@) =~= seq![EncEvent::ChunkedHeader]);
        }
        Result::Ok(())
    }

    /// Closes the header section. Emits `Connection: close` first when the
    /// connection is marked to close and the protocol needs the header
    /// (HTTP/1.1). Returns whether an entity body is expected: false for
    /// 1xx, 204 and 304 statuses and for HEAD requests.
    pub fn done_headers(&mut self) -> (r: bool)
        requires
            old(self).wf(),
            old(self).state_of() is Headers,
        ensures
            final(self).wf(),
            final(self).state_of() is Body,
            final(self).framing_of() == old(self).framing_of(),
            final(self).head_of() == old(self).head_of(),
            final(self).close_of() == old(self).close_of(),
            final(self).version_of() == old(self).version_of(),
            final(self).code_of() == old(self).code_of(),
            final(self).base_of() == old(self).base_of(),
            r == !(old(self).head_of() || (100 <= old(self).code_of() <= 199)
                || old(self).code_of() == 204 || old(self).code_of() == 304),
            final(self).transcript() == if old(self).close_of() && old(self).version_of()
                is Http11 {
                old(self).transcript().push(EncEvent::CloseHeader).push(EncEvent::EndHeaders)
            } else {
                old(self).transcript().push(EncEvent::EndHeaders)
            },
            final(self).out() == if old(self).close_of() && old(self).version_of() is Http11 {
                old(self).out() + render(EncEvent::CloseHeader) + crlf()
            } else {
                old(self).out() + crlf()
            },
    {
        let emit_close = self.close && match self.version {
            Version::Http11 => true,
            Version::Http10 => false,
        };
        if emit_close {
            push_connection_close(&mut self.out_buf);
            proof {
                lemma_push(self.events@, EncEvent::CloseHeader);
            }
            self.events = Ghost(self.events@.push(EncEvent::CloseHeader));
        }
        push_crlf(&mut self.out_buf);
        proof {
            lemma_push(self.events@, EncEvent::EndHeaders);
        }
        self.events = Ghost(self.events@.push(EncEvent::EndHeaders));
        self.state = State::Body;
        let body_expected = !(self.is_head || (100 <= self.code && self.code <= 199) || self.code
            == 204 || self.code == 304);
        proof {
            assert(self.out_buf@ =~= self.base@ + render_all(self.events@));
        }
        body_expected
    }

    /// Writes a chunk of the message body. For a fixed-length body the
    /// bytes go out as they are and the running count may not pass the
    /// declared length; for a chunked body a non-empty chunk is framed by
    /// its hexadecimal size (empty chunks are dropped); for a HEAD
    /// response nothing is emitted at all.
    pub fn write_body(&mut self, data: &[u8])
        requires
            old(self).wf(),
            old(self).state_of() is Body,
            old(self).head_of() || !(old(self).framing_of() is Unset),
            !old(self).head_of() ==> match old(self).framing_of() {
                Framing::Fixed { total, written } => written + data@.len() <= total,
                _ => true,
            },
        ensures
            final(self).wf(),
            final(self).state_of() is Body,
            final(self).head_of() == old(self).head_of(),
            final(self).close_of() == old(self).close_of(),
            final(self).version_of() == old(self).version_of(),
            final(self).code_of() == old(self).code_of(),
            final(self).base_of() == old(self).base_of(),
            old(self).head_of() ==> *final(self) == *old(self),
            !old(self).head_of() ==> match old(self).framing_of() {
                Framing::Fixed { total, written } => {
                    &&& final(self).framing_of() == (Framing::Fixed {
                        total,
                        written: (written + data@.len()) as u64,
                    })
                    &&& final(self).transcript() == old(self).transcript().push(
                        EncEvent::BodyChunk(data@),
                    )
                    &&& final(self).out() == old(self).out() + data@
                },
                Framing::Chunked => {
                    &&& final(self).framing_of() is Chunked
                    &&& if data@.len() == 0 {
                        *final(self) == *old(self)
                    } else {
                        final(self).transcript() == old(self).transcript().push(
                            EncEvent::ChunkedChunk(data@),
                        ) && final(self).out() == old(self).out() + render(
                            EncEvent::ChunkedChunk(data@),
                        )
                    }
                },
                Framing::Unset => false,
            },
    {
        if self.is_head {
            return ;
        }
        match self.framing {
            Framing::Fixed { total, written } => {
                self.out_buf.extend_from_slice(data);
                let ghost ev = EncEvent::BodyChunk(data@);
                proof {
                    lemma_push(self.events@, ev);
                }
                self.events = Ghost(self.events@.push(ev));
                self.framing = Framing::Fixed { total, written: written + data.len() as u64 };
                proof {
                    assert(self.out_buf@ =~= self.base@ + render_all(self.events@));
                }
            },
            Framing::Chunked => {
                if data.len() > 0 {
                    push_hex_u64(&mut self.out_buf, data.len() as u64);
                    push_crlf(&mut self.out_buf);
                    self.out_buf.extend_from_slice(data);
                    push_crlf(&mut self.out_buf);
                    let ghost ev = EncEvent::ChunkedChunk(data@);
                    proof {
                        assert(self.out_buf@ =~= old(self).out() + render(ev));
                        lemma_push(self.events@, ev);
                    }
                    self.events = Ghost(self.events@.push(ev));
                    proof {
                        assert(self.out_buf@ =~= self.base@ + render_all(self.events@));
                    }
                }
            },
            Framing::Unset => {
                proof {
                    assert(false);
                }
            },
        }
    }

    /// Writes the finalization bytes and hands the buffer back. For a
    /// fixed-length body every declared byte must have been written; for
    /// a chunked body the terminating zero chunk goes out here, exactly
    /// once (the transcript held none before).
    pub fn done(self) -> (r: EncoderDone)
        requires
            self.wf(),
            self.state_of() is Body,
            self.head_of() || match self.framing_of() {
                Framing::Fixed { total, written } => written == total,
                _ => true,
            },
        ensures
            ({
                let chunked_tail = !self.head_of() && self.framing_of() is Chunked;
                &&& r.bytes() == if chunked_tail {
                    self.out() + zero_chunk_bytes()
                } else {
                    self.out()
                }
                &&& zero_count(self.transcript()) == 0
                &&& (chunked_tail ==> zero_count(self.transcript().push(EncEvent::ZeroChunk))
                    == 1)
                &&& (!self.head_of() ==> match self.framing_of() {
                    Framing::Fixed { total, written } => body_bytes_of(self.transcript()).len()
                        == total,
                    _ => true,
                })
                &&& (self.head_of() ==> body_bytes_of(self.transcript()).len() == 0)
            }),
    {
        let mut this = self;
        let emit_zero = !this.is_head && matches!(this.framing, Framing::Chunked);
        if emit_zero {
            push_zero_chunk(&mut this.out_buf);
            proof {
                lemma_push(this.events@, EncEvent::ZeroChunk);
            }
        }
        EncoderDone { buf: this.out_buf }
    }
}

/// At most one body-length header is ever emitted: never both a
/// `Content-Length` and a `Transfer-Encoding: chunked`, and never two of
/// either.
pub proof fn lemma_single_framing_header(e: &Encoder)
    requires
        e.wf(),
    ensures
        framing_events(e.transcript()).len() <= 1,
        (e.framing_of() is Unset <==> framing_events(e.transcript()).len() == 0),
        (e.framing_of() matches Framing::Fixed { total, written } ==> framing_events(
            e.transcript(),
        ) == seq![EncEvent::LengthHeader(total)]),
        (e.framing_of() is Chunked ==> framing_events(e.transcript()) == seq![
            EncEvent::ChunkedHeader,
        ]),
{
}

/// A HEAD response carries no body bytes, no matter how much body was
/// written to the encoder.
pub proof fn lemma_head_suppresses_body(e: &Encoder)
    requires
        e.wf(),
        e.head_of(),
    ensures
        body_bytes_of(e.transcript()).len() == 0,
{
}

} // verus!
