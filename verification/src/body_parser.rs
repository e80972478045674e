//! The body parser: consumes the bytes of a fixed-length or chunked
//! request body and says which of them are payload, until the body ends.

use vstd::prelude::*;
use crate::headers::BodyKind;
use crate::util::{find_crlf, find_crlf_at, all_hex_digits, hex_val, parse_u64_hex};

verus! {

/// Where the parser stands inside the body.
#[derive(Clone, Copy, Debug, PartialEq, Eq, Structural)]
pub enum BodyState {
    /// This many payload bytes are still owed
    Fixed { remaining: u64 },
    /// Expecting a chunk-size line
    ChunkHeader,
    /// Inside a chunk, this many payload bytes still owed
    ChunkData { remaining: u64 },
    /// Expecting the CRLF that closes a chunk
    ChunkCrlf,
    /// After the zero chunk: trailer lines until an empty one
    Trailers,
    /// The body is fully consumed
    BodyDone,
}

/// A malformed body.
#[derive(Clone, Copy, Debug, PartialEq, Eq, Structural)]
pub enum BodyError {
    /// The chunk-size line is not a hexadecimal number
    BadChunkSize,
    /// A chunk is not followed by CRLF
    BadChunkEnd,
}

/// Consumes body bytes as the framing of one request dictates.
pub struct BodyParser {
    pub state: BodyState,
}

impl BodyParser {
    /// A parser for the given framing. A CONNECT body is never read, so
    /// it counts as already done.
    pub fn new(kind: BodyKind) -> (p: BodyParser)
        ensures
            p.state == match kind {
                BodyKind::Fixed(n) => BodyState::Fixed { remaining: n },
                BodyKind::Chunked => BodyState::ChunkHeader,
                BodyKind::Unsupported => BodyState::BodyDone,
            },
    {
        BodyParser {
            state: match kind {
                BodyKind::Fixed(n) => BodyState::Fixed { remaining: n },
                BodyKind::Chunked => BodyState::ChunkHeader,
                BodyKind::Unsupported => BodyState::BodyDone,
            },
        }
    }

    /// True when the whole body has been consumed.
    pub fn is_done(&self) -> (r: bool)
        ensures
            r == (self.state == BodyState::BodyDone || self.state == (BodyState::Fixed {
                remaining: 0,
            })),
    {
        match self.state {
            BodyState::BodyDone => true,
            BodyState::Fixed { remaining } => remaining == 0,
            _ => false,
        }
    }

    /// One parsing step over the front of `buf`. Returns `(consumed,
    /// payload)`: the parser is finished with the first `consumed` bytes,
    /// of which the first `payload` are body payload for the codec. A
    /// step consuming nothing needs more input. The caller drains
    /// `consumed` bytes and repeats until `is_done` (or until a step
    /// consumed nothing and no further input can come).
    pub fn step(&mut self, buf: &[u8]) -> (r: Result<(usize, usize), BodyError>)
        requires
            old(self).state != BodyState::BodyDone,
        ensures
            match r {
                Result::Ok((consumed, payload)) => payload <= consumed <= buf@.len() && match old(
                    self,
                ).state {
                    BodyState::Fixed { remaining } => {
                        &&& consumed == vstd::math::min(remaining as int, buf@.len() as int)
                        &&& payload == consumed
                        &&& final(self).state == (BodyState::Fixed {
                            remaining: (remaining - consumed) as u64,
                        })
                    },
                    BodyState::ChunkHeader => {
                        let k = find_crlf(buf@);
                        if k < 0 {
                            consumed == 0 && payload == 0 && final(self).state
                                == BodyState::ChunkHeader
                        } else {
                            let line = buf@.subrange(0, k);
                            &&& line.len() > 0
                            &&& all_hex_digits(line)
                            &&& hex_val(line) <= u64::MAX
                            &&& consumed == k + 2
                            &&& payload == 0
                            &&& final(self).state == (if hex_val(line) == 0 {
                                BodyState::Trailers
                            } else {
                                BodyState::ChunkData { remaining: hex_val(line) as u64 }
                            })
                        }
                    },
                    BodyState::ChunkData { remaining } => {
                        &&& consumed == vstd::math::min(remaining as int, buf@.len() as int)
                        &&& payload == consumed
                        &&& final(self).state == (if remaining - consumed == 0 {
                            BodyState::ChunkCrlf
                        } else {
                            BodyState::ChunkData { remaining: (remaining - consumed) as u64 }
                        })
                    },
                    BodyState::ChunkCrlf => {
                        if buf@.len() < 2 {
                            consumed == 0 && payload == 0 && final(self).state
                                == BodyState::ChunkCrlf
                        } else {
                            buf@[0] == 13 && buf@[1] == 10 && consumed == 2 && payload == 0
                                && final(self).state == BodyState::ChunkHeader
                        }
                    },
                    BodyState::Trailers => {
                        let k = find_crlf(buf@);
                        if k < 0 {
                            consumed == 0 && payload == 0 && final(self).state
                                == BodyState::Trailers
                        } else if k == 0 {
                            consumed == 2 && payload == 0 && final(self).state
                                == BodyState::BodyDone
                        } else {
                            consumed == k + 2 && payload == 0 && final(self).state
                                == BodyState::Trailers
                        }
                    },
                    BodyState::BodyDone => false,
                },
                Result::Err(e) => match e {
                    BodyError::BadChunkSize => old(self).state == BodyState::ChunkHeader && ({
                        let k = find_crlf(buf@);
                        k >= 0 && (buf@.subrange(0, k).len() == 0 || !all_hex_digits(
                            buf@.subrange(0, k),
                        ) || hex_val(buf@.subrange(0, k)) > u64::MAX)
                    }),
                    BodyError::BadChunkEnd => old(self).state == BodyState::ChunkCrlf
                        && buf@.len() >= 2 && !(buf@[0] == 13 && buf@[1] == 10),
                },
            },
    {
        let blen = buf.len();
        match self.state {
            BodyState::Fixed { remaining } => {
                let take: usize = if (blen as u64) < remaining {
                    blen
                } else {
                    remaining as usize
                };
                self.state = BodyState::Fixed { remaining: remaining - take as u64 };
                Result::Ok((take, take))
            },
            BodyState::ChunkData { remaining } => {
                let take: usize = if (blen as u64) < remaining {
                    blen
                } else {
                    remaining as usize
                };
                let left = remaining - take as u64;
                self.state = if left == 0 {
                    BodyState::ChunkCrlf
                } else {
                    BodyState::ChunkData { remaining: left }
                };
                Result::Ok((take, take))
            },
            BodyState::ChunkHeader => {
                match find_crlf_at(buf) {
                    None => Result::Ok((0, 0)),
                    Some(k) => {
                        proof {
                            crate::util::lemma_find_crlf(buf@);
                        }
                        let line = &buf[0..k];
                        match parse_u64_hex(line) {
                            None => Result::Err(BodyError::BadChunkSize),
                            Some(size) => {
                                self.state = if size == 0 {
                                    BodyState::Trailers
                                } else {
                                    BodyState::ChunkData { remaining: size }
                                };
                                Result::Ok((k + 2, 0))
                            },
                        }
                    },
                }
            },
            BodyState::ChunkCrlf => {
                if blen < 2 {
                    Result::Ok((0, 0))
                } else if buf[0] == 13 && buf[1] == 10 {
                    self.state = BodyState::ChunkHeader;
                    Result::Ok((2, 0))
                } else {
                    Result::Err(BodyError::BadChunkEnd)
                }
            },
            BodyState::Trailers => {
                match find_crlf_at(buf) {
                    None => Result::Ok((0, 0)),
                    Some(k) => {
                        proof {
                            crate::util::lemma_find_crlf(buf@);
                        }
                        if k == 0 {
                            self.state = BodyState::BodyDone;
                            Result::Ok((2, 0))
                        } else {
                            Result::Ok((k + 2, 0))
                        }
                    },
                }
            },
            BodyState::BodyDone => {
                proof {
                    assert(false);
                }
                Result::Ok((0, 0))
            },
        }
    }
}

} // verus!
