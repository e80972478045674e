//! The connection pipeline engine, as a state machine over plain values.
//!
//! One instance runs one connection. The surrounding runtime performs the
//! I/O and the polling of encoder futures; it reports what happened as
//! events, and this machine decides what to do next. Responses are
//! matched to exchanges strictly in the order the exchanges were
//! enqueued; the ghost `enqueued` and `delivered` sequences record both
//! orders, and well-formedness ties them together.

use vstd::prelude::*;

verus! {

/// State of the write half: the buffer is free, or an encoder future is
/// being driven to completion.
#[derive(Clone, Copy, Debug, PartialEq, Eq, Structural)]
pub enum OutState {
    Idle,
    Write,
}

/// State of the read half: waiting for work, or parsing the response of
/// the exchange with the given handle.
#[derive(Clone, Copy, Debug, PartialEq, Eq, Structural)]
pub enum InState {
    Idle,
    Read(u64),
}

/// A connection-fatal fault.
#[derive(Clone, Copy, Debug, PartialEq, Eq, Structural)]
pub enum Error {
    /// The peer closed while an exchange was in flight
    Closed,
    /// The stream failed
    Io,
    /// A user encoder future failed; the stream state is unknown
    CustomEncoder,
}

/// The answer to an enqueue attempt.
#[derive(Clone, Copy, Debug, PartialEq, Eq, Structural)]
pub enum Enqueue {
    /// The exchange was accepted under this handle
    Accepted(u64),
    /// The writer is busy, the queue is full, or the connection closes
    Backpressure,
}

/// What the runtime observed on the read half this tick.
#[derive(Clone, Copy, Debug, PartialEq, Eq, Structural)]
pub enum ReadEvent {
    /// Nothing new
    NotReady,
    /// The current response was fully parsed and handed to its exchange
    ResponseDone,
    /// The peer closed the stream
    PeerClosed,
}

/// The ids an in-progress read contributes to the pipeline order.
pub open spec fn reading_seq(st: InState) -> Seq<u64> {
    match st {
        InState::Idle => Seq::empty(),
        InState::Read(id) => seq![id],
    }
}

/// The per-connection pipeline engine.
pub struct Proto {
    /// State of the write half
    pub writing: OutState,
    /// Exchanges whose responses are still owed, oldest first
    pub waiting: Vec<u64>,
    /// State of the read half
    pub reading: InState,
    /// Once set, no further exchange is accepted
    pub close: bool,
    /// The next exchange handle
    pub next_id: u64,
    /// The upper bound on queued exchanges
    pub limit: usize,
    /// Every accepted exchange, in order of acceptance
    pub enqueued: Ghost<Seq<u64>>,
    /// Every delivered response, in order of delivery
    pub delivered: Ghost<Seq<u64>>,
}

impl Proto {
    /// Well-formedness: the enqueue order is exactly the delivered
    /// responses, then the response being read, then the waiting queue.
    pub open spec fn wf(self) -> bool {
        self.enqueued@ == self.delivered@ + reading_seq(self.reading) + self.waiting@
    }

    /// A fresh engine around one accepted connection.
    pub fn new(limit: usize) -> (p: Proto)
        ensures
            p.wf(),
            p.writing == OutState::Idle,
            p.reading == InState::Idle,
            p.waiting@ == Seq::<u64>::empty(),
            p.enqueued@ == Seq::<u64>::empty(),
            p.delivered@ == Seq::<u64>::empty(),
            !p.close,
            p.limit == limit,
    {
        let p = Proto {
            writing: OutState::Idle,
            waiting: Vec::new(),
            reading: InState::Idle,
            close: false,
            next_id: 0,
            limit,
            enqueued: Ghost(Seq::empty()),
            delivered: Ghost(Seq::empty()),
        };
        proof {
            assert(p.enqueued@ =~= p.delivered@ + reading_seq(p.reading) + p.waiting@);
        }
        p
    }

    /// Tries to accept one more exchange. `immediate` tells whether the
    /// exchange's request was written out on the spot (the writer then
    /// stays idle) or a write future is now in flight. Backpressure is
    /// returned while the writer is busy, when the connection is marked
    /// to close, when the queue is full, and when the handles are spent.
    pub fn start_send(&mut self, immediate: bool) -> (r: Enqueue)
        requires
            old(self).wf(),
        ensures
            final(self).wf(),
            match r {
                Enqueue::Accepted(id) => {
                    &&& old(self).writing == OutState::Idle
                    &&& !old(self).close
                    &&& old(self).waiting@.len() < old(self).limit
                    &&& id == old(self).next_id
                    &&& final(self).next_id == old(self).next_id + 1
                    &&& final(self).waiting@ == old(self).waiting@.push(id)
                    &&& final(self).enqueued@ == old(self).enqueued@.push(id)
                    &&& final(self).delivered@ == old(self).delivered@
                    &&& final(self).reading == old(self).reading
                    &&& final(self).close == old(self).close
                    &&& final(self).writing == (if immediate {
                        OutState::Idle
                    } else {
                        OutState::Write
                    })
                },
                Enqueue::Backpressure => *final(self) == *old(self) && (old(self).close || old(self).writing == OutState::Write || old(self).waiting@.len() >= old(self).limit || old(self).next_id == u64::MAX),
            },
    {
        if self.close || matches!(self.writing, OutState::Write) || self.waiting.len()
            >= self.limit || self.next_id == u64::MAX {
            return Enqueue::Backpressure;
        }
        let id = self.next_id;
        self.next_id = id + 1;
        self.waiting.push(id);
        proof {
            self.enqueued@ = self.enqueued@.push(id);
        }
        self.writing = if immediate {
            OutState::Idle
        } else {
            OutState::Write
        };
        proof {
            assert(self.enqueued@ =~= self.delivered@ + reading_seq(self.reading)
                + self.waiting@);
        }
        Enqueue::Accepted(id)
    }

    /// Advances both halves one step, given what the runtime observed:
    /// whether a pending write future completed, and what the read half
    /// produced. Returns the handle of the exchange whose response should
    /// be parsed next, when the reader just turned to one. A peer close
    /// during a response is fatal; with nothing in flight it is a clean
    /// end of the connection.
    pub fn poll_complete(&mut self, write_done: bool, read: ReadEvent) -> (r: Result<
        Option<u64>,
        Error,
    >)
        requires
            old(self).wf(),
        ensures
            final(self).wf(),
            final(self).close == old(self).close,
            final(self).enqueued@ == old(self).enqueued@,
            final(self).writing == (if old(self).writing == OutState::Write && write_done {
                OutState::Idle
            } else {
                old(self).writing
            }),
            ({
                let after_read = if old(self).reading is Read && read == ReadEvent::ResponseDone {
                    InState::Idle
                } else {
                    old(self).reading
                };
                let new_delivered = match old(self).reading {
                    InState::Read(id) => if read == ReadEvent::ResponseDone {
                        old(self).delivered@.push(id)
                    } else {
                        old(self).delivered@
                    },
                    InState::Idle => old(self).delivered@,
                };
                match r {
                    Result::Err(e) => e == Error::Closed && old(self).reading is Read && read
                        == ReadEvent::PeerClosed,
                    Result::Ok(opt) => {
                        &&& final(self).delivered@ == new_delivered
                        &&& !(old(self).reading is Read && read == ReadEvent::PeerClosed)
                        &&& match opt {
                            Option::Some(id) => after_read == InState::Idle && old(self).waiting@.len() > 0 && id == old(self).waiting@[0] && final(self).reading == InState::Read(id) && final(self).waiting@ == old(self).waiting@.subrange(1, old(self).waiting@.len() as int),
                            Option::None => final(self).reading == after_read && final(self).waiting@ == old(self).waiting@ && (after_read is Read || old(self).waiting@.len() == 0),
                        }
                    },
                }
            }),
    {
        if matches!(self.writing, OutState::Write) && write_done {
            self.writing = OutState::Idle;
        }
        match self.reading {
            InState::Read(id) => {
                match read {
                    ReadEvent::PeerClosed => {
                        return Result::Err(Error::Closed);
                    },
                    ReadEvent::ResponseDone => {
                        proof {
                            self.delivered@ = self.delivered@.push(id);
                        }
                        self.reading = InState::Idle;
                    },
                    ReadEvent::NotReady => {
                        proof {
                            assert(self.enqueued@ =~= self.delivered@ + reading_seq(self.reading)
                                + self.waiting@);
                        }
                        return Result::Ok(Option::None);
                    },
                }
            },
            InState::Idle => {},
        }
        if self.waiting.len() > 0 {
            let id = self.waiting.remove(0);
            self.reading = InState::Read(id);
            proof {
                assert(self.enqueued@ =~= self.delivered@ + reading_seq(self.reading)
                    + self.waiting@);
            }
            Result::Ok(Option::Some(id))
        } else {
            proof {
                assert(self.enqueued@ =~= self.delivered@ + reading_seq(self.reading)
                    + self.waiting@);
            }
            Result::Ok(Option::None)
        }
    }

    /// A read-side end of stream is clean exactly when no exchange is in
    /// flight: nothing being parsed and nothing waiting.
    pub fn is_clean_eof(&self) -> (r: bool)
        ensures
            r == (self.reading == InState::Idle && self.waiting@.len() == 0),
    {
        matches!(self.reading, InState::Idle) && self.waiting.len() == 0
    }

    /// Marks the connection to close after the pending work drains.
    pub fn set_close(&mut self)
        requires
            old(self).wf(),
        ensures
            final(self).wf(),
            final(self).close,
            final(self).waiting@ == old(self).waiting@,
            final(self).enqueued@ == old(self).enqueued@,
            final(self).delivered@ == old(self).delivered@,
            final(self).reading == old(self).reading,
            final(self).writing == old(self).writing,
    {
        self.close = true;
    }
}

/// Responses are delivered in exactly the order their exchanges were
/// enqueued: at every moment the delivered sequence is a prefix of the
/// enqueued sequence, and the exchange being read, then the waiting
/// queue, continue it.
pub proof fn lemma_pipeline_order(p: &Proto)
    requires
        p.wf(),
    ensures
        p.delivered@ == p.enqueued@.subrange(0, p.delivered@.len() as int),
        p.delivered@.len() + reading_seq(p.reading).len() + p.waiting@.len()
            == p.enqueued@.len(),
{
    assert(p.delivered@ =~= p.enqueued@.subrange(0, p.delivered@.len() as int));
}

} // verus!
