//! Tests of the connection pipeline engine.

use tk_http::proto::{Proto, Enqueue, ReadEvent, OutState, InState, Error};

#[test]
fn s2_pipelining_preserves_order() {
    let mut p = Proto::new(128);
    let mut ids = Vec::new();
    for _ in 0..3 {
        match p.start_send(true) {
            Enqueue::Accepted(id) => ids.push(id),
            Enqueue::Backpressure => panic!("unexpected backpressure"),
        }
    }
    assert_eq!(ids, vec![0, 1, 2]);
    let mut served = Vec::new();
    // first tick turns the reader to the oldest exchange
    let first = p.poll_complete(false, ReadEvent::NotReady).unwrap().unwrap();
    served.push(first);
    // each finished response turns the reader to the next exchange
    for _ in 0..2 {
        if let Some(id) = p.poll_complete(false, ReadEvent::ResponseDone).unwrap() {
            served.push(id);
        }
    }
    assert_eq!(served, ids);
    assert!(p.poll_complete(false, ReadEvent::ResponseDone).unwrap().is_none());
    assert!(p.is_clean_eof());
}

#[test]
fn writer_busy_gives_backpressure() {
    let mut p = Proto::new(128);
    assert!(matches!(p.start_send(false), Enqueue::Accepted(0)));
    assert_eq!(p.writing, OutState::Write);
    assert!(matches!(p.start_send(true), Enqueue::Backpressure));
    // the write future completes; the next enqueue goes through
    p.poll_complete(true, ReadEvent::NotReady).unwrap();
    assert_eq!(p.writing, OutState::Idle);
    assert!(matches!(p.start_send(true), Enqueue::Accepted(1)));
}

#[test]
fn close_stops_new_exchanges() {
    let mut p = Proto::new(128);
    p.set_close();
    assert!(matches!(p.start_send(true), Enqueue::Backpressure));
}

#[test]
fn queue_bound_gives_backpressure() {
    let mut p = Proto::new(1);
    assert!(matches!(p.start_send(true), Enqueue::Accepted(0)));
    assert!(matches!(p.start_send(true), Enqueue::Backpressure));
}

#[test]
fn peer_close_mid_exchange_is_fatal() {
    let mut p = Proto::new(128);
    assert!(matches!(p.start_send(true), Enqueue::Accepted(0)));
    let turned = p.poll_complete(false, ReadEvent::NotReady).unwrap();
    assert_eq!(turned, Some(0));
    assert_eq!(p.reading, InState::Read(0));
    assert!(!p.is_clean_eof());
    assert_eq!(p.poll_complete(false, ReadEvent::PeerClosed), Err(Error::Closed));
}

#[test]
fn idle_connection_close_is_clean() {
    let mut p = Proto::new(128);
    assert!(p.is_clean_eof());
    assert!(p.poll_complete(false, ReadEvent::NotReady).unwrap().is_none());
    assert!(p.is_clean_eof());
}
