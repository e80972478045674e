//! HTTP/1.x protocol engine with WebSocket support: header scanning,
//! message serialization, frame codec and connection pipelining.

pub mod body_parser;
pub mod encoder;
pub mod enums;
pub mod headers;
pub mod proto;
pub mod request_target;
pub mod util;
pub mod websocket;
pub mod zero_copy;
