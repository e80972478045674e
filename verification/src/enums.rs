use vstd::prelude::*;

verus! {

/// HTTP protocol version of a request or response.
#[derive(Clone, Copy, Debug, PartialEq, Eq, Structural)]
pub enum Version {
    Http10,
    Http11,
}

} // verus!
