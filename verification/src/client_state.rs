//! What events tell of a connection.
use vstd::prelude::*;

use crate::transport::{ConnectionError, StreamId};

verus! {

/// A field of a header section.
#[derive(Debug, PartialOrd, Ord, PartialEq, Eq, Clone)]
pub struct Header {
    pub name: String,
    pub value: String,
}

/// How far a connection has come.
#[derive(Debug, PartialOrd, Ord, PartialEq, Eq, Clone)]
pub enum Http3State {
    Initializing,
    /// Early data can be sent.
    ZeroRtt,
    Connected,
    /// The peer takes no requests from this stream on.
    GoingAway(StreamId),
    Closing(ConnectionError),
    Closed(ConnectionError),
}

/// What a later connection to the same server can start from.
#[derive(Debug, PartialOrd, Ord, PartialEq, Eq, Clone)]
pub struct ResumptionToken {
    pub token: Vec<u8>,
    /// When the token expires, in nanoseconds on the clock of the endpoint.
    pub expiration_time: u64,
}

} // verus!
