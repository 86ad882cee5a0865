//! What becomes of the receiving side of a stream.
use vstd::prelude::*;

use crate::transport::StreamId;

verus! {

/// What a stream that the peer opened turns out to be.
#[derive(Debug, Clone, Copy, PartialEq, Eq, Structural)]
pub enum NewStreamType {
    Control,
    Decoder,
    Encoder,
    Push,
    /// A WebTransport stream, with the number of its session.
    WebTransportStream(u64),
    Http,
    Unknown,
}

/// What reading from a stream has brought.
#[derive(Debug, Clone, Copy, PartialEq, Eq, Structural)]
pub enum ReceiveOutput {
    NoOutput,
    NewStream(NewStreamType),
}

/// Who gave up a stream.
#[derive(Debug, Clone, Copy, PartialEq, Eq, Structural)]
pub enum ResetType {
    App,
    Remote,
    Local,
}

/// What a stream is used for.
#[derive(Debug, Clone, Copy, PartialEq, Eq, Structural)]
pub enum Http3StreamType {
    Control,
    Decoder,
    Encoder,
    /// The stream is so new that its use is not known yet.
    NewStream,
    Http,
    Push,
    WebTransport(StreamId),
    Unknown,
}

} // verus!
