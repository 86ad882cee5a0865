//! The errors that reading a stream can end in.
use vstd::prelude::*;

use crate::transport::TransportError;

verus! {

#[derive(Debug, Clone, Copy, PartialEq, Eq, PartialOrd, Ord, Structural)]
pub enum Error {
    /// A stream that has to stay open for as long as the connection does was closed.
    HttpClosedCriticalStream,
    /// A stream was opened in a way that the protocol does not allow.
    HttpStreamCreation,
    /// A frame does not belong where it stands, or is malformed.
    HttpFrame,
    /// The transport refused to hand out bytes.
    TransportError(TransportError),
}

pub type Res<T> = Result<T, Error>;

} // verus!
