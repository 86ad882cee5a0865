//! What the first integer on a stream says of the stream.
use vstd::prelude::*;

use crate::error::{Error, Res};
use crate::recv_stream::NewStreamType;
use crate::transport::StreamType;

verus! {

/// The control stream (RFC 9114).
pub const HTTP3_UNI_STREAM_TYPE_CONTROL: u64 = 0x0;

/// A push stream (RFC 9114).
pub const HTTP3_UNI_STREAM_TYPE_PUSH: u64 = 0x1;

/// The stream on which the peer's QPACK encoder sends (RFC 9204).
pub const QPACK_UNI_STREAM_TYPE_ENCODER: u64 = 0x2;

/// The stream on which the peer's QPACK decoder sends (RFC 9204).
pub const QPACK_UNI_STREAM_TYPE_DECODER: u64 = 0x3;

/// A unidirectional WebTransport stream; the number of its session follows.
pub const WEBTRANSPORT_UNI_STREAM: u64 = 0x54;

/// A bidirectional WebTransport stream; the number of its session follows.
pub const WEBTRANSPORT_STREAM: u64 = 0x41;

/// The frame that a request or response starts with (RFC 9114).
pub const H3_FRAME_TYPE_HEADERS: u64 = 0x1;

/// What the first integer on a stream of the type `transport` makes of the stream. `None` is
/// a WebTransport stream, of which only the session number can tell more.
pub open spec fn decoded_stream_type(stream_type: u64, transport: StreamType) -> Res<
    Option<NewStreamType>,
> {
    match transport {
        StreamType::UniDi => Ok(
            if stream_type == HTTP3_UNI_STREAM_TYPE_CONTROL {
                Some(NewStreamType::Control)
            } else if stream_type == HTTP3_UNI_STREAM_TYPE_PUSH {
                Some(NewStreamType::Push)
            } else if stream_type == QPACK_UNI_STREAM_TYPE_ENCODER {
                Some(NewStreamType::Decoder)
            } else if stream_type == QPACK_UNI_STREAM_TYPE_DECODER {
                Some(NewStreamType::Encoder)
            } else if stream_type == WEBTRANSPORT_UNI_STREAM {
                None
            } else {
                Some(NewStreamType::Unknown)
            },
        ),
        StreamType::BiDi => if stream_type == H3_FRAME_TYPE_HEADERS {
            Ok(Some(NewStreamType::Http))
        } else if stream_type == WEBTRANSPORT_STREAM {
            Ok(None)
        } else {
            Err(Error::HttpFrame)
        },
    }
}

/// What a stream comes to that ends right after its first integer.
pub open spec fn ended_stream(decoded: Option<NewStreamType>) -> Res<Option<NewStreamType>>
    recommends
        !(decoded matches Some(NewStreamType::WebTransportStream(_))),
{
    match decoded {
        Some(NewStreamType::Control)
        | Some(NewStreamType::Encoder)
        | Some(NewStreamType::Decoder) => Err(Error::HttpClosedCriticalStream),
        Some(NewStreamType::Push) | None => Err(Error::HttpStreamCreation),
        Some(NewStreamType::Http) => Err(Error::HttpFrame),
        _ => Ok(decoded),
    }
}

/// Says what the first integer on a stream makes of the stream.
pub fn decode_stream_type(stream_type: u64, trans_stream_type: StreamType) -> (res: Res<
    Option<NewStreamType>,
>)
    ensures
        res == decoded_stream_type(stream_type, trans_stream_type),
{
    match (stream_type, trans_stream_type) {
        (HTTP3_UNI_STREAM_TYPE_CONTROL, StreamType::UniDi) => Ok(Some(NewStreamType::Control)),
        (HTTP3_UNI_STREAM_TYPE_PUSH, StreamType::UniDi) => Ok(Some(NewStreamType::Push)),
        (QPACK_UNI_STREAM_TYPE_ENCODER, StreamType::UniDi) => Ok(Some(NewStreamType::Decoder)),
        (QPACK_UNI_STREAM_TYPE_DECODER, StreamType::UniDi) => Ok(Some(NewStreamType::Encoder)),
        (WEBTRANSPORT_UNI_STREAM, StreamType::UniDi) | (WEBTRANSPORT_STREAM, StreamType::BiDi) => {
            Ok(None)
        },
        (H3_FRAME_TYPE_HEADERS, StreamType::BiDi) => Ok(Some(NewStreamType::Http)),
        (_, StreamType::BiDi) => Err(Error::HttpFrame),
        _ => Ok(Some(NewStreamType::Unknown)),
    }
}

/// Says what a stream comes to that ends right after its first integer.
pub fn map_stream_fin(decoded: Option<NewStreamType>) -> (res: Res<Option<NewStreamType>>)
    requires
        !(decoded matches Some(NewStreamType::WebTransportStream(_))),
    ensures
        res == ended_stream(decoded),
{
    match decoded {
        Some(NewStreamType::Control)
        | Some(NewStreamType::Encoder)
        | Some(NewStreamType::Decoder) => Err(Error::HttpClosedCriticalStream),
        Some(NewStreamType::Push) | None => Err(Error::HttpStreamCreation),
        Some(NewStreamType::Http) => Err(Error::HttpFrame),
        _ => Ok(decoded),
    }
}

} // verus!
