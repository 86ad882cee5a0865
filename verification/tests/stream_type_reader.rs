use neqo_http3::error::Error;
use neqo_http3::recorded::Recorded;
use neqo_http3::recv_stream::{Http3StreamType, NewStreamType, ReceiveOutput, ResetType};
use neqo_http3::stream_buffer::StreamBuffer;
use neqo_http3::stream_type::{
    decode_stream_type, map_stream_fin, H3_FRAME_TYPE_HEADERS, HTTP3_UNI_STREAM_TYPE_CONTROL,
    HTTP3_UNI_STREAM_TYPE_PUSH, QPACK_UNI_STREAM_TYPE_DECODER, QPACK_UNI_STREAM_TYPE_ENCODER,
    WEBTRANSPORT_STREAM, WEBTRANSPORT_UNI_STREAM,
};
use neqo_http3::stream_type_reader::NewStreamTypeReader;
use neqo_http3::transport::{Connection, StreamId, StreamRecv, StreamType, TransportError};

/// A buffered stream that keeps how many bytes it was asked for, and that can fail.
struct Client {
    stream: StreamBuffer,
    stream_id: u64,
    asked: Vec<usize>,
    failure: Option<TransportError>,
}

impl Client {
    fn stream_recv(&mut self, stream_id: u64, max: usize) -> StreamRecv {
        assert_eq!(stream_id, self.stream_id);
        self.asked.push(max);
        match self.failure.take() {
            Some(error) => Err(error),
            None => self.stream.stream_recv(stream_id, max),
        }
    }
}

fn encode_varint(out: &mut Vec<u8>, v: u64) {
    if v < 1 << 6 {
        out.push(v as u8);
    } else if v < 1 << 14 {
        out.extend_from_slice(&(v as u16 | (1 << 14)).to_be_bytes());
    } else if v < 1 << 30 {
        out.extend_from_slice(&(v as u32 | (2 << 30)).to_be_bytes());
    } else {
        assert!(v < 1 << 62);
        out.extend_from_slice(&(v | (3 << 62)).to_be_bytes());
    }
}

fn encode(values: &[u64]) -> Vec<u8> {
    let mut out = Vec::new();
    for v in values {
        encode_varint(&mut out, *v);
    }
    out
}

struct Test {
    conn: Client,
    decoder: NewStreamTypeReader,
}

impl Test {
    fn new(stream_type: StreamType) -> Self {
        // The first stream of each type that a server opens.
        let stream_id = match stream_type {
            StreamType::BiDi => 1,
            StreamType::UniDi => 3,
        };
        assert_eq!(StreamId::new(stream_id).stream_type(), stream_type);
        Self {
            conn: Client {
                stream: StreamBuffer::new(stream_id),
                stream_id,
                asked: Vec::new(),
                failure: None,
            },
            decoder: NewStreamTypeReader::new(stream_id),
        }
    }

    fn send(&mut self, data: &[u8]) {
        self.conn.stream.arrive(data);
    }

    fn receive(&mut self) -> Result<ReceiveOutput, Error> {
        let mut conn = Recorded::new(&mut self.conn, |conn: &mut Client, id, max| {
            let answer = conn.stream_recv(id, max);
            (answer, conn)
        });
        self.decoder.receive(&mut conn)
    }

    fn decode(&mut self, stream_type: &[u64], outcome: ReceiveOutput, done: bool) {
        let enc = encode(stream_type);
        let len = enc.len() - 1;
        for i in 0..len {
            self.send(&enc[i..i + 1]);
            assert_eq!(self.receive().unwrap(), ReceiveOutput::NoOutput);
            assert_eq!(self.decoder.done(), false);
        }
        self.send(&enc[enc.len() - 1..]);
        assert_eq!(self.receive().unwrap(), outcome);
        assert_eq!(self.decoder.done(), done);
    }

    /// Everything arrives at once, and the stream ends.
    fn end_with(&mut self, values: &[u64]) -> Result<ReceiveOutput, Error> {
        self.send(&encode(values));
        self.conn.stream.end();
        self.receive()
    }
}

#[test]
fn decode_streams() {
    let mut t = Test::new(StreamType::UniDi);
    t.decode(
        &[QPACK_UNI_STREAM_TYPE_DECODER],
        ReceiveOutput::NewStream(NewStreamType::Encoder),
        true,
    );

    let mut t = Test::new(StreamType::UniDi);
    t.decode(
        &[QPACK_UNI_STREAM_TYPE_ENCODER],
        ReceiveOutput::NewStream(NewStreamType::Decoder),
        true,
    );

    let mut t = Test::new(StreamType::UniDi);
    t.decode(
        &[HTTP3_UNI_STREAM_TYPE_CONTROL],
        ReceiveOutput::NewStream(NewStreamType::Control),
        true,
    );

    let mut t = Test::new(StreamType::UniDi);
    t.decode(
        &[HTTP3_UNI_STREAM_TYPE_PUSH],
        ReceiveOutput::NewStream(NewStreamType::Push),
        true,
    );

    let mut t = Test::new(StreamType::BiDi);
    t.decode(
        &[H3_FRAME_TYPE_HEADERS],
        ReceiveOutput::NewStream(NewStreamType::Http),
        true,
    );

    let mut t = Test::new(StreamType::BiDi);
    t.decode(
        &[WEBTRANSPORT_STREAM, 0x1],
        ReceiveOutput::NewStream(NewStreamType::WebTransportStream(1)),
        true,
    );

    let mut t = Test::new(StreamType::UniDi);
    t.decode(
        &[WEBTRANSPORT_UNI_STREAM, 0x3fff],
        ReceiveOutput::NewStream(NewStreamType::WebTransportStream(16383)),
        true,
    );

    let mut t = Test::new(StreamType::UniDi);
    t.decode(
        &[0x3fff_ffff_ffff_ffff],
        ReceiveOutput::NewStream(NewStreamType::Unknown),
        true,
    );
}

#[test]
fn done_decoding() {
    let mut t = Test::new(StreamType::UniDi);
    t.decode(
        &[0x3fff],
        ReceiveOutput::NewStream(NewStreamType::Unknown),
        true,
    );
    t.decode(&[HTTP3_UNI_STREAM_TYPE_PUSH], ReceiveOutput::NoOutput, true);
}

#[test]
fn reset() {
    let mut t = Test::new(StreamType::UniDi);
    t.decoder.stream_reset(0x100, ResetType::Remote).unwrap();
    t.decode(&[HTTP3_UNI_STREAM_TYPE_PUSH], ReceiveOutput::NoOutput, true);
}

#[test]
fn values_on_the_wire() {
    assert_eq!(HTTP3_UNI_STREAM_TYPE_CONTROL, 0);
    assert_eq!(HTTP3_UNI_STREAM_TYPE_PUSH, 1);
    assert_eq!(QPACK_UNI_STREAM_TYPE_ENCODER, 2);
    assert_eq!(QPACK_UNI_STREAM_TYPE_DECODER, 3);
    assert_eq!(WEBTRANSPORT_UNI_STREAM, 0x54);
    assert_eq!(WEBTRANSPORT_STREAM, 0x41);
    assert_eq!(H3_FRAME_TYPE_HEADERS, 1);
}

#[test]
fn done_reader_asks_for_nothing() {
    let mut t = Test::new(StreamType::UniDi);
    t.decoder.stream_reset(0, ResetType::App).unwrap();
    t.send(&[0]);
    assert_eq!(t.receive(), Ok(ReceiveOutput::NoOutput));
    assert!(t.conn.asked.is_empty());
    assert_eq!(t.conn.stream.unread().len(), 1);
}

#[test]
fn pieces_do_not_matter() {
    let bytes = encode(&[WEBTRANSPORT_UNI_STREAM, 0x1234_5678_9abc]);
    assert_eq!(bytes.len(), 10);
    for cut in 0..=bytes.len() {
        for second_cut in cut..=bytes.len() {
            let mut t = Test::new(StreamType::UniDi);
            t.send(&bytes[..cut]);
            let mut outputs = vec![t.receive().unwrap()];
            t.send(&bytes[cut..second_cut]);
            outputs.push(t.receive().unwrap());
            t.send(&bytes[second_cut..]);
            outputs.push(t.receive().unwrap());
            outputs.retain(|output| *output != ReceiveOutput::NoOutput);
            assert_eq!(
                outputs,
                vec![ReceiveOutput::NewStream(NewStreamType::WebTransportStream(
                    0x1234_5678_9abc
                ))]
            );
            assert!(t.decoder.done());
        }
    }
}

#[test]
fn nothing_behind_the_type_is_read() {
    let mut t = Test::new(StreamType::UniDi);
    t.send(&[0x00, 0xff, 0xff]);
    assert_eq!(
        t.receive(),
        Ok(ReceiveOutput::NewStream(NewStreamType::Control))
    );
    assert_eq!(t.conn.asked, vec![1]);
    assert_eq!(t.conn.stream.unread().len(), 2);

    let mut t = Test::new(StreamType::BiDi);
    let mut bytes = encode(&[WEBTRANSPORT_STREAM, 0x4000]);
    bytes.extend_from_slice(b"data");
    t.send(&bytes);
    assert_eq!(
        t.receive(),
        Ok(ReceiveOutput::NewStream(NewStreamType::WebTransportStream(
            0x4000
        )))
    );
    assert_eq!(t.conn.asked, vec![1, 1, 1, 3]);
    assert_eq!(t.conn.stream.unread().len(), 4);
}

#[test]
fn asks_sixteen_times_at_most() {
    let bytes = [0xc0, 0, 0, 0, 0, 0, 0, 0x54, 0xc0, 0, 0, 0, 0, 0, 0, 7];
    let mut calls = 0;
    let mut conn = Recorded::new(&mut calls, |calls: &mut usize, _, _| {
        let answer = Ok((vec![bytes[*calls]], false));
        *calls += 1;
        (answer, calls)
    });
    let mut reader = NewStreamTypeReader::new(3);
    assert_eq!(
        reader.get_type(&mut conn),
        Ok(Some(NewStreamType::WebTransportStream(7)))
    );
    assert_eq!(calls, 16);
}

#[test]
fn end_of_stream() {
    for value in [
        HTTP3_UNI_STREAM_TYPE_CONTROL,
        QPACK_UNI_STREAM_TYPE_ENCODER,
        QPACK_UNI_STREAM_TYPE_DECODER,
    ] {
        let mut t = Test::new(StreamType::UniDi);
        assert_eq!(t.end_with(&[value]), Err(Error::HttpClosedCriticalStream));
        assert!(t.decoder.done());
    }

    for value in [HTTP3_UNI_STREAM_TYPE_PUSH, WEBTRANSPORT_UNI_STREAM] {
        let mut t = Test::new(StreamType::UniDi);
        assert_eq!(t.end_with(&[value]), Err(Error::HttpStreamCreation));
        assert!(t.decoder.done());
    }

    let mut t = Test::new(StreamType::BiDi);
    assert_eq!(
        t.end_with(&[WEBTRANSPORT_STREAM]),
        Err(Error::HttpStreamCreation)
    );
    assert!(t.decoder.done());

    let mut t = Test::new(StreamType::BiDi);
    assert_eq!(t.end_with(&[H3_FRAME_TYPE_HEADERS]), Err(Error::HttpFrame));
    assert!(t.decoder.done());

    let mut t = Test::new(StreamType::UniDi);
    assert_eq!(
        t.end_with(&[0x21]),
        Ok(ReceiveOutput::NewStream(NewStreamType::Unknown))
    );
    assert!(t.decoder.done());

    // The session is known even when nothing follows it.
    let mut t = Test::new(StreamType::BiDi);
    assert_eq!(
        t.end_with(&[WEBTRANSPORT_STREAM, 8]),
        Ok(ReceiveOutput::NewStream(NewStreamType::WebTransportStream(
            8
        )))
    );
    assert!(t.decoder.done());

    // Nothing at all, and an integer that is cut off.
    let mut t = Test::new(StreamType::UniDi);
    assert_eq!(t.end_with(&[]), Ok(ReceiveOutput::NoOutput));
    assert!(t.decoder.done());
    let mut t = Test::new(StreamType::UniDi);
    t.send(&[0xc0, 0x01]);
    assert_eq!(t.end_with(&[]), Ok(ReceiveOutput::NoOutput));
    assert!(t.decoder.done());
}

#[test]
fn bad_frame() {
    let mut t = Test::new(StreamType::BiDi);
    t.send(&encode(&[0x7, H3_FRAME_TYPE_HEADERS]));
    assert_eq!(t.receive(), Err(Error::HttpFrame));
    assert!(!t.decoder.done());
    // The frame behind it is not looked at.
    assert_eq!(t.receive(), Ok(ReceiveOutput::NoOutput));
    assert_eq!(t.conn.asked, vec![1, 0]);
    assert!(!t.decoder.done());
    t.conn.stream = StreamBuffer::new(t.conn.stream_id);
    assert_eq!(t.end_with(&[]), Ok(ReceiveOutput::NoOutput));
    assert!(t.decoder.done());
}

#[test]
fn transport_error() {
    let error = TransportError { code: 0x1234 };
    let mut t = Test::new(StreamType::UniDi);
    t.send(&[0x40]);
    assert_eq!(t.receive(), Ok(ReceiveOutput::NoOutput));
    t.conn.failure = Some(error);
    assert_eq!(t.receive(), Err(Error::TransportError(error)));
    // The byte that was there already is not lost.
    t.send(&[0x54, 0x09]);
    assert_eq!(
        t.receive(),
        Ok(ReceiveOutput::NewStream(NewStreamType::WebTransportStream(
            9
        )))
    );
}

#[test]
fn one_answer_at_a_time() {
    let mut reader = NewStreamTypeReader::new(3);
    assert_eq!(reader.request(), Some((3, 1)));
    assert_eq!(reader.absorb(&[0x40], false), None);
    assert_eq!(reader.absorb(&[], false), Some((None, false)));
    assert_eq!(reader.request(), Some((3, 1)));
    assert_eq!(reader.absorb(&[0x54], false), Some((Some(0x54), false)));
    assert_eq!(reader.settle(Some(0x54), false), None);
    assert_eq!(reader.request(), Some((3, 1)));
    assert_eq!(reader.absorb(&[0x80], false), None);
    assert_eq!(reader.request(), Some((3, 3)));
    assert_eq!(reader.absorb(&[0, 1], true), Some((None, true)));
    assert_eq!(reader.settle(None, true), Some(Ok(None)));
    assert!(reader.done());
    assert_eq!(reader.request(), None);

    let mut reader = NewStreamTypeReader::new(0);
    assert_eq!(reader.settle(Some(5), true), Some(Err(Error::HttpFrame)));
    assert!(!reader.done());
    assert_eq!(reader.settle(None, false), Some(Ok(None)));
    assert!(!reader.done());
}

#[test]
fn type_of_a_new_stream() {
    assert_eq!(
        NewStreamTypeReader::new(7).stream_type(),
        Http3StreamType::NewStream
    );
}

#[test]
fn same_value_on_both_kinds_of_stream() {
    assert_eq!(
        decode_stream_type(1, StreamType::UniDi),
        Ok(Some(NewStreamType::Push))
    );
    assert_eq!(
        decode_stream_type(1, StreamType::BiDi),
        Ok(Some(NewStreamType::Http))
    );
    assert_eq!(decode_stream_type(0x54, StreamType::UniDi), Ok(None));
    assert_eq!(
        decode_stream_type(0x54, StreamType::BiDi),
        Err(Error::HttpFrame)
    );
    assert_eq!(
        decode_stream_type(0x41, StreamType::UniDi),
        Ok(Some(NewStreamType::Unknown))
    );
    assert_eq!(decode_stream_type(0x41, StreamType::BiDi), Ok(None));
    assert_eq!(
        decode_stream_type(0, StreamType::BiDi),
        Err(Error::HttpFrame)
    );
}

#[test]
fn types_at_the_end_of_a_stream() {
    assert_eq!(map_stream_fin(None), Err(Error::HttpStreamCreation));
    assert_eq!(
        map_stream_fin(Some(NewStreamType::Unknown)),
        Ok(Some(NewStreamType::Unknown))
    );
    assert_eq!(
        map_stream_fin(Some(NewStreamType::Decoder)),
        Err(Error::HttpClosedCriticalStream)
    );
}

#[test]
fn stream_ids() {
    for id in 0..16 {
        let expected = if id % 4 < 2 {
            StreamType::BiDi
        } else {
            StreamType::UniDi
        };
        assert_eq!(StreamId::new(id).stream_type(), expected);
    }
    assert_eq!(StreamId::new(u64::MAX).stream_type(), StreamType::UniDi);
}
