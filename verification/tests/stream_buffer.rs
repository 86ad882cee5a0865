use neqo_http3::error::Error;
use neqo_http3::recorded::Recorded;
use neqo_http3::recv_stream::{NewStreamType, ReceiveOutput};
use neqo_http3::stream_buffer::StreamBuffer;
use neqo_http3::stream_type_reader::NewStreamTypeReader;
use neqo_http3::transport::{Connection, TransportError};

#[test]
fn hands_out_in_order() {
    let mut stream = StreamBuffer::new(3);
    assert_eq!(stream.stream_recv(3, 5), Ok((vec![], false)));
    stream.arrive(&[1, 2, 3]);
    stream.arrive(&[4]);
    assert_eq!(stream.stream_recv(3, 2), Ok((vec![1, 2], false)));
    // Nothing arrives on other streams.
    assert_eq!(stream.stream_recv(7, 2), Ok((vec![], false)));
    assert_eq!(stream.unread(), &[3, 4]);
    stream.end();
    assert_eq!(stream.stream_recv(3, 1), Ok((vec![3], false)));
    assert_eq!(stream.stream_recv(3, 0), Ok((vec![], false)));
    assert_eq!(stream.stream_recv(3, 9), Ok((vec![4], true)));
    assert_eq!(stream.stream_recv(3, 9), Ok((vec![], true)));
    assert_eq!(stream.stream_recv(7, 9), Ok((vec![], false)));
}

#[test]
fn late_bytes_are_as_good() {
    // A WebTransport stream of the session 300, and a byte of its own.
    let bytes = [0x40, 0x54, 0x41, 0x2c, 0x99];
    for early in 0..4 {
        let mut stream = StreamBuffer::new(3);
        let mut reader = NewStreamTypeReader::new(3);
        stream.arrive(&bytes[..early]);
        assert_eq!(reader.receive(&mut stream), Ok(ReceiveOutput::NoOutput));
        assert!(!reader.done());
        assert!(stream.unread().is_empty());
        stream.arrive(&bytes[early..]);
        assert_eq!(
            reader.receive(&mut stream),
            Ok(ReceiveOutput::NewStream(NewStreamType::WebTransportStream(
                300
            )))
        );
        assert!(reader.done());
        assert_eq!(stream.unread(), &[0x99]);
    }
}

#[test]
fn bytes_behind_are_left() {
    let mut stream = StreamBuffer::new(3);
    let mut reader = NewStreamTypeReader::new(3);
    stream.arrive(&[0, 1]);
    assert_eq!(
        reader.get_type(&mut stream),
        Ok(Some(NewStreamType::Control))
    );
    stream.arrive(&[2]);
    // A reader that is done leaves the stream alone.
    assert_eq!(reader.get_type(&mut stream), Ok(None));
    assert_eq!(stream.unread(), &[1, 2]);
}

#[test]
fn end_told_late() {
    // The end comes with the first integer, or after it.
    let mut stream = StreamBuffer::new(3);
    let mut reader = NewStreamTypeReader::new(3);
    stream.arrive(&[0x40, 0x54]);
    stream.end();
    assert_eq!(
        reader.get_type(&mut stream),
        Err(Error::HttpStreamCreation)
    );
    assert!(reader.done());

    let mut stream = StreamBuffer::new(3);
    let mut reader = NewStreamTypeReader::new(3);
    stream.arrive(&[0x40, 0x54]);
    assert_eq!(reader.get_type(&mut stream), Ok(None));
    assert!(!reader.done());
    stream.end();
    assert_eq!(reader.get_type(&mut stream), Ok(None));
    assert!(reader.done());
}

#[test]
fn other_streams_are_left_alone() {
    let mut stream = StreamBuffer::new(7);
    let mut reader = NewStreamTypeReader::new(3);
    stream.arrive(&[1]);
    assert_eq!(reader.get_type(&mut stream), Ok(None));
    assert!(!reader.done());
    assert_eq!(stream.unread(), &[1]);
}

#[test]
fn recorded_transport_is_asked_once() {
    let mut asked = Vec::new();
    let mut conn = Recorded::new(&mut asked, |asked: &mut Vec<(u64, usize)>, id, max| {
        asked.push((id, max));
        let answer = match asked.len() {
            1 => Ok((vec![0x80], false)),
            2 => Ok((vec![0, 0], false)),
            _ => Err(TransportError { code: 5 }),
        };
        (answer, asked)
    });
    let mut reader = NewStreamTypeReader::new(11);
    assert_eq!(
        reader.get_type(&mut conn),
        Err(Error::TransportError(TransportError { code: 5 }))
    );
    assert_eq!(asked, vec![(11, 1), (11, 3), (11, 1)]);
}
