//! What the single steps do that a reader of stream types is made of.
use vstd::prelude::*;

use crate::connection_laws::lacks;
use crate::error::{Error, Res};
use crate::reader_state::ReaderState;
use crate::recorded::Recorded;
use crate::recv_stream::{Http3StreamType, NewStreamType, ReceiveOutput, ResetType};
use crate::stream_buffer::StreamBuffer;
use crate::stream_type::{decode_stream_type, map_stream_fin};
use crate::stream_type_reader::{received, NewStreamTypeReader};
use crate::transport::{
    reply_of, AppError, Ask, Connection, StreamId, StreamRecv, StreamType, TransportError,
};
use crate::varint::{
    is_varint, law_encoding_is_read_back, lemma_varint_value_bound, varint_encoding,
    IncrementalDecoderUint,
};
use crate::wire_laws::{
    cut_off, law_every_session_is_received, lemma_cut_off, lemma_spells, spells,
};

verus! {

/// A stream is unidirectional exactly if the second lowest bit of its number is set.
pub proof fn law_stream_number_tells_direction(
    id: u64,
    stream_id: StreamId,
    stream_type: StreamType,
)
    requires
        call_ensures(StreamId::new, (id,), stream_id),
        call_ensures(StreamId::stream_type, (&stream_id,), stream_type),
    ensures
        id % 4 < 2 ==> stream_type == StreamType::BiDi,
        id % 4 >= 2 ==> stream_type == StreamType::UniDi,
{
}

/// On a unidirectional stream every value has a meaning, and all but five of them mean that the
/// stream is of no known use.
pub proof fn law_types_of_unidirectional_streams(value: u64, res: Res<Option<NewStreamType>>)
    requires
        call_ensures(decode_stream_type, (value, StreamType::UniDi), res),
    ensures
        value == 0 <==> res == Ok::<Option<NewStreamType>, Error>(Some(NewStreamType::Control)),
        value == 1 <==> res == Ok::<Option<NewStreamType>, Error>(Some(NewStreamType::Push)),
        value == 2 <==> res == Ok::<Option<NewStreamType>, Error>(Some(NewStreamType::Decoder)),
        value == 3 <==> res == Ok::<Option<NewStreamType>, Error>(Some(NewStreamType::Encoder)),
        value == 0x54 <==> res == Ok::<Option<NewStreamType>, Error>(None),
        value > 3 && value != 0x54 <==> res == Ok::<Option<NewStreamType>, Error>(
            Some(NewStreamType::Unknown),
        ),
{
}

/// On a bidirectional stream two values have a meaning, and all others are refused.
pub proof fn law_types_of_bidirectional_streams(value: u64, res: Res<Option<NewStreamType>>)
    requires
        call_ensures(decode_stream_type, (value, StreamType::BiDi), res),
    ensures
        value == 1 <==> res == Ok::<Option<NewStreamType>, Error>(Some(NewStreamType::Http)),
        value == 0x41 <==> res == Ok::<Option<NewStreamType>, Error>(None),
        value != 1 && value != 0x41 <==> res == Err::<Option<NewStreamType>, Error>(
            Error::HttpFrame,
        ),
{
}

/// Only a stream of no known use may end right behind its first integer.
pub proof fn law_only_unknown_streams_may_end(
    decoded: Option<NewStreamType>,
    res: Res<Option<NewStreamType>>,
)
    requires
        call_ensures(map_stream_fin, (decoded,), res),
        !(decoded matches Some(NewStreamType::WebTransportStream(_))),
    ensures
        decoded == Some(NewStreamType::Unknown) <==> res == Ok::<Option<NewStreamType>, Error>(
            Some(NewStreamType::Unknown),
        ),
        decoded == Some(NewStreamType::Control) || decoded == Some(NewStreamType::Encoder)
            || decoded == Some(NewStreamType::Decoder) <==> res == Err::<
            Option<NewStreamType>,
            Error,
        >(Error::HttpClosedCriticalStream),
        decoded == Some(NewStreamType::Push) || decoded is None <==> res == Err::<
            Option<NewStreamType>,
            Error,
        >(Error::HttpStreamCreation),
        decoded == Some(NewStreamType::Http) <==> res == Err::<Option<NewStreamType>, Error>(
            Error::HttpFrame,
        ),
{
}

/// A new decoder has taken nothing, and wants one byte.
pub proof fn law_new_decoder_wants_one_byte(decoder: IncrementalDecoderUint, remaining: usize)
    requires
        call_ensures(<IncrementalDecoderUint as Default>::default, (), decoder),
        call_ensures(IncrementalDecoderUint::min_remaining, (&decoder,), remaining),
    ensures
        decoder@ == Seq::<u8>::empty(),
        remaining == 1,
{
}

/// A decoder wants as many bytes as its integer lacks, as far as the first byte tells: all that
/// it has taken is the beginning of one integer.
pub proof fn law_decoder_wants_what_is_missing(decoder: &IncrementalDecoderUint, remaining: usize)
    requires
        call_ensures(IncrementalDecoderUint::min_remaining, (decoder,), remaining),
    ensures
        decoder@.len() == 0 ==> remaining == 1,
        decoder@.len() > 0 && decoder@[0] < 0x40 ==> remaining == 1 - decoder@.len(),
        decoder@.len() > 0 && 0x40 <= decoder@[0] < 0x80 ==> remaining == 2 - decoder@.len(),
        decoder@.len() > 0 && 0x80 <= decoder@[0] < 0xc0 ==> remaining == 4 - decoder@.len(),
        decoder@.len() > 0 && 0xc0 <= decoder@[0] ==> remaining == 8 - decoder@.len(),
{
}

/// A decoder takes from the front of what it is given as much as its integer lacks, and no more.
pub proof fn law_decoder_takes_what_is_missing(
    decoder: &mut IncrementalDecoderUint,
    data: &[u8],
    value: Option<u64>,
    wanted: int,
)
    requires
        call_ensures(IncrementalDecoderUint::consume, (decoder, data), value),
        old(decoder)@.len() > 0 || data@.len() > 0,
        wanted == lacks(old(decoder)@),
        0 <= wanted,
    ensures
        data@.len() >= wanted ==> final(decoder)@ == old(decoder)@ + data@.take(wanted),
        data@.len() < wanted ==> final(decoder)@ == old(decoder)@ + data@,
{
    if data@.len() < wanted {
        assert(data@.take(data@.len() as int) =~= data@);
    }
}

/// A decoder gives a value exactly when it has taken all bytes of its integer. The two highest
/// bits of the first byte say how many those are, and the others are the value, the most
/// significant byte first.
pub proof fn law_decoder_gives_the_value(
    decoder: &mut IncrementalDecoderUint,
    data: &[u8],
    value: Option<u64>,
)
    requires
        call_ensures(IncrementalDecoderUint::consume, (decoder, data), value),
        old(decoder)@.len() > 0 || data@.len() > 0,
    ensures
        ({
            let b = final(decoder)@;
            &&& b.len() > 0
            &&& b[0] < 0x40 ==> b.len() == 1 && value == Some(b[0] as u64)
            &&& 0x40 <= b[0] < 0x80 && b.len() == 2 ==> value == Some(
                ((b[0] - 0x40) * 0x100 + b[1]) as u64,
            )
            &&& 0x80 <= b[0] < 0xc0 && b.len() == 4 ==> value == Some(
                ((b[0] - 0x80) * 0x100_0000 + b[1] * 0x1_0000 + b[2] * 0x100 + b[3]) as u64,
            )
            &&& 0xc0 <= b[0] && b.len() == 8 ==> value == Some(
                ((b[0] - 0xc0) * 0x100_0000_0000_0000 + b[1] * 0x1_0000_0000_0000 + b[2]
                    * 0x100_0000_0000 + b[3] * 0x1_0000_0000 + b[4] * 0x100_0000 + b[5] * 0x1_0000
                    + b[6] * 0x100 + b[7]) as u64,
            )
            &&& 0x40 <= b[0] < 0x80 && b.len() != 2 ==> b.len() < 2 && value is None
            &&& 0x80 <= b[0] < 0xc0 && b.len() != 4 ==> b.len() < 4 && value is None
            &&& 0xc0 <= b[0] && b.len() != 8 ==> b.len() < 8 && value is None
        }),
{
    let b = final(decoder)@;
    if b.len() == 2 {
        lemma_spells(b, (b[0] - 0x40) * 0x100 + b[1]);
    } else if b.len() == 4 {
        lemma_spells(
            b,
            (b[0] - 0x80) * 0x100_0000 + b[1] * 0x1_0000 + b[2] * 0x100 + b[3],
        );
    } else if b.len() == 8 {
        lemma_spells(
            b,
            (b[0] - 0xc0) * 0x100_0000_0000_0000 + b[1] * 0x1_0000_0000_0000 + b[2]
                * 0x100_0000_0000 + b[3] * 0x1_0000_0000 + b[4] * 0x100_0000 + b[5] * 0x1_0000
                + b[6] * 0x100 + b[7],
        );
    } else {
        lemma_spells(b, b[0] as int);
    }
}

/// A new reader reads the first integer of its stream from the start, and is not done. It is for
/// a stream of which nothing is known.
pub proof fn law_new_reader(
    stream_id: u64,
    reader: NewStreamTypeReader,
    done: bool,
    request: Option<(u64, usize)>,
    stream_type: Http3StreamType,
)
    requires
        call_ensures(NewStreamTypeReader::new, (stream_id,), reader),
        call_ensures(NewStreamTypeReader::done, (&reader,), done),
        call_ensures(NewStreamTypeReader::request, (&reader,), request),
        call_ensures(NewStreamTypeReader::stream_type, (&reader,), stream_type),
    ensures
        reader@ == (ReaderState::ReadType { read: Seq::empty(), stream_id }),
        !done,
        request == Some((stream_id, 1usize)),
        stream_type == Http3StreamType::NewStream,
{
}

/// Whatever the number of a session is, a new reader reports the stream with it: as soon as the
/// stream has brought the first integer of a WebTransport stream and then the number.
pub proof fn law_new_reader_reports_every_session(
    stream_id: u64,
    fresh: NewStreamTypeReader,
    reader: &mut NewStreamTypeReader,
    stream: &mut StreamBuffer,
    res: Res<ReceiveOutput>,
    after: &NewStreamTypeReader,
    done: bool,
    rest: Seq<u8>,
    session: u64,
)
    requires
        call_ensures(NewStreamTypeReader::new, (stream_id,), fresh),
        *old(reader) == fresh,
        call_ensures(NewStreamTypeReader::receive::<StreamBuffer>, (reader, stream), res),
        *after == *final(reader),
        call_ensures(NewStreamTypeReader::done, (after,), done),
        old(stream)@.stream_id == stream_id,
        session < 0x4000_0000_0000_0000,
        stream_id % 4 >= 2 ==> old(stream)@.unread == seq![0x40u8, 0x54] + (varint_encoding(
            session as nat,
        ) + rest),
        stream_id % 4 < 2 ==> old(stream)@.unread == seq![0x40u8, 0x41] + (varint_encoding(
            session as nat,
        ) + rest),
    ensures
        res == Ok::<ReceiveOutput, Error>(
            ReceiveOutput::NewStream(NewStreamType::WebTransportStream(session)),
        ),
        done,
        final(stream)@.unread == rest,
{
    let first = if stream_id % 4 >= 2 {
        seq![0x40u8, 0x54]
    } else {
        seq![0x40u8, 0x41]
    };
    let second = varint_encoding(session as nat);
    law_encoding_is_read_back(session as nat);
    lemma_spells(second, session as int);
    assert(Seq::<u8>::empty() + old(stream)@.unread =~= first + (second + rest));
    law_every_session_is_received(
        reader,
        stream,
        res,
        stream_id,
        Seq::empty(),
        first,
        second,
        rest,
        session,
    );
}

/// A reader whose stream has been reset is done, and so is one that was done before. It asks for
/// nothing, reports nothing and leaves any connection as it is.
pub proof fn law_reset_reader_is_done<C: Connection>(
    reader: &mut NewStreamTypeReader,
    error: AppError,
    reset_type: ResetType,
    reset_res: Res<()>,
    after: &mut NewStreamTypeReader,
    conn: &mut C,
    res: Res<ReceiveOutput>,
    done: bool,
    request: Option<(u64, usize)>,
)
    requires
        call_ensures(
            NewStreamTypeReader::stream_reset,
            (reader, error, reset_type),
            reset_res,
        ),
        *old(after) == *final(reader),
        call_ensures(NewStreamTypeReader::done, (&*final(reader),), done),
        call_ensures(NewStreamTypeReader::request, (&*final(reader),), request),
        call_ensures(NewStreamTypeReader::receive::<C>, (after, conn), res),
    ensures
        reset_res == Ok::<(), Error>(()),
        done,
        request is None,
        res == Ok::<ReceiveOutput, Error>(ReceiveOutput::NoOutput),
        *final(conn) == *old(conn),
        final(conn).log() == old(conn).log(),
        final(after)@ == final(reader)@,
{
}

/// A reader that says that it is done reports nothing, leaves any connection as it is and stays
/// done; whatever it reports, it is done with it.
pub proof fn law_done_reader_leaves_the_connection<C: Connection>(
    before: &NewStreamTypeReader,
    done_before: bool,
    reader: &mut NewStreamTypeReader,
    conn: &mut C,
    res: Res<ReceiveOutput>,
    after: &NewStreamTypeReader,
    done_after: bool,
)
    requires
        *before == *old(reader),
        *after == *final(reader),
        call_ensures(NewStreamTypeReader::done, (before,), done_before),
        call_ensures(NewStreamTypeReader::receive::<C>, (reader, conn), res),
        call_ensures(NewStreamTypeReader::done, (after,), done_after),
    ensures
        done_before ==> {
            &&& res == Ok::<ReceiveOutput, Error>(ReceiveOutput::NoOutput)
            &&& *final(conn) == *old(conn)
            &&& final(conn).log() == old(conn).log()
            &&& done_after
        },
        !done_before ==> final(conn).log().len() > old(conn).log().len(),
        res matches Ok(ReceiveOutput::NewStream(_)) ==> done_after,
{
}

/// A reader asks for bytes of its stream, for as many as the integer at hand lacks.
pub proof fn law_request_is_for_what_is_missing(
    reader: &NewStreamTypeReader,
    request: Option<(u64, usize)>,
)
    requires
        call_ensures(NewStreamTypeReader::request, (reader,), request),
    ensures
        match reader@ {
            ReaderState::ReadType { read, stream_id } => {
                request matches Some((id, max)) && id == stream_id && max == lacks(read)
            },
            ReaderState::ReadWtSessionId { read, stream_id } => {
                request matches Some((id, max)) && id == stream_id && max == lacks(read)
            },
            ReaderState::Done => request is None,
        },
{
}

/// Bytes are added to the integer at hand. Once it is complete its value is shown. As long as it
/// is not, nothing is shown, unless no byte came or the stream has ended.
pub proof fn law_absorb_adds_bytes(
    reader: &mut NewStreamTypeReader,
    data: &[u8],
    fin: bool,
    shown: Option<(Option<u64>, bool)>,
    value: u64,
)
    requires
        call_ensures(NewStreamTypeReader::absorb, (reader, data, fin), shown),
        !(old(reader)@ is Done),
        data@.len() <= lacks(old(reader)@.read()),
        cut_off(old(reader)@.read()),
    ensures
        final(reader)@.read() == old(reader)@.read() + data@,
        final(reader)@ is ReadType <==> old(reader)@ is ReadType,
        !(final(reader)@ is Done),
        final(reader)@.stream_id() == old(reader)@.stream_id(),
        spells(final(reader)@.read(), value as int) <==> shown == Some((Some(value), fin)),
        cut_off(final(reader)@.read()) && (data@.len() == 0 || fin) <==> shown == Some(
            (None::<u64>, fin),
        ),
        cut_off(final(reader)@.read()) && data@.len() > 0 && !fin <==> shown is None,
{
    let now = old(reader)@.read() + data@;
    lemma_cut_off(old(reader)@.read());
    lemma_cut_off(now);
    lemma_spells(now, value as int);
    if old(reader)@.read().len() > 0 {
        assert(now[0] == old(reader)@.read()[0]);
    }
    if data@.len() == 0 {
        assert(now =~= old(reader)@.read());
    }
    if is_varint(now) {
        lemma_varint_value_bound(now);
    }
}

/// Without a value nothing is found, and the reader is done exactly if the stream has ended.
pub proof fn law_settle_without_a_value(
    reader: &mut NewStreamTypeReader,
    fin: bool,
    answer: Option<Res<Option<NewStreamType>>>,
)
    requires
        call_ensures(NewStreamTypeReader::settle, (reader, None, fin), answer),
    ensures
        answer == Some(Ok::<Option<NewStreamType>, Error>(None)),
        fin ==> final(reader)@ is Done,
        !fin ==> final(reader)@ == old(reader)@,
{
}

/// The value of the first integer is taken for what it means on the stream: by itself, and at the
/// end of the stream. Where it is refused the reader stays as it is; where a session follows, the
/// number of it is read next; everywhere else the reader is done.
pub proof fn law_settle_the_first_integer(
    reader: &mut NewStreamTypeReader,
    value: u64,
    fin: bool,
    answer: Option<Res<Option<NewStreamType>>>,
    stream_id: StreamId,
    stream_type: StreamType,
    decoded: Res<Option<NewStreamType>>,
    ended: Res<Option<NewStreamType>>,
)
    requires
        call_ensures(NewStreamTypeReader::settle, (reader, Some(value), fin), answer),
        old(reader)@ is ReadType,
        call_ensures(StreamId::new, (old(reader)@.stream_id(),), stream_id),
        call_ensures(StreamId::stream_type, (&stream_id,), stream_type),
        call_ensures(decode_stream_type, (value, stream_type), decoded),
        decoded is Ok ==> call_ensures(map_stream_fin, (decoded->Ok_0,), ended),
    ensures
        decoded is Err ==> answer == Some(decoded) && final(reader)@ == old(reader)@,
        decoded is Ok && fin ==> answer == Some(ended) && final(reader)@ is Done,
        decoded is Ok && !fin && decoded->Ok_0 is Some ==> {
            answer == Some(decoded) && final(reader)@ is Done
        },
        decoded is Ok && !fin && decoded->Ok_0 is None ==> {
            &&& answer is None
            &&& final(reader)@ == (ReaderState::ReadWtSessionId {
                read: Seq::empty(),
                stream_id: old(reader)@.stream_id(),
            })
        },
{
}

/// The value behind the first integer of a WebTransport stream is its session, whatever it is.
pub proof fn law_settle_the_session(
    reader: &mut NewStreamTypeReader,
    value: u64,
    fin: bool,
    answer: Option<Res<Option<NewStreamType>>>,
)
    requires
        call_ensures(NewStreamTypeReader::settle, (reader, Some(value), fin), answer),
        old(reader)@ is ReadWtSessionId,
    ensures
        answer == Some(
            Ok::<Option<NewStreamType>, Error>(Some(NewStreamType::WebTransportStream(value))),
        ),
        final(reader)@ is Done,
{
}

/// What `receive` gives for any type that is found, for nothing found and for any error.
pub proof fn law_everything_found_is_reported(stream_type: NewStreamType, error: Error)
    ensures
        received(Ok(Some(stream_type))) == Ok::<ReceiveOutput, Error>(
            ReceiveOutput::NewStream(stream_type),
        ),
        received(Ok(None)) == Ok::<ReceiveOutput, Error>(ReceiveOutput::NoOutput),
        received(Err(error)) == Err::<ReceiveOutput, Error>(error),
{
}

/// What arrives is handed out: a request on the stream gets bytes from the front of what is
/// unread, as many as it asks for or all that there are, and the end is told when nothing is left
/// and no more will arrive. A request on another stream gets nothing and changes nothing.
pub proof fn law_buffer_hands_out_from_the_front(
    stream: &mut StreamBuffer,
    stream_id: u64,
    max: usize,
    answer: StreamRecv,
)
    requires
        call_ensures(
            <StreamBuffer as Connection>::stream_recv,
            (stream, stream_id, max),
            answer,
        ),
    ensures
        answer is Ok,
        final(stream)@.stream_id == old(stream)@.stream_id,
        final(stream)@.ended == old(stream)@.ended,
        stream_id == old(stream)@.stream_id ==> {
            let (data, fin) = answer->Ok_0;
            &&& old(stream)@.unread == data@ + final(stream)@.unread
            &&& data@.len() <= max
            &&& data@.len() == max || final(stream)@.unread.len() == 0
            &&& fin <==> old(stream)@.ended && final(stream)@.unread.len() == 0
        },
        stream_id != old(stream)@.stream_id ==> {
            let (data, fin) = answer->Ok_0;
            data@.len() == 0 && !fin && final(stream)@ == old(stream)@
        },
{
    let (data, fin) = answer->Ok_0;
    assert(answer is Ok ==> reply_of(answer) == Ok::<(Seq<u8>, bool), TransportError>(
        (data@, fin),
    ));
    if stream_id == old(stream)@.stream_id {
        assert(old(stream)@.unread =~= data@ + final(stream)@.unread);
    }
}

/// A new buffer is empty and goes on. What arrives stands behind what is unread, and the end of
/// the stream changes nothing else.
pub proof fn law_buffer_keeps_what_arrives(
    stream_id: u64,
    fresh: StreamBuffer,
    stream: &mut StreamBuffer,
    data: &[u8],
    shown: &StreamBuffer,
    unread: &[u8],
)
    ensures
        call_ensures(StreamBuffer::new, (stream_id,), fresh) ==> {
            &&& fresh@.stream_id == stream_id
            &&& fresh@.unread.len() == 0
            &&& !fresh@.ended
        },
        call_ensures(StreamBuffer::arrive, (stream, data), ()) ==> {
            &&& final(stream)@.unread == old(stream)@.unread + data@
            &&& final(stream)@.ended == old(stream)@.ended
            &&& final(stream)@.stream_id == old(stream)@.stream_id
        },
        call_ensures(StreamBuffer::end, (stream,), ()) ==> {
            &&& final(stream)@.unread == old(stream)@.unread
            &&& final(stream)@.ended
            &&& final(stream)@.stream_id == old(stream)@.stream_id
        },
        call_ensures(StreamBuffer::unread, (shown,), unread) ==> unread@ == shown@.unread,
{
}

/// A new record is empty, and holds the transport and the function that it was given.
pub proof fn law_new_record_is_empty<T, F: Fn(T, u64, usize) -> (StreamRecv, T)>(
    transport: T,
    recv: F,
    recorded: Recorded<T, F>,
)
    requires
        call_ensures(Recorded::<T, F>::new, (transport, recv), recorded),
    ensures
        recorded.transport() == Some(transport),
        recorded.recv() == recv,
        recorded.log() == Seq::<Ask>::empty(),
{
}

/// A recorded transport is asked by one call of its function, with the same request, and the
/// answer of that call is the answer. The request is put on record behind all others.
pub proof fn law_recorded_transport_is_asked_once<T, F: Fn(T, u64, usize) -> (StreamRecv, T)>(
    recorded: &mut Recorded<T, F>,
    stream_id: u64,
    max: usize,
    answer: StreamRecv,
    transport: T,
)
    requires
        call_ensures(
            <Recorded<T, F> as Connection>::stream_recv,
            (recorded, stream_id, max),
            answer,
        ),
        old(recorded).transport() == Some(transport),
    ensures
        exists|given: StreamRecv, next: T| #[trigger]
            call_ensures(old(recorded).recv(), (transport, stream_id, max), (given, next))
                && reply_of(given) == reply_of(answer) && final(recorded).transport() == Some(next),
        final(recorded).recv() == old(recorded).recv(),
        final(recorded).log() == old(recorded).log().push(
            (Ask { stream_id, max, reply: reply_of(answer) }),
        ),
{
}

} // verus!
