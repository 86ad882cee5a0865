//! What a reader of stream types makes of the bytes on the wire.
use vstd::prelude::*;

use crate::buffer_laws::{found, law_buffered_bytes_decide};
use crate::error::{Error, Res};
use crate::reader_state::{exchange, ReaderState};
use crate::recv_stream::{NewStreamType, ReceiveOutput};
use crate::stream_buffer::StreamBuffer;
use crate::stream_type_reader::{received, NewStreamTypeReader};
use crate::transport::Reply;
use crate::varint::{big_endian, is_varint, is_varint_prefix, varint_value};

verus! {

/// Whether `bytes` are an integer with this value: its two highest bits say how many bytes it
/// takes, and the others are the value, most significant byte first.
pub open spec fn spells(bytes: Seq<u8>, value: int) -> bool {
    ||| bytes.len() == 1 && bytes[0] < 0x40 && value == bytes[0]
    ||| bytes.len() == 2 && 0x40 <= bytes[0] < 0x80 && value == (bytes[0] - 0x40) * 0x100 + bytes[1]
    ||| bytes.len() == 4 && 0x80 <= bytes[0] < 0xc0 && value == (bytes[0] - 0x80) * 0x100_0000
        + bytes[1] * 0x1_0000 + bytes[2] * 0x100 + bytes[3]
    ||| bytes.len() == 8 && 0xc0 <= bytes[0] && value == (bytes[0] - 0xc0) * 0x100_0000_0000_0000
        + bytes[1] * 0x1_0000_0000_0000 + bytes[2] * 0x100_0000_0000 + bytes[3] * 0x1_0000_0000
        + bytes[4] * 0x100_0000 + bytes[5] * 0x1_0000 + bytes[6] * 0x100 + bytes[7]
}

/// Whether `bytes` are the beginning of an integer whose last byte is missing.
pub open spec fn cut_off(bytes: Seq<u8>) -> bool {
    ||| bytes.len() == 0
    ||| 0x40 <= bytes[0] < 0x80 && bytes.len() < 2
    ||| 0x80 <= bytes[0] < 0xc0 && bytes.len() < 4
    ||| 0xc0 <= bytes[0] && bytes.len() < 8
}

pub proof fn lemma_cut_off(bytes: Seq<u8>)
    ensures
        cut_off(bytes) <==> is_varint_prefix(bytes) && !is_varint(bytes),
{
}

proof fn lemma_big_endian_step(bytes: Seq<u8>)
    requires
        bytes.len() > 0,
    ensures
        big_endian(bytes) == big_endian(bytes.drop_last()) * 256 + bytes.last(),
{
}

proof fn lemma_big_endian_take(bytes: Seq<u8>, n: int)
    requires
        0 <= n < bytes.len(),
    ensures
        big_endian(bytes.take(n + 1)) == big_endian(bytes.take(n)) * 256 + bytes[n],
        n == 0 ==> big_endian(bytes.take(n)) == 0,
{
    lemma_big_endian_step(bytes.take(n + 1));
    assert(bytes.take(n + 1).drop_last() =~= bytes.take(n));
}

pub proof fn lemma_spells(bytes: Seq<u8>, value: int)
    ensures
        spells(bytes, value) <==> is_varint(bytes) && varint_value(bytes) == value,
{
    if is_varint(bytes) {
        let masked = bytes.update(0, bytes[0] % 64);
        assert(masked.take(masked.len() as int) =~= masked);
        lemma_big_endian_take(masked, 0);
        if bytes.len() >= 2 {
            lemma_big_endian_take(masked, 1);
        }
        if bytes.len() >= 4 {
            lemma_big_endian_take(masked, 2);
            lemma_big_endian_take(masked, 3);
        }
        if bytes.len() >= 8 {
            lemma_big_endian_take(masked, 4);
            lemma_big_endian_take(masked, 5);
            lemma_big_endian_take(masked, 6);
            lemma_big_endian_take(masked, 7);
        }
    }
}

pub proof fn lemma_receive_buffered(
    reader: &mut NewStreamTypeReader,
    stream: &mut StreamBuffer,
    res: Res<ReceiveOutput>,
)
    requires
        call_ensures(NewStreamTypeReader::receive::<StreamBuffer>, (reader, stream), res),
        !(old(reader)@ is Done) ==> old(stream)@.stream_id == old(reader)@.stream_id(),
    ensures
        ({
            let (end, told, left) = found(
                old(reader)@,
                old(stream)@.unread,
                old(stream)@.ended,
            );
            &&& final(reader)@ == end
            &&& res == received(told)
            &&& final(stream)@.unread == left
            &&& final(stream)@.ended == old(stream)@.ended
            &&& final(stream)@.stream_id == old(stream)@.stream_id
        }),
{
    let (replies, told) = choose|replies: Seq<Reply>, told: Res<Option<NewStreamType>>| #[trigger]
        exchange(*old(stream), old(reader)@, replies, *final(stream), final(reader)@, told) && res
            == received(told);
    law_buffered_bytes_decide(
        *old(stream),
        old(reader)@,
        replies,
        *final(stream),
        final(reader)@,
        told,
    );
}

/// What is found when the integer at hand is complete.
proof fn lemma_found_integer(
    state: ReaderState,
    unread: Seq<u8>,
    ended: bool,
    integer: Seq<u8>,
    rest: Seq<u8>,
    value: u64,
)
    requires
        !(state is Done),
        cut_off(state.read()),
        state.read() + unread == integer + rest,
        spells(integer, value as int),
    ensures
        found(state, unread, ended) == (match state.with_read(integer).settle(
            Some(value),
            ended && rest.len() == 0,
        ) {
            (next, Some(res)) => (next, res, rest),
            (next, None) => found(next, rest, ended),
        }),
{
    reveal(found);
    let bytes = state.read() + unread;
    lemma_spells(integer, value as int);
    lemma_cut_off(state.read());
    assert(bytes[0] == integer[0]);
    assert(bytes.take(integer.len() as int) =~= integer);
    assert(bytes.skip(integer.len() as int) =~= rest);
}

/// What is found when the integer at hand stays incomplete.
proof fn lemma_found_cut_off(state: ReaderState, unread: Seq<u8>, ended: bool)
    requires
        !(state is Done),
        cut_off(state.read() + unread),
        cut_off(state.read()),
    ensures
        found(state, unread, ended) == (
            if ended {
                ReaderState::Done
            } else {
                state.with_read(state.read() + unread)
            },
            Ok::<Option<NewStreamType>, Error>(None),
            Seq::<u8>::empty(),
        ),
{
    reveal(found);
    lemma_cut_off(state.read() + unread);
    lemma_cut_off(state.read());
}

proof fn lemma_session_follows(state: ReaderState, stream_id: u64, integer: Seq<u8>)
    requires
        state is ReadType,
        state.stream_id() == stream_id,
    ensures
        state.with_read(integer).settle(
            Some(
                if stream_id % 4 >= 2 {
                    0x54
                } else {
                    0x41
                },
            ),
            false,
        ) == (
            ReaderState::ReadWtSessionId { read: Seq::<u8>::empty(), stream_id },
            None::<Res<Option<NewStreamType>>>,
        ),
{
}

/// What is found behind the first integer of a WebTransport stream.
proof fn lemma_found_session(
    state: ReaderState,
    stream_id: u64,
    unread: Seq<u8>,
    ended: bool,
    first: Seq<u8>,
    rest: Seq<u8>,
)
    requires
        state is ReadType,
        state.stream_id() == stream_id,
        cut_off(state.read()),
        state.read() + unread == first + rest,
        spells(first, if stream_id % 4 >= 2 {
            0x54
        } else {
            0x41
        }),
        rest.len() > 0 || !ended,
    ensures
        found(state, unread, ended) == found(
            ReaderState::ReadWtSessionId { read: Seq::empty(), stream_id },
            rest,
            ended,
        ),
{
    let value: u64 = if stream_id % 4 >= 2 {
        0x54
    } else {
        0x41
    };
    lemma_found_integer(state, unread, ended, first, rest, value);
    lemma_session_follows(state, stream_id, first);
}

proof fn lemma_found_session_number(
    state: ReaderState,
    unread: Seq<u8>,
    ended: bool,
    integer: Seq<u8>,
    rest: Seq<u8>,
    session: u64,
)
    requires
        state is ReadWtSessionId,
        cut_off(state.read()),
        state.read() + unread == integer + rest,
        spells(integer, session as int),
    ensures
        found(state, unread, ended) == (
            ReaderState::Done,
            Ok::<Option<NewStreamType>, Error>(Some(NewStreamType::WebTransportStream(session))),
            rest,
        ),
{
    lemma_found_integer(state, unread, ended, integer, rest, session);
}

/// The first integer on a stream says what the stream is for, wherever its bytes are cut into
/// those that were read before and those that are read now. It says so with its last byte, and
/// what stands behind it is left on the stream.
///
/// On a unidirectional stream 0 is the control stream, 1 a push, 2 what a QPACK encoder sends and
/// 3 what a QPACK decoder sends; on a bidirectional stream only 1, a request, can stand there.
/// The control and the QPACK streams must not end there, a push must go on, and so must a request.
/// 0x54 and 0x41 are WebTransport, where a session must follow.
#[verifier::spinoff_prover]
#[verifier::rlimit(60)]
pub proof fn law_first_integer_decides(
    reader: &mut NewStreamTypeReader,
    stream: &mut StreamBuffer,
    res: Res<ReceiveOutput>,
    stream_id: u64,
    read: Seq<u8>,
    first: Seq<u8>,
    rest: Seq<u8>,
    value: u64,
)
    requires
        call_ensures(NewStreamTypeReader::receive::<StreamBuffer>, (reader, stream), res),
        old(stream)@.stream_id == stream_id,
        old(reader)@ == (ReaderState::ReadType { read, stream_id }),
        cut_off(read),
        read + old(stream)@.unread == first + rest,
        spells(first, value as int),
    ensures
        stream_id % 4 >= 2 ==> {
            let goes_on = !(old(stream)@.ended && rest.len() == 0);
            &&& value == 0 && goes_on ==> res == Ok::<ReceiveOutput, Error>(
                ReceiveOutput::NewStream(NewStreamType::Control),
            )
            &&& value == 1 && goes_on ==> res == Ok::<ReceiveOutput, Error>(
                ReceiveOutput::NewStream(NewStreamType::Push),
            )
            &&& value == 2 && goes_on ==> res == Ok::<ReceiveOutput, Error>(
                ReceiveOutput::NewStream(NewStreamType::Decoder),
            )
            &&& value == 3 && goes_on ==> res == Ok::<ReceiveOutput, Error>(
                ReceiveOutput::NewStream(NewStreamType::Encoder),
            )
            &&& value > 3 && value != 0x54 ==> res == Ok::<ReceiveOutput, Error>(
                ReceiveOutput::NewStream(NewStreamType::Unknown),
            )
            &&& (value == 0 || value == 2 || value == 3) && !goes_on ==> res == Err::<
                ReceiveOutput,
                Error,
            >(Error::HttpClosedCriticalStream)
            &&& (value == 1 || value == 0x54) && !goes_on ==> res == Err::<ReceiveOutput, Error>(
                Error::HttpStreamCreation,
            )
            &&& value != 0x54 || !goes_on ==> final(reader)@ is Done && final(stream)@.unread
                == rest
        },
        stream_id % 4 < 2 ==> {
            let goes_on = !(old(stream)@.ended && rest.len() == 0);
            &&& value == 1 && goes_on ==> res == Ok::<ReceiveOutput, Error>(
                ReceiveOutput::NewStream(NewStreamType::Http),
            )
            &&& value == 1 && !goes_on ==> res == Err::<ReceiveOutput, Error>(Error::HttpFrame)
            &&& value == 0x41 && !goes_on ==> res == Err::<ReceiveOutput, Error>(
                Error::HttpStreamCreation,
            )
            &&& value == 1 || value == 0x41 && !goes_on ==> {
                final(reader)@ is Done && final(stream)@.unread == rest
            }
            &&& value != 1 && value != 0x41 ==> {
                &&& res == Err::<ReceiveOutput, Error>(Error::HttpFrame)
                &&& final(reader)@ == (ReaderState::ReadType { read: first, stream_id })
                &&& final(stream)@.unread == rest
            }
        },
        final(stream)@.ended == old(stream)@.ended,
        final(stream)@.stream_id == stream_id,
{
    lemma_receive_buffered(reader, stream, res);
    lemma_found_integer(
        old(reader)@,
        old(stream)@.unread,
        old(stream)@.ended,
        first,
        rest,
        value,
    );
}

/// Every session is told of: the number of the session follows the first integer of a WebTransport
/// stream, 0x54 on a unidirectional and 0x41 on a bidirectional stream, and whatever number it is,
/// the stream is reported with it. What stands behind it is left on the stream.
#[verifier::spinoff_prover]
#[verifier::rlimit(60)]
pub proof fn law_every_session_is_received(
    reader: &mut NewStreamTypeReader,
    stream: &mut StreamBuffer,
    res: Res<ReceiveOutput>,
    stream_id: u64,
    read: Seq<u8>,
    first: Seq<u8>,
    second: Seq<u8>,
    rest: Seq<u8>,
    session: u64,
)
    requires
        call_ensures(NewStreamTypeReader::receive::<StreamBuffer>, (reader, stream), res),
        old(stream)@.stream_id == stream_id,
        old(reader)@ == (ReaderState::ReadType { read, stream_id }),
        cut_off(read),
        read + old(stream)@.unread == first + (second + rest),
        spells(first, if stream_id % 4 >= 2 {
            0x54
        } else {
            0x41
        }),
        spells(second, session as int),
    ensures
        res == Ok::<ReceiveOutput, Error>(
            ReceiveOutput::NewStream(NewStreamType::WebTransportStream(session)),
        ),
        final(reader)@ is Done,
        final(stream)@.unread == rest,
        final(stream)@.ended == old(stream)@.ended,
{
    let (unread, ended) = (old(stream)@.unread, old(stream)@.ended);
    let next = ReaderState::ReadWtSessionId { read: Seq::empty(), stream_id };
    lemma_receive_buffered(reader, stream, res);
    lemma_found_session(old(reader)@, stream_id, unread, ended, first, second + rest);
    assert(next.read() + (second + rest) =~= second + rest);
    lemma_found_session_number(next, second + rest, ended, second, rest, session);
}

/// The same when the first integer was read before, and perhaps some bytes of the number.
pub proof fn law_every_session_is_received_later(
    reader: &mut NewStreamTypeReader,
    stream: &mut StreamBuffer,
    res: Res<ReceiveOutput>,
    stream_id: u64,
    read: Seq<u8>,
    second: Seq<u8>,
    rest: Seq<u8>,
    session: u64,
)
    requires
        call_ensures(NewStreamTypeReader::receive::<StreamBuffer>, (reader, stream), res),
        old(stream)@.stream_id == stream_id,
        old(reader)@ == (ReaderState::ReadWtSessionId { read, stream_id }),
        cut_off(read),
        read + old(stream)@.unread == second + rest,
        spells(second, session as int),
    ensures
        res == Ok::<ReceiveOutput, Error>(
            ReceiveOutput::NewStream(NewStreamType::WebTransportStream(session)),
        ),
        final(reader)@ is Done,
        final(stream)@.unread == rest,
        final(stream)@.ended == old(stream)@.ended,
{
    let (unread, ended) = (old(stream)@.unread, old(stream)@.ended);
    lemma_receive_buffered(reader, stream, res);
    lemma_found_session_number(old(reader)@, unread, ended, second, rest, session);
}

/// As long as the last byte of the first integer is missing, nothing is reported. All that is
/// there is read, and the reader is done exactly if the stream has ended.
pub proof fn law_cut_off_integer_reports_nothing(
    reader: &mut NewStreamTypeReader,
    stream: &mut StreamBuffer,
    res: Res<ReceiveOutput>,
    stream_id: u64,
    read: Seq<u8>,
)
    requires
        call_ensures(NewStreamTypeReader::receive::<StreamBuffer>, (reader, stream), res),
        old(stream)@.stream_id == stream_id,
        old(reader)@ == (ReaderState::ReadType { read, stream_id }),
        cut_off(read),
        cut_off(read + old(stream)@.unread),
    ensures
        res == Ok::<ReceiveOutput, Error>(ReceiveOutput::NoOutput),
        old(stream)@.ended ==> final(reader)@ is Done,
        !old(stream)@.ended ==> final(reader)@ == (ReaderState::ReadType {
            read: read + old(stream)@.unread,
            stream_id,
        }),
        final(stream)@.unread == Seq::<u8>::empty(),
        final(stream)@.ended == old(stream)@.ended,
{
    lemma_receive_buffered(reader, stream, res);
    lemma_found_cut_off(old(reader)@, old(stream)@.unread, old(stream)@.ended);
}

/// As long as the last byte of the number of the session is missing, nothing is reported either,
/// unless the stream has ended right behind the first integer.
pub proof fn law_cut_off_session_reports_nothing(
    reader: &mut NewStreamTypeReader,
    stream: &mut StreamBuffer,
    res: Res<ReceiveOutput>,
    stream_id: u64,
    read: Seq<u8>,
    first: Seq<u8>,
    rest: Seq<u8>,
)
    requires
        call_ensures(NewStreamTypeReader::receive::<StreamBuffer>, (reader, stream), res),
        old(stream)@.stream_id == stream_id,
        old(reader)@ == (ReaderState::ReadType { read, stream_id }),
        cut_off(read),
        read + old(stream)@.unread == first + rest,
        spells(first, if stream_id % 4 >= 2 {
            0x54
        } else {
            0x41
        }),
        cut_off(rest),
        rest.len() > 0 || !old(stream)@.ended,
    ensures
        res == Ok::<ReceiveOutput, Error>(ReceiveOutput::NoOutput),
        old(stream)@.ended ==> final(reader)@ is Done,
        !old(stream)@.ended ==> final(reader)@ == (ReaderState::ReadWtSessionId {
            read: rest,
            stream_id,
        }),
        final(stream)@.unread == Seq::<u8>::empty(),
        final(stream)@.ended == old(stream)@.ended,
{
    let (unread, ended) = (old(stream)@.unread, old(stream)@.ended);
    let next = ReaderState::ReadWtSessionId { read: Seq::empty(), stream_id };
    lemma_receive_buffered(reader, stream, res);
    lemma_found_session(old(reader)@, stream_id, unread, ended, first, rest);
    assert(next.read() + rest =~= rest);
    lemma_found_cut_off(next, rest, ended);
}

/// The same when the first integer was read before, and perhaps some bytes of the number.
pub proof fn law_cut_off_session_reports_nothing_later(
    reader: &mut NewStreamTypeReader,
    stream: &mut StreamBuffer,
    res: Res<ReceiveOutput>,
    stream_id: u64,
    read: Seq<u8>,
)
    requires
        call_ensures(NewStreamTypeReader::receive::<StreamBuffer>, (reader, stream), res),
        old(stream)@.stream_id == stream_id,
        old(reader)@ == (ReaderState::ReadWtSessionId { read, stream_id }),
        cut_off(read),
        cut_off(read + old(stream)@.unread),
    ensures
        res == Ok::<ReceiveOutput, Error>(ReceiveOutput::NoOutput),
        old(stream)@.ended ==> final(reader)@ is Done,
        !old(stream)@.ended ==> final(reader)@ == (ReaderState::ReadWtSessionId {
            read: read + old(stream)@.unread,
            stream_id,
        }),
        final(stream)@.unread == Seq::<u8>::empty(),
        final(stream)@.ended == old(stream)@.ended,
{
    lemma_receive_buffered(reader, stream, res);
    lemma_found_cut_off(old(reader)@, old(stream)@.unread, old(stream)@.ended);
}

/// A reader that has refused a stream reports nothing more and reads nothing more, and is done
/// when the stream ends.
pub proof fn law_refused_stream_reports_nothing(
    reader: &mut NewStreamTypeReader,
    stream: &mut StreamBuffer,
    res: Res<ReceiveOutput>,
    stream_id: u64,
    read: Seq<u8>,
    value: u64,
)
    requires
        call_ensures(NewStreamTypeReader::receive::<StreamBuffer>, (reader, stream), res),
        old(stream)@.stream_id == stream_id,
        old(reader)@ == (ReaderState::ReadType { read, stream_id }),
        spells(read, value as int),
    ensures
        res == Ok::<ReceiveOutput, Error>(ReceiveOutput::NoOutput),
        final(stream)@ == old(stream)@,
        old(stream)@.ended && old(stream)@.unread.len() == 0 ==> final(reader)@ is Done,
        !(old(stream)@.ended && old(stream)@.unread.len() == 0) ==> final(reader)@
            == old(reader)@,
{
    reveal(found);
    lemma_receive_buffered(reader, stream, res);
    lemma_spells(read, value as int);
}

/// What `get_type` finds, `receive` reports: every type that is found is a new stream, nothing
/// found is nothing to report, and an error is that error. Apart from that the two do the same.
#[verifier::spinoff_prover]
#[verifier::rlimit(60)]
pub proof fn law_receive_reports_what_get_type_finds(
    reader: &mut NewStreamTypeReader,
    stream: &mut StreamBuffer,
    res: Res<ReceiveOutput>,
    other_reader: &mut NewStreamTypeReader,
    other_stream: &mut StreamBuffer,
    told: Res<Option<NewStreamType>>,
    stream_type: NewStreamType,
    error: Error,
)
    requires
        call_ensures(NewStreamTypeReader::receive::<StreamBuffer>, (reader, stream), res),
        call_ensures(
            NewStreamTypeReader::get_type::<StreamBuffer>,
            (other_reader, other_stream),
            told,
        ),
        old(reader)@ == old(other_reader)@,
        old(stream)@ == old(other_stream)@,
        old(reader)@ is Done || old(stream)@.stream_id == old(reader)@.stream_id(),
    ensures
        told == Ok::<Option<NewStreamType>, Error>(Some(stream_type)) <==> res == Ok::<
            ReceiveOutput,
            Error,
        >(ReceiveOutput::NewStream(stream_type)),
        told == Ok::<Option<NewStreamType>, Error>(None) <==> res == Ok::<ReceiveOutput, Error>(
            ReceiveOutput::NoOutput,
        ),
        told == Err::<Option<NewStreamType>, Error>(error) <==> res == Err::<ReceiveOutput, Error>(
            error,
        ),
        final(reader)@ == final(other_reader)@,
        final(stream)@ == final(other_stream)@,
{
    lemma_receive_buffered(reader, stream, res);
    let replies = choose|replies: Seq<Reply>| #[trigger]
        exchange(
            *old(other_stream),
            old(other_reader)@,
            replies,
            *final(other_stream),
            final(other_reader)@,
            told,
        );
    law_buffered_bytes_decide(
        *old(other_stream),
        old(other_reader)@,
        replies,
        *final(other_stream),
        final(other_reader)@,
        told,
    );
}

} // verus!
