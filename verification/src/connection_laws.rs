//! What a reader of stream types does with any connection.
use vstd::prelude::*;

use crate::buffer_laws::{found, law_buffered_bytes_decide};
use crate::call_laws::lemma_wf_at;
use crate::error::{Error, Res};
use crate::history_laws::{lemma_taken, since, taken_from};
use crate::reader_state::{
    after, all_fit, asks, data_of, exchange, fits, handed_out, lemma_asks_front, quiet, state_at,
    ReaderState,
};
use crate::recv_stream::{NewStreamType, ReceiveOutput};
use crate::stream_buffer::StreamBuffer;
use crate::stream_type_reader::{received, NewStreamTypeReader};
use crate::transport::{Connection, Reply};
use crate::varint::{is_varint, is_varint_prefix, lemma_varint_value_bound, varint_value};
use crate::wire_laws::{cut_off, lemma_cut_off, lemma_receive_buffered, lemma_spells, spells};

verus! {

/// One answer more, and bytes to come.
proof fn lemma_found_quiet_step(state: ReaderState, reply: Reply, more: Seq<u8>, ended: bool)
    requires
        state.wf(),
        !(state is Done),
        data_of(reply).len() <= state.wanted(),
        state.step(reply).1 is None,
        more.len() > 0 || !ended,
    ensures
        found(state, data_of(reply) + more, ended) == found(state.step(reply).0, more, ended),
{
    reveal(found);
    let data = data_of(reply);
    let read = state.read() + data;
    let bytes = state.read() + (data + more);
    assert(bytes =~= read + more);
    if state.read().len() > 0 {
        assert(bytes[0] == state.read()[0]);
        assert(read[0] == state.read()[0]);
    }
    assert(bytes[0] == read[0]);
    if is_varint(read) {
        assert(bytes.take(read.len() as int) =~= read);
        assert(bytes.skip(read.len() as int) =~= more);
    }
}

/// The last answer.
proof fn lemma_found_last_step(state: ReaderState, data: Seq<u8>, fin: bool)
    requires
        state.wf(),
        !(state is Done),
        0 < data.len() <= state.wanted(),
        state.step(Ok((data, fin))).1 is Some,
    ensures
        ({
            let (end, told) = state.step(Ok((data, fin)));
            found(state, data, fin) == (end, told->0, Seq::<u8>::empty())
        }),
{
    reveal(found);
    let bytes = state.read() + data;
    if state.read().len() > 0 {
        assert(bytes[0] == state.read()[0]);
    }
    if is_varint(bytes) {
        assert(bytes.take(bytes.len() as int) =~= bytes);
        assert(bytes.skip(bytes.len() as int) =~= Seq::<u8>::empty());
    }
}

/// No bytes, and the stream goes on.
proof fn lemma_found_nothing(state: ReaderState)
    requires
        state.wf(),
    ensures
        found(state, Seq::empty(), false).0 == state,
        found(state, Seq::empty(), false).1 == Ok::<Option<NewStreamType>, Error>(None),
{
    reveal(found);
    assert(state.read() + Seq::<u8>::empty() =~= state.read());
    assert(state.with_read(state.read()) == state);
}

#[verifier::spinoff_prover]
#[verifier::rlimit(60)]
proof fn lemma_found_prior(start: ReaderState, replies: Seq<Reply>, more: Seq<u8>, ended: bool)
    requires
        start.wf(),
        all_fit(start, replies),
        quiet(start, replies),
        more.len() > 0 || !ended,
    ensures
        found(start, handed_out(replies) + more, ended) == found(
            after(start, replies),
            more,
            ended,
        ),
    decreases replies.len(),
{
    if replies.len() > 0 {
        let prior = replies.drop_last();
        let last = replies.len() - 1;
        let data = data_of(replies.last());
        lemma_asks_front(start, replies);
        lemma_quiet_front(start, replies);
        lemma_found_prior(start, prior, data + more, ended);
        assert(handed_out(prior) + (data + more) =~= handed_out(replies) + more);
        assert(replies.take(last) =~= prior);
        assert(fits(start, replies, last));
        lemma_wf_at(start, replies, last);
        lemma_found_quiet_step(after(start, prior), replies.last(), more, ended);
    } else {
        assert(handed_out(replies) + more =~= more);
    }
}

proof fn lemma_quiet_front(start: ReaderState, replies: Seq<Reply>)
    requires
        replies.len() > 0,
        quiet(start, replies),
    ensures
        quiet(start, replies.drop_last()),
        after(start, replies.drop_last()).step(replies.last()).1 is None,
{
    let prior = replies.drop_last();
    assert forall|i: int| 0 <= i < prior.len() implies state_at(start, prior, i).step(
        #[trigger] prior[i],
    ).1 is None by {
        assert(prior.take(i) =~= replies.take(i));
        assert(state_at(start, replies, i).step(replies[i]).1 is None);
    }
    let last = replies.len() - 1;
    assert(replies.take(last) =~= prior);
    assert(state_at(start, replies, last).step(replies[last]).1 is None);
}

proof fn lemma_idle_step(state: ReaderState, reply: Reply)
    requires
        data_of(reply).len() == 0,
        !(state is Done),
    ensures
        match reply {
            Err(error) => state.step(reply) == (
                state,
                Some(Err::<Option<NewStreamType>, Error>(Error::TransportError(error))),
            ),
            Ok((_, fin)) => state.step(reply) == (
                if fin {
                    ReaderState::Done
                } else {
                    state
                },
                Some(Ok::<Option<NewStreamType>, Error>(None)),
            ),
        },
{
    assert(state.read() + data_of(reply) =~= state.read());
    assert(state.with_read(state.read()) == state);
}

/// What a call on any connection comes to, by the last answer and by what a buffer with the same
/// bytes comes to.
#[verifier::spinoff_prover]
#[verifier::rlimit(60)]
proof fn lemma_exchange_found<C: Connection>(
    conn: C,
    start: ReaderState,
    replies: Seq<Reply>,
    next: C,
    end: ReaderState,
    told: Res<Option<NewStreamType>>,
)
    requires
        start.wf(),
        !(start is Done),
        exchange(conn, start, replies, next, end, told),
    ensures
        since(conn, next).len() > 0,
        next.log() == conn.log() + since(conn, next),
        ({
            let bytes = taken_from(since(conn, next), start.stream_id());
            match since(conn, next).last().reply {
                Err(error) => {
                    &&& told == Err::<Option<NewStreamType>, Error>(Error::TransportError(error))
                    &&& end == found(start, bytes, false).0
                },
                Ok((data, fin)) => if data.len() > 0 {
                    (end, told) == (found(start, bytes, fin).0, found(start, bytes, fin).1)
                } else {
                    &&& told == Ok::<Option<NewStreamType>, Error>(None)
                    &&& fin ==> end is Done
                    &&& !fin ==> end == found(start, bytes, false).0
                },
            }
        }),
{
    let prior = replies.drop_last();
    let last = replies.len() - 1;
    let data = data_of(replies.last());
    let state = after(start, prior);
    let log = since(conn, next);
    assert(log =~= asks(start, replies));
    assert(next.log() =~= conn.log() + log);
    lemma_taken(start, replies, start.stream_id());
    lemma_asks_front(start, replies);
    assert(replies.take(last) =~= prior);
    lemma_wf_at(start, replies, last);
    assert(fits(start, replies, last));
    if data.len() > 0 {
        let fin = replies.last()->Ok_0.1;
        lemma_found_prior(start, prior, data, fin);
        lemma_found_last_step(state, data, fin);
    } else {
        lemma_idle_step(state, replies.last());
        assert(handed_out(prior) + data =~= handed_out(prior) + Seq::<u8>::empty());
        lemma_found_prior(start, prior, Seq::empty(), false);
        lemma_found_nothing(state);
    }
}

/// Only the bytes and the end of the stream count: a call on any connection comes to what a call
/// on a buffer comes to that holds the bytes the connection has handed out, and that ends with
/// them if the connection has said so with the last of them. Beyond that a connection can fail,
/// which is passed on, and it can have no byte, which reports nothing; neither changes what was
/// read, but the end of the stream ends the reader.
pub proof fn law_only_bytes_and_end_count<C: Connection>(
    reader: &mut NewStreamTypeReader,
    conn: &mut C,
    res: Res<ReceiveOutput>,
    twin: &mut NewStreamTypeReader,
    stream: &mut StreamBuffer,
    twin_res: Res<ReceiveOutput>,
)
    requires
        call_ensures(NewStreamTypeReader::receive::<C>, (reader, conn), res),
        call_ensures(NewStreamTypeReader::receive::<StreamBuffer>, (twin, stream), twin_res),
        !(old(reader)@ is Done),
        old(twin)@ == old(reader)@,
        old(stream)@.stream_id == old(reader)@.stream_id(),
        old(stream)@.unread == taken_from(
            since(*old(conn), *final(conn)),
            old(reader)@.stream_id(),
        ),
        old(stream)@.ended <==> (since(*old(conn), *final(conn)).last().reply matches Ok(
            (data, fin),
        ) && data.len() > 0 && fin),
    ensures
        since(*old(conn), *final(conn)).len() > 0,
        final(conn).log() == old(conn).log() + since(*old(conn), *final(conn)),
        match since(*old(conn), *final(conn)).last().reply {
            Err(error) => {
                &&& res == Err::<ReceiveOutput, Error>(Error::TransportError(error))
                &&& final(reader)@ == final(twin)@
            },
            Ok((data, fin)) => if data.len() > 0 {
                &&& res == twin_res
                &&& final(reader)@ == final(twin)@
            } else {
                &&& res == Ok::<ReceiveOutput, Error>(ReceiveOutput::NoOutput)
                &&& fin ==> final(reader)@ is Done
                &&& !fin ==> final(reader)@ == final(twin)@
            },
        },
{
    let (replies, told) = choose|replies: Seq<Reply>, told: Res<Option<NewStreamType>>| #[trigger]
        exchange(*old(conn), old(reader)@, replies, *final(conn), final(reader)@, told) && res
            == received(told);
    lemma_exchange_found(*old(conn), old(reader)@, replies, *final(conn), final(reader)@, told);
    lemma_receive_buffered(twin, stream, twin_res);
}

/// The same for what is found.
pub proof fn law_only_bytes_and_end_count_for_what_is_found<C: Connection>(
    reader: &mut NewStreamTypeReader,
    conn: &mut C,
    told: Res<Option<NewStreamType>>,
    twin: &mut NewStreamTypeReader,
    stream: &mut StreamBuffer,
    twin_told: Res<Option<NewStreamType>>,
)
    requires
        call_ensures(NewStreamTypeReader::get_type::<C>, (reader, conn), told),
        call_ensures(NewStreamTypeReader::get_type::<StreamBuffer>, (twin, stream), twin_told),
        !(old(reader)@ is Done),
        old(twin)@ == old(reader)@,
        old(stream)@.stream_id == old(reader)@.stream_id(),
        old(stream)@.unread == taken_from(
            since(*old(conn), *final(conn)),
            old(reader)@.stream_id(),
        ),
        old(stream)@.ended <==> (since(*old(conn), *final(conn)).last().reply matches Ok(
            (data, fin),
        ) && data.len() > 0 && fin),
    ensures
        since(*old(conn), *final(conn)).len() > 0,
        final(conn).log() == old(conn).log() + since(*old(conn), *final(conn)),
        match since(*old(conn), *final(conn)).last().reply {
            Err(error) => {
                &&& told == Err::<Option<NewStreamType>, Error>(Error::TransportError(error))
                &&& final(reader)@ == final(twin)@
            },
            Ok((data, fin)) => if data.len() > 0 {
                &&& told == twin_told
                &&& final(reader)@ == final(twin)@
            } else {
                &&& told == Ok::<Option<NewStreamType>, Error>(None)
                &&& fin ==> final(reader)@ is Done
                &&& !fin ==> final(reader)@ == final(twin)@
            },
        },
{
    let replies = choose|replies: Seq<Reply>| #[trigger]
        exchange(*old(conn), old(reader)@, replies, *final(conn), final(reader)@, told);
    let twin_replies = choose|replies: Seq<Reply>| #[trigger]
        exchange(*old(stream), old(twin)@, replies, *final(stream), final(twin)@, twin_told);
    lemma_exchange_found(*old(conn), old(reader)@, replies, *final(conn), final(reader)@, told);
    law_buffered_bytes_decide(
        *old(stream),
        old(twin)@,
        twin_replies,
        *final(stream),
        final(twin)@,
        twin_told,
    );
}

/// A reader that is done finds nothing, and leaves any connection as it is.
pub proof fn law_done_reader_finds_nothing<C: Connection>(
    reader: &mut NewStreamTypeReader,
    conn: &mut C,
    told: Res<Option<NewStreamType>>,
)
    requires
        call_ensures(NewStreamTypeReader::get_type::<C>, (reader, conn), told),
        old(reader)@ is Done,
    ensures
        told == Ok::<Option<NewStreamType>, Error>(None),
        final(reader)@ is Done,
        *final(conn) == *old(conn),
        final(conn).log() == old(conn).log(),
{
}

/// How many bytes the beginning of an integer lacks, as far as it tells.
pub open spec fn lacks(bytes: Seq<u8>) -> int {
    if bytes.len() == 0 {
        1
    } else if bytes[0] < 0x40 {
        1 - bytes.len()
    } else if bytes[0] < 0x80 {
        2 - bytes.len()
    } else if bytes[0] < 0xc0 {
        4 - bytes.len()
    } else {
        8 - bytes.len()
    }
}

/// Whether `bytes` are the first integer of a WebTransport stream, and then `rest`.
pub open spec fn opens_session(
    stream_id: u64,
    bytes: Seq<u8>,
    first: Seq<u8>,
    rest: Seq<u8>,
) -> bool {
    &&& bytes == first + rest
    &&& stream_id % 4 >= 2 ==> spells(first, 0x54)
    &&& stream_id % 4 < 2 ==> spells(first, 0x41)
}

proof fn lemma_opens_session(
    stream_id: u64,
    bytes: Seq<u8>,
    first: Seq<u8>,
    rest: Seq<u8>,
    other_first: Seq<u8>,
    other_rest: Seq<u8>,
)
    requires
        opens_session(stream_id, bytes, first, rest),
    ensures
        !cut_off(bytes),
        opens_session(stream_id, bytes, other_first, other_rest) ==> rest == other_rest,
{
    assert(bytes[0] == first[0]);
    if opens_session(stream_id, bytes, other_first, other_rest) {
        assert(bytes[0] == other_first[0]);
        assert(first.len() == other_first.len());
        assert(rest =~= bytes.skip(first.len() as int));
        assert(other_rest =~= bytes.skip(first.len() as int));
    }
}

/// Whether a reader of the stream that has read `bytes` in all is in the middle of an integer:
/// the first one, or that of the session.
#[verifier::opaque]
pub open spec fn in_the_middle(stream_id: u64, bytes: Seq<u8>, state: ReaderState) -> bool {
    let first = bytes.take(bytes.len() - state.read().len());
    match state {
        ReaderState::ReadType { read, stream_id: id } => {
            read == bytes && id == stream_id && cut_off(bytes)
        },
        ReaderState::ReadWtSessionId { read, stream_id: id } => {
            id == stream_id && opens_session(stream_id, bytes, first, read) && cut_off(read)
        },
        ReaderState::Done => false,
    }
}

proof fn lemma_middle_step(stream_id: u64, bytes: Seq<u8>, state: ReaderState, reply: Reply)
    requires
        in_the_middle(stream_id, bytes, state),
        data_of(reply).len() <= state.wanted(),
        state.step(reply).1 is None,
    ensures
        in_the_middle(stream_id, bytes + data_of(reply), state.step(reply).0),
{
    reveal(in_the_middle);
    let now = state.read() + data_of(reply);
    let all = bytes + data_of(reply);
    lemma_cut_off(state.read());
    lemma_quiet_adds(state, reply);
    lemma_cut_off(now);
    if state is ReadType {
        assert(now == all);
        if is_varint(now) {
            lemma_spells(now, 0x54);
            lemma_spells(now, 0x41);
            assert(all.take(all.len() as int) =~= all);
            assert(all =~= all + Seq::<u8>::empty());
        }
    } else {
        let first = bytes.take(bytes.len() - state.read().len());
        assert(all.take(all.len() - now.len()) =~= first);
        assert(all =~= first + now);
    }
}

/// What a reader that reads the first integer has come to, as long as there is nothing to tell.
#[verifier::spinoff_prover]
#[verifier::rlimit(60)]
proof fn lemma_quiet_from_type(stream_id: u64, read: Seq<u8>, replies: Seq<Reply>)
    requires
        cut_off(read),
        all_fit(ReaderState::ReadType { read, stream_id }, replies),
        quiet(ReaderState::ReadType { read, stream_id }, replies),
    ensures
        in_the_middle(
            stream_id,
            read + handed_out(replies),
            after(ReaderState::ReadType { read, stream_id }, replies),
        ),
    decreases replies.len(),
{
    let start = ReaderState::ReadType { read, stream_id };
    if replies.len() == 0 {
        reveal(in_the_middle);
        assert(read + handed_out(replies) =~= read);
    } else {
        let prior = replies.drop_last();
        lemma_asks_front(start, replies);
        lemma_quiet_front(start, replies);
        lemma_quiet_from_type(stream_id, read, prior);
        assert(replies.take(replies.len() - 1) =~= prior);
        assert(fits(start, replies, replies.len() - 1));
        lemma_middle_step(
            stream_id,
            read + handed_out(prior),
            after(start, prior),
            replies.last(),
        );
        assert((read + handed_out(prior)) + data_of(replies.last()) =~= read + handed_out(replies));
    }
}

/// An answer after which there is nothing to tell brings bytes of the integer at hand, and either
/// leaves it incomplete or completes the first integer of a WebTransport stream.
proof fn lemma_quiet_adds(state: ReaderState, reply: Reply)
    requires
        state.wf(),
        !(state is Done),
        data_of(reply).len() <= state.wanted(),
        state.step(reply).1 is None,
    ensures
        reply matches Ok((data, fin)) && data.len() > 0 && !fin,
        ({
            let now = state.read() + data_of(reply);
            let next = state.step(reply).0;
            ||| next == state.with_read(now) && is_varint_prefix(now) && !is_varint(now)
            ||| {
                &&& state is ReadType
                &&& is_varint(now)
                &&& varint_value(now) == if state.stream_id() % 4 >= 2 {
                    0x54nat
                } else {
                    0x41nat
                }
                &&& next == (ReaderState::ReadWtSessionId {
                    read: Seq::empty(),
                    stream_id: state.stream_id(),
                })
            }
        }),
{
    let now = state.read() + data_of(reply);
    if state.read().len() > 0 {
        assert(now[0] == state.read()[0]);
    }
    if is_varint(now) {
        lemma_varint_value_bound(now);
    }
}

#[verifier::spinoff_prover]
#[verifier::rlimit(60)]
proof fn lemma_requests<C: Connection>(
    conn: C,
    stream_id: u64,
    read: Seq<u8>,
    replies: Seq<Reply>,
    next: C,
    end: ReaderState,
    told: Res<Option<NewStreamType>>,
    i: int,
)
    requires
        exchange(
            conn,
            ReaderState::ReadType { read, stream_id },
            replies,
            next,
            end,
            told,
        ),
        cut_off(read),
        0 <= i < since(conn, next).len(),
    ensures
        ({
            let log = since(conn, next);
            let bytes = read + taken_from(log.take(i), stream_id);
            &&& log[i].stream_id == stream_id
            &&& cut_off(bytes) ==> log[i].max == lacks(bytes)
            &&& forall|first: Seq<u8>, rest: Seq<u8>| #[trigger]
                opens_session(stream_id, bytes, first, rest) ==> cut_off(rest) && log[i].max
                    == lacks(rest)
            &&& cut_off(bytes) || exists|first: Seq<u8>, rest: Seq<u8>| #[trigger]
                opens_session(stream_id, bytes, first, rest)
            &&& data_of(log[i].reply).len() <= log[i].max
            &&& i < log.len() - 1 ==> (log[i].reply matches Ok((data, fin)) && data.len() > 0
                && !fin)
        }),
{
    reveal(in_the_middle);
    let start = ReaderState::ReadType { read, stream_id };
    let log = since(conn, next);
    assert(log =~= asks(start, replies));
    let prior = replies.take(i);
    lemma_quiet_take(start, replies, i);
    assert forall|k: int| 0 <= k < i implies #[trigger] log.take(i)[k] == asks(
        start,
        prior,
    )[k] by {
        assert(prior.take(k) =~= replies.take(k));
    }
    assert(log.take(i) =~= asks(start, prior));
    lemma_taken(start, prior, stream_id);
    lemma_quiet_from_type(stream_id, read, prior);
    assert(fits(start, replies, i));
    let bytes = read + handed_out(prior);
    let state = state_at(start, replies, i);
    lemma_wf_at(start, replies, i);
    if state is ReadWtSessionId {
        let first = bytes.take(bytes.len() - state.read().len());
        assert(opens_session(stream_id, bytes, first, state.read()));
        lemma_opens_session(stream_id, bytes, first, state.read(), first, state.read());
        assert forall|other_first: Seq<u8>, rest: Seq<u8>| #[trigger]
            opens_session(stream_id, bytes, other_first, rest) implies rest == state.read() by {
            lemma_opens_session(stream_id, bytes, first, state.read(), other_first, rest);
        }
    } else {
        assert forall|first: Seq<u8>, rest: Seq<u8>| !#[trigger] opens_session(
            stream_id,
            bytes,
            first,
            rest,
        ) by {
            if opens_session(stream_id, bytes, first, rest) {
                lemma_opens_session(stream_id, bytes, first, rest, first, rest);
            }
        }
    }
    if i < replies.len() - 1 {
        let quiet_part = replies.drop_last();
        assert(quiet_part.take(i) =~= prior);
        assert(state_at(start, quiet_part, i).step(quiet_part[i]).1 is None);
        lemma_quiet_adds(state, replies[i]);
    }
}

/// A reader that reads the first integer asks for bytes of its own stream alone, and for as many
/// as the integer at hand lacks: the first one, and that of the session if the first one is that
/// of a WebTransport stream. It asks again only after an answer that brought bytes and did not end
/// the stream.
pub proof fn law_requests_are_for_what_is_missing<C: Connection>(
    reader: &mut NewStreamTypeReader,
    conn: &mut C,
    res: Res<ReceiveOutput>,
    stream_id: u64,
    read: Seq<u8>,
    i: int,
)
    requires
        call_ensures(NewStreamTypeReader::receive::<C>, (reader, conn), res),
        old(reader)@ == (ReaderState::ReadType { read, stream_id }),
        cut_off(read),
        0 <= i < since(*old(conn), *final(conn)).len(),
    ensures
        ({
            let log = since(*old(conn), *final(conn));
            let bytes = read + taken_from(log.take(i), stream_id);
            &&& log[i].stream_id == stream_id
            &&& cut_off(bytes) ==> log[i].max == lacks(bytes)
            &&& forall|first: Seq<u8>, rest: Seq<u8>| #[trigger]
                opens_session(stream_id, bytes, first, rest) ==> cut_off(rest) && log[i].max
                    == lacks(rest)
            &&& cut_off(bytes) || exists|first: Seq<u8>, rest: Seq<u8>| #[trigger]
                opens_session(stream_id, bytes, first, rest)
            &&& data_of(log[i].reply).len() <= log[i].max
            &&& i < log.len() - 1 ==> (log[i].reply matches Ok((data, fin)) && data.len() > 0
                && !fin)
        }),
{
    let (replies, told) = choose|replies: Seq<Reply>, told: Res<Option<NewStreamType>>| #[trigger]
        exchange(*old(conn), old(reader)@, replies, *final(conn), final(reader)@, told) && res
            == received(told);
    lemma_requests(
        *old(conn),
        stream_id,
        read,
        replies,
        *final(conn),
        final(reader)@,
        told,
        i,
    );
}

/// The same for what is found.
pub proof fn law_requests_are_for_what_is_missing_to_find<C: Connection>(
    reader: &mut NewStreamTypeReader,
    conn: &mut C,
    told: Res<Option<NewStreamType>>,
    stream_id: u64,
    read: Seq<u8>,
    i: int,
)
    requires
        call_ensures(NewStreamTypeReader::get_type::<C>, (reader, conn), told),
        old(reader)@ == (ReaderState::ReadType { read, stream_id }),
        cut_off(read),
        0 <= i < since(*old(conn), *final(conn)).len(),
    ensures
        ({
            let log = since(*old(conn), *final(conn));
            let bytes = read + taken_from(log.take(i), stream_id);
            &&& log[i].stream_id == stream_id
            &&& cut_off(bytes) ==> log[i].max == lacks(bytes)
            &&& forall|first: Seq<u8>, rest: Seq<u8>| #[trigger]
                opens_session(stream_id, bytes, first, rest) ==> cut_off(rest) && log[i].max
                    == lacks(rest)
            &&& cut_off(bytes) || exists|first: Seq<u8>, rest: Seq<u8>| #[trigger]
                opens_session(stream_id, bytes, first, rest)
            &&& data_of(log[i].reply).len() <= log[i].max
            &&& i < log.len() - 1 ==> (log[i].reply matches Ok((data, fin)) && data.len() > 0
                && !fin)
        }),
{
    let replies = choose|replies: Seq<Reply>| #[trigger]
        exchange(*old(conn), old(reader)@, replies, *final(conn), final(reader)@, told);
    lemma_requests(
        *old(conn),
        stream_id,
        read,
        replies,
        *final(conn),
        final(reader)@,
        told,
        i,
    );
}

/// A reader that reads the number of a session asks for bytes of its own stream alone, and for as
/// many as the number lacks.
pub proof fn law_requests_are_for_the_session<C: Connection>(
    reader: &mut NewStreamTypeReader,
    conn: &mut C,
    res: Res<ReceiveOutput>,
    stream_id: u64,
    read: Seq<u8>,
    i: int,
)
    requires
        call_ensures(NewStreamTypeReader::receive::<C>, (reader, conn), res),
        old(reader)@ == (ReaderState::ReadWtSessionId { read, stream_id }),
        cut_off(read),
        0 <= i < since(*old(conn), *final(conn)).len(),
    ensures
        ({
            let log = since(*old(conn), *final(conn));
            let bytes = read + taken_from(log.take(i), stream_id);
            &&& log[i].stream_id == stream_id
            &&& cut_off(bytes) && log[i].max == lacks(bytes)
            &&& data_of(log[i].reply).len() <= log[i].max
            &&& i < log.len() - 1 ==> (log[i].reply matches Ok((data, fin)) && data.len() > 0
                && !fin)
        }),
{
    let start = old(reader)@;
    let (replies, told) = choose|replies: Seq<Reply>, told: Res<Option<NewStreamType>>| #[trigger]
        exchange(*old(conn), start, replies, *final(conn), final(reader)@, told) && res == received(
            told,
        );
    let log = since(*old(conn), *final(conn));
    let prior = replies.take(i);
    assert(log =~= asks(start, replies));
    lemma_quiet_take(start, replies, i);
    assert forall|k: int| 0 <= k < i implies #[trigger] log.take(i)[k] == asks(
        start,
        prior,
    )[k] by {
        assert(prior.take(k) =~= replies.take(k));
    }
    assert(log.take(i) =~= asks(start, prior));
    lemma_taken(start, prior, stream_id);
    lemma_quiet_from_session(stream_id, read, prior);
    assert(fits(start, replies, i));
    lemma_cut_off(read + handed_out(prior));
    if i < replies.len() - 1 {
        let quiet_part = replies.drop_last();
        assert(quiet_part.take(i) =~= prior);
        assert(state_at(start, quiet_part, i).step(quiet_part[i]).1 is None);
        lemma_quiet_adds(state_at(start, replies, i), replies[i]);
    }
}

#[verifier::spinoff_prover]
#[verifier::rlimit(60)]
proof fn lemma_quiet_from_session(stream_id: u64, read: Seq<u8>, replies: Seq<Reply>)
    requires
        cut_off(read),
        all_fit(ReaderState::ReadWtSessionId { read, stream_id }, replies),
        quiet(ReaderState::ReadWtSessionId { read, stream_id }, replies),
    ensures
        after(ReaderState::ReadWtSessionId { read, stream_id }, replies) == (
        ReaderState::ReadWtSessionId { read: read + handed_out(replies), stream_id }),
        cut_off(read + handed_out(replies)),
    decreases replies.len(),
{
    let start = ReaderState::ReadWtSessionId { read, stream_id };
    if replies.len() == 0 {
        assert(read + handed_out(replies) =~= read);
    } else {
        let prior = replies.drop_last();
        lemma_asks_front(start, replies);
        lemma_quiet_front(start, replies);
        lemma_quiet_from_session(stream_id, read, prior);
        assert(replies.take(replies.len() - 1) =~= prior);
        assert(fits(start, replies, replies.len() - 1));
        lemma_cut_off(read + handed_out(prior));
        lemma_quiet_adds(after(start, prior), replies.last());
        assert((read + handed_out(prior)) + data_of(replies.last()) =~= read + handed_out(replies));
        lemma_cut_off(read + handed_out(replies));
    }
}

/// The answers before one of them.
proof fn lemma_quiet_take(start: ReaderState, replies: Seq<Reply>, i: int)
    requires
        0 <= i < replies.len(),
        all_fit(start, replies),
        quiet(start, replies.drop_last()),
    ensures
        all_fit(start, replies.take(i)),
        quiet(start, replies.take(i)),
{
    let prior = replies.take(i);
    let quiet_part = replies.drop_last();
    assert forall|k: int| 0 <= k < i implies #[trigger] fits(start, prior, k) by {
        assert(prior.take(k) =~= replies.take(k));
        assert(fits(start, replies, k));
    }
    assert forall|k: int| 0 <= k < i implies state_at(start, prior, k).step(
        #[trigger] prior[k],
    ).1 is None by {
        assert(prior.take(k) =~= quiet_part.take(k));
        assert(state_at(start, quiet_part, k).step(quiet_part[k]).1 is None);
    }
}

} // verus!
