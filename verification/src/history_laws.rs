//! What a reader of stream types has made of all that it was handed out.
use vstd::prelude::*;

use crate::call_laws::{lemma_concludes_end, lemma_same_stream};
use crate::error::{Error, Res};
use crate::reader_state::{
    after, all_fit, asked, asks, conclusion, data_of, exchange, fits, fresh, handed_out,
    lemma_after_concat, lemma_asks_front, lemma_handed_out_concat, lemma_state_at_concat, outcome,
    quiet, state_at, ReaderState,
};
use crate::recv_stream::NewStreamType;
use crate::stream_type::decoded_stream_type;
use crate::transport::{stream_type_of, Ask, Connection, Reply, TransportError};
use crate::varint::{
    is_varint, is_varint_prefix, lemma_varint_value_bound, varint_len, varint_missing,
    varint_value,
};

verus! {

/// Whether `data` holds the whole first integer of a stream and that integer says that the
/// number of a session follows.
pub open spec fn session_follows(stream_id: u64, data: Seq<u8>) -> bool {
    let len = varint_len(data[0]) as int;
    &&& 0 < data.len()
    &&& len <= data.len()
    &&& decoded_stream_type(varint_value(data.take(len)) as u64, stream_type_of(stream_id)) == Ok::<
        Option<NewStreamType>,
        Error,
    >(None)
}

/// What `data` holds behind the first integer of a stream.
pub open spec fn behind_type(data: Seq<u8>) -> Seq<u8> {
    data.skip(varint_len(data[0]) as int)
}

/// Whether a reader that has been handed out `data` can be in this state.
pub open spec fn has_read(stream_id: u64, data: Seq<u8>, state: ReaderState) -> bool {
    match state {
        ReaderState::ReadType { .. } => {
            &&& state.stream_id() == stream_id
            &&& state.read() == data
            &&& is_varint_prefix(data)
        },
        ReaderState::ReadWtSessionId { .. } => {
            &&& state.stream_id() == stream_id
            &&& session_follows(stream_id, data)
            &&& state.read() == behind_type(data)
            &&& is_varint_prefix(behind_type(data))
        },
        ReaderState::Done => {
            ||| is_varint_prefix(data)
            ||| session_follows(stream_id, data) && is_varint_prefix(behind_type(data))
        },
    }
}

/// One answer more: the state stays what the bytes handed out make it, and a type that is told
/// is the one that exactly these bytes spell out.
proof fn lemma_has_read_step(stream_id: u64, data: Seq<u8>, state: ReaderState, reply: Reply)
    requires
        has_read(stream_id, data, state),
        !(state is Done),
        data_of(reply).len() <= state.wanted(),
    ensures
        has_read(stream_id, data + data_of(reply), state.step(reply).0),
        state.step(reply).1 matches Some(Ok(Some(told))) ==> spelled_out(
            stream_id,
            data + data_of(reply),
            told,
        ),
{
    let more = data_of(reply);
    let all = data + more;
    let read = state.read() + more;
    if more.len() == 0 {
        assert(all =~= data);
        assert(read =~= state.read());
        assert(state.with_read(read) == state);
    } else {
        if data.len() > 0 {
            assert(all[0] == data[0]);
        }
        if state is ReadType {
            assert(read == all);
            assert(all.take(all.len() as int) =~= all);
            assert(all.skip(all.len() as int) =~= Seq::<u8>::empty());
        } else {
            let len = varint_len(data[0]) as int;
            assert(all.take(len) =~= data.take(len));
            assert(behind_type(all) =~= read);
            if behind_type(data).len() > 0 {
                assert(read[0] == behind_type(data)[0]);
            }
            if is_varint(read) {
                lemma_varint_value_bound(read);
            }
        }
    }
}

/// Whether `data` is, to the last byte, what says that the stream is for `told`.
pub open spec fn spelled_out(stream_id: u64, data: Seq<u8>, told: NewStreamType) -> bool {
    match told {
        NewStreamType::WebTransportStream(session) => {
            &&& session_follows(stream_id, data)
            &&& is_varint(behind_type(data))
            &&& session == varint_value(behind_type(data))
        },
        _ => {
            &&& is_varint(data)
            &&& decoded_stream_type(varint_value(data) as u64, stream_type_of(stream_id)) == Ok::<
                Option<NewStreamType>,
                Error,
            >(Some(told))
        },
    }
}

/// The state of a reader is what the bytes handed out to it since it was made make it, in
/// however many answers and calls, and no byte is among them that lies behind the integers that
/// say what the stream is for.
pub proof fn law_state_is_what_was_read(stream_id: u64, replies: Seq<Reply>)
    requires
        all_fit(fresh(stream_id), replies),
    ensures
        has_read(stream_id, handed_out(replies), after(fresh(stream_id), replies)),
    decreases replies.len(),
{
    if replies.len() > 0 {
        let prior = replies.drop_last();
        let last = replies.len() - 1;
        assert forall|i: int| 0 <= i < prior.len() implies #[trigger] fits(
            fresh(stream_id),
            prior,
            i,
        ) by {
            assert(prior.take(i) =~= replies.take(i));
            assert(fits(fresh(stream_id), replies, i));
        }
        law_state_is_what_was_read(stream_id, prior);
        assert(replies.take(last) =~= prior);
        assert(fits(fresh(stream_id), replies, last));
        lemma_has_read_step(
            stream_id,
            handed_out(prior),
            after(fresh(stream_id), prior),
            replies.last(),
        );
    }
}

/// What is told is what the bytes say: when a reader tells what a stream is for, the bytes
/// handed out to it since it was made are, to the last one, the integers that say so.
pub proof fn law_told_type_was_spelled_out(
    stream_id: u64,
    replies: Seq<Reply>,
    told: NewStreamType,
)
    requires
        replies.len() > 0,
        all_fit(fresh(stream_id), replies),
        conclusion(fresh(stream_id), replies).1 == Some(
            Ok::<Option<NewStreamType>, Error>(Some(told)),
        ),
    ensures
        spelled_out(stream_id, handed_out(replies), told),
{
    let prior = replies.drop_last();
    let last = replies.len() - 1;
    assert forall|i: int| 0 <= i < prior.len() implies #[trigger] fits(
        fresh(stream_id),
        prior,
        i,
    ) by {
        assert(prior.take(i) =~= replies.take(i));
        assert(fits(fresh(stream_id), replies, i));
    }
    law_state_is_what_was_read(stream_id, prior);
    assert(replies.take(last) =~= prior);
    assert(fits(fresh(stream_id), replies, last));
    lemma_has_read_step(
        stream_id,
        handed_out(prior),
        after(fresh(stream_id), prior),
        replies.last(),
    );
}

/// The answers come to a reader that asks, stay within what it asks for and do not end the
/// stream. They may bring no byte, or be errors of the transport.
pub open spec fn going_on(stream_id: u64, replies: Seq<Reply>) -> bool {
    forall|i: int|
        0 <= i < replies.len() ==> {
            &&& fits(fresh(stream_id), replies, i)
            &&& (#[trigger] replies[i] matches Ok((_, fin)) ==> !fin)
        }
}

/// Whether what is told says nothing of the stream itself.
pub open spec fn says_nothing(told: Option<Res<Option<NewStreamType>>>) -> bool {
    match told {
        None => true,
        Some(Ok(found)) => found is None,
        Some(Err(error)) => error is TransportError,
    }
}

/// Whether after none of the answers anything is told of the stream itself.
pub open spec fn nothing_said(start: ReaderState, replies: Seq<Reply>) -> bool {
    forall|i: int|
        0 <= i < replies.len() ==> says_nothing(
            state_at(start, replies, i).step(#[trigger] replies[i]).1,
        )
}

#[verifier::spinoff_prover]
#[verifier::rlimit(60)]
proof fn lemma_going_on_front(stream_id: u64, replies: Seq<Reply>)
    requires
        replies.len() > 0,
        going_on(stream_id, replies),
    ensures
        going_on(stream_id, replies.drop_last()),
        !(after(fresh(stream_id), replies.drop_last()) is Done),
        data_of(replies.last()).len() <= after(fresh(stream_id), replies.drop_last()).wanted(),
        replies.last() matches Ok((_, fin)) ==> !fin,
{
    let prior = replies.drop_last();
    let last = replies.len() - 1;
    assert(replies[last] == replies.last());
    assert(replies.take(last) =~= prior);
    assert forall|i: int| 0 <= i < prior.len() implies fits(fresh(stream_id), prior, i) && (
    #[trigger] prior[i] matches Ok((_, fin)) ==> !fin) by {
        assert(prior[i] == replies[i]);
        assert(prior.take(i) =~= replies.take(i));
    }
}

proof fn lemma_nothing_said_push(start: ReaderState, replies: Seq<Reply>)
    requires
        replies.len() > 0,
        nothing_said(start, replies.drop_last()),
        says_nothing(conclusion(start, replies).1),
    ensures
        nothing_said(start, replies),
{
    let prior = replies.drop_last();
    assert forall|i: int| 0 <= i < replies.len() implies says_nothing(
        state_at(start, replies, i).step(#[trigger] replies[i]).1,
    ) by {
        if i < prior.len() {
            assert(prior[i] == replies[i]);
            assert(prior.take(i) =~= replies.take(i));
        } else {
            assert(replies.take(i) =~= prior);
        }
    }
}

/// One answer that leaves the integer at hand incomplete.
proof fn lemma_still_incomplete(state: ReaderState, reply: Reply)
    requires
        !(state is Done),
        reply matches Ok((_, fin)) ==> !fin,
        !is_varint(state.read() + data_of(reply)),
    ensures
        state.step(reply).0 == state.with_read(state.read() + data_of(reply)),
        says_nothing(state.step(reply).1),
{
    assert(reply is Err ==> state.read() + data_of(reply) =~= state.read());
    assert(state.with_read(state.read()) == state);
}

proof fn lemma_type_incomplete(stream_id: u64, replies: Seq<Reply>)
    requires
        going_on(stream_id, replies),
        is_varint_prefix(handed_out(replies)),
        !is_varint(handed_out(replies)),
    ensures
        after(fresh(stream_id), replies) == (ReaderState::ReadType {
            read: handed_out(replies),
            stream_id,
        }),
        nothing_said(fresh(stream_id), replies),
    decreases replies.len(),
{
    if replies.len() > 0 {
        let prior = replies.drop_last();
        let data = handed_out(replies);
        let before = handed_out(prior);
        lemma_going_on_front(stream_id, replies);
        if before.len() > 0 {
            assert(data[0] == before[0]);
        }
        lemma_type_incomplete(stream_id, prior);
        lemma_still_incomplete(after(fresh(stream_id), prior), replies.last());
        lemma_nothing_said_push(fresh(stream_id), replies);
    }
}

/// The first integer on a stream decides, in however many calls its bytes are read, and
/// however often no byte is there or the transport fails in between: before its last byte
/// nothing is told of the stream, and with it what the integer makes of the stream.
pub proof fn law_type_is_read_over_calls(
    stream_id: u64,
    replies: Seq<Reply>,
    data: Seq<u8>,
    fin: bool,
)
    requires
        going_on(stream_id, replies),
        data.len() > 0,
        is_varint(handed_out(replies) + data),
    ensures
        nothing_said(fresh(stream_id), replies),
        after(fresh(stream_id), replies).step(Ok((data, fin))) == outcome(
            fresh(stream_id),
            handed_out(replies) + data,
            fin,
        ),
{
    let before = handed_out(replies);
    if before.len() > 0 {
        assert((before + data)[0] == before[0]);
    }
    lemma_type_incomplete(stream_id, replies);
}

/// Whether `data` is the first integer of a WebTransport stream and then `rest`.
pub open spec fn leads_session(
    stream_id: u64,
    data: Seq<u8>,
    first: Seq<u8>,
    rest: Seq<u8>,
) -> bool {
    &&& data == first + rest
    &&& is_varint(first)
    &&& decoded_stream_type(varint_value(first) as u64, stream_type_of(stream_id)) == Ok::<
        Option<NewStreamType>,
        Error,
    >(None)
}

proof fn lemma_session_begins(stream_id: u64, before: Seq<u8>, reply: Reply)
    requires
        reply matches Ok((_, fin)) ==> !fin,
        data_of(reply).len() > 0,
        leads_session(stream_id, before + data_of(reply), before + data_of(reply), Seq::empty()),
    ensures
        (ReaderState::ReadType { read: before, stream_id }).step(reply) == (
            ReaderState::ReadWtSessionId { read: Seq::empty(), stream_id },
            None::<Res<Option<NewStreamType>>>,
        ),
{
}

proof fn lemma_rest(before: Seq<u8>, more: Seq<u8>, first: Seq<u8>, rest: Seq<u8>)
    requires
        before + more == first + rest,
        before.len() >= first.len(),
    ensures
        before == first + rest.take(before.len() - first.len()),
        rest.take(before.len() - first.len()) + more == rest,
{
    let data = before + more;
    assert(before =~= data.take(before.len() as int));
    assert(more =~= data.skip(before.len() as int));
    assert(rest =~= data.skip(first.len() as int));
    assert(before =~= first + rest.take(before.len() - first.len()));
    assert(rest.take(before.len() - first.len()) + more =~= rest);
}

proof fn lemma_session_incomplete(
    stream_id: u64,
    replies: Seq<Reply>,
    first: Seq<u8>,
    rest: Seq<u8>,
)
    requires
        going_on(stream_id, replies),
        leads_session(stream_id, handed_out(replies), first, rest),
        is_varint_prefix(rest),
        !is_varint(rest),
    ensures
        after(fresh(stream_id), replies) == (ReaderState::ReadWtSessionId {
            read: rest,
            stream_id,
        }),
        nothing_said(fresh(stream_id), replies),
    decreases replies.len(),
{
    if replies.len() > 0 {
        let prior = replies.drop_last();
        let data = handed_out(replies);
        let more = data_of(replies.last());
        let before = handed_out(prior);
        let state = after(fresh(stream_id), prior);
        lemma_going_on_front(stream_id, replies);
        assert(data[0] == first[0]);
        if before.len() > 0 {
            assert(data[0] == before[0]);
        }
        if before.len() < first.len() {
            // The first integer is not complete before the last answer.
            lemma_type_incomplete(stream_id, prior);
            assert(rest =~= Seq::<u8>::empty());
            assert(data =~= first);
            lemma_session_begins(stream_id, before, replies.last());
        } else {
            let shorter = rest.take(before.len() - first.len());
            lemma_rest(before, more, first, rest);
            if shorter.len() > 0 {
                assert(shorter[0] == rest[0]);
            }
            lemma_session_incomplete(stream_id, prior, first, shorter);
            lemma_still_incomplete(state, replies.last());
        }
        lemma_nothing_said_push(fresh(stream_id), replies);
    } else {
        assert(handed_out(replies).len() == 0);
        assert((first + rest).len() > 0);
    }
}

/// The number of a session is read in however many calls, and however often no byte is there
/// or the transport fails in between: before its last byte nothing is told of the stream, and
/// with it the session that the stream belongs to.
pub proof fn law_session_is_read_over_calls(
    stream_id: u64,
    replies: Seq<Reply>,
    first: Seq<u8>,
    rest: Seq<u8>,
    data: Seq<u8>,
    fin: bool,
)
    requires
        going_on(stream_id, replies),
        leads_session(stream_id, handed_out(replies), first, rest),
        data.len() > 0,
        is_varint(rest + data),
    ensures
        nothing_said(fresh(stream_id), replies),
        after(fresh(stream_id), replies).step(Ok((data, fin))) == (
            ReaderState::Done,
            Some(
                Ok::<Option<NewStreamType>, Error>(
                    Some(NewStreamType::WebTransportStream(varint_value(rest + data) as u64)),
                ),
            ),
        ),
{
    if rest.len() > 0 {
        assert((rest + data)[0] == rest[0]);
    }
    lemma_session_incomplete(stream_id, replies, first, rest);
}

/// The bytes that a connection has handed out of one stream.
pub open spec fn taken_from(log: Seq<Ask>, stream_id: u64) -> Seq<u8>
    decreases log.len(),
{
    if log.len() == 0 {
        Seq::empty()
    } else {
        let before = taken_from(log.drop_last(), stream_id);
        if log.last().stream_id == stream_id {
            before + data_of(log.last().reply)
        } else {
            before
        }
    }
}

/// What was asked for since `conn`, up to `next`.
pub open spec fn since<C: Connection>(conn: C, next: C) -> Seq<Ask> {
    next.log().skip(conn.log().len() as int)
}

pub proof fn lemma_taken(start: ReaderState, replies: Seq<Reply>, stream_id: u64)
    requires
        all_fit(start, replies),
    ensures
        taken_from(asks(start, replies), stream_id) == (if stream_id == start.stream_id() {
            handed_out(replies)
        } else {
            Seq::empty()
        }),
    decreases replies.len(),
{
    if replies.len() > 0 {
        let prior = replies.drop_last();
        let last = replies.len() - 1;
        lemma_asks_front(start, replies);
        lemma_taken(start, prior, stream_id);
        lemma_same_stream(start, replies, last);
        assert(replies.take(last) =~= prior);
    }
}

/// The bytes that the answers hand out are all that is taken from the reader's stream, and
/// nothing is taken from any other stream.
pub proof fn law_nothing_else_is_taken<C: Connection>(
    conn: C,
    start: ReaderState,
    replies: Seq<Reply>,
    next: C,
    other: u64,
)
    requires
        asked(conn, start, replies, next),
        other != start.stream_id(),
    ensures
        taken_from(since(conn, next), start.stream_id()) == handed_out(replies),
        taken_from(since(conn, next), other) == Seq::<u8>::empty(),
{
    assert(since(conn, next) =~= asks(start, replies));
    lemma_taken(start, replies, start.stream_id());
    lemma_taken(start, replies, other);
}

/// The answers in one call come after the answers in the calls before it, whatever has happened
/// to the connection in between.
pub proof fn law_call_follows_history<C: Connection>(
    start: ReaderState,
    history: Seq<Reply>,
    conn: C,
    replies: Seq<Reply>,
    next: C,
    end: ReaderState,
    res: Res<Option<NewStreamType>>,
)
    requires
        all_fit(start, history),
        exchange(conn, after(start, history), replies, next, end, res),
    ensures
        all_fit(start, history + replies),
        end == after(start, history + replies),
        handed_out(history + replies) == handed_out(history) + handed_out(replies),
{
    let all = history + replies;
    let then = after(start, history);
    assert forall|i: int| 0 <= i < all.len() implies #[trigger] fits(start, all, i) by {
        lemma_state_at_concat(start, history, replies, i);
        if i < history.len() {
            assert(all[i] == history[i]);
            assert(fits(start, history, i));
        } else {
            assert(all[i] == replies[i - history.len()]);
            assert(fits(then, replies, i - history.len()));
        }
    }
    lemma_concludes_end(then, replies, end, res);
    lemma_after_concat(start, history, replies);
    lemma_handed_out_concat(history, replies);
}

/// A call that tells what the stream is for has, together with the calls before it, taken from
/// the stream the integers that say so, to the last byte and no byte more.
pub proof fn law_told_type_is_all_that_was_taken<C: Connection>(
    stream_id: u64,
    history: Seq<Reply>,
    conn: C,
    replies: Seq<Reply>,
    next: C,
    end: ReaderState,
    told: NewStreamType,
)
    requires
        all_fit(fresh(stream_id), history),
        exchange(conn, after(fresh(stream_id), history), replies, next, end, Ok(Some(told))),
    ensures
        spelled_out(
            stream_id,
            handed_out(history) + taken_from(since(conn, next), stream_id),
            told,
        ),
{
    let then = after(fresh(stream_id), history);
    let all = history + replies;
    law_call_follows_history(fresh(stream_id), history, conn, replies, next, end, Ok(Some(told)));
    assert(all.drop_last() =~= history + replies.drop_last());
    lemma_after_concat(fresh(stream_id), history, replies.drop_last());
    law_told_type_was_spelled_out(stream_id, all, told);
    assert(fits(then, replies, 0));
    assert(replies.take(0) =~= Seq::<Reply>::empty());
    law_state_is_what_was_read(stream_id, history);
    assert(since(conn, next) =~= asks(then, replies));
    lemma_taken(then, replies, stream_id);
}

/// The state of a reader that has been handed out `data` by a stream that goes on.
pub open spec fn fed(stream_id: u64, data: Seq<u8>) -> ReaderState {
    if session_follows(stream_id, data) {
        if is_varint(behind_type(data)) {
            ReaderState::Done
        } else {
            ReaderState::ReadWtSessionId { read: behind_type(data), stream_id }
        }
    } else if is_varint(data) && decoded_stream_type(
        varint_value(data) as u64,
        stream_type_of(stream_id),
    ) is Ok {
        ReaderState::Done
    } else {
        ReaderState::ReadType { read: data, stream_id }
    }
}

proof fn lemma_fed_type(stream_id: u64, data: Seq<u8>, reply: Reply)
    requires
        is_varint_prefix(data),
        !session_follows(stream_id, data),
        data_of(reply).len() <= varint_missing(data),
        reply matches Ok((_, fin)) ==> !fin,
    ensures
        (ReaderState::ReadType { read: data, stream_id }).step(reply).0 == fed(
            stream_id,
            data + data_of(reply),
        ) || fed(stream_id, data) is Done,
{
    let state = ReaderState::ReadType { read: data, stream_id };
    let more = data_of(reply);
    let all = data + more;
    if more.len() == 0 {
        assert(all =~= data);
        assert(state.with_read(data) == state);
    } else {
        if data.len() > 0 {
            assert(all[0] == data[0]);
        }
        assert(all.take(all.len() as int) =~= all);
        assert(all.skip(all.len() as int) =~= Seq::<u8>::empty());
    }
}

proof fn lemma_fed_session(stream_id: u64, data: Seq<u8>, reply: Reply)
    requires
        session_follows(stream_id, data),
        !is_varint(behind_type(data)),
        is_varint_prefix(behind_type(data)),
        data_of(reply).len() <= varint_missing(behind_type(data)),
        reply matches Ok((_, fin)) ==> !fin,
    ensures
        (ReaderState::ReadWtSessionId { read: behind_type(data), stream_id }).step(reply).0 == fed(
            stream_id,
            data + data_of(reply),
        ),
{
    let state = ReaderState::ReadWtSessionId { read: behind_type(data), stream_id };
    let more = data_of(reply);
    let all = data + more;
    let len = varint_len(data[0]) as int;
    if more.len() == 0 {
        assert(all =~= data);
        assert(behind_type(data) + more =~= behind_type(data));
    } else {
        assert(all[0] == data[0]);
        assert(all.take(len) =~= data.take(len));
        assert(behind_type(all) =~= behind_type(data) + more);
    }
}

/// Only the bytes count: two readers of one stream that have been handed out the same bytes are
/// in the same state, however the bytes were cut into answers and calls, and however often
/// there was no byte or the transport failed in between.
pub proof fn law_only_the_bytes_count(stream_id: u64, replies: Seq<Reply>)
    requires
        going_on(stream_id, replies),
    ensures
        after(fresh(stream_id), replies) == fed(stream_id, handed_out(replies)),
    decreases replies.len(),
{
    if replies.len() > 0 {
        let prior = replies.drop_last();
        let data = handed_out(prior);
        lemma_going_on_front(stream_id, replies);
        law_only_the_bytes_count(stream_id, prior);
        lemma_going_on_fits(stream_id, prior);
        law_state_is_what_was_read(stream_id, prior);
        if session_follows(stream_id, data) {
            lemma_fed_session(stream_id, data, replies.last());
        } else {
            lemma_fed_type(stream_id, data, replies.last());
        }
    } else {
        assert(handed_out(replies).len() == 0);
    }
}

/// Whether all of the answers bring bytes, or none, but no error and no end of the stream.
pub open spec fn arriving(replies: Seq<Reply>) -> bool {
    forall|i: int| 0 <= i < replies.len() ==> (#[trigger] replies[i] matches Ok((_, fin)) && !fin)
}

/// Whether `data` is a proper beginning of the integers that say what a stream is for.
pub open spec fn incomplete(stream_id: u64, data: Seq<u8>) -> bool {
    ||| is_varint_prefix(data) && !is_varint(data)
    ||| session_follows(stream_id, data) && is_varint_prefix(behind_type(data)) && !is_varint(
        behind_type(data),
    )
}

/// Before the last byte nothing is found out: as long as what has arrived, in this call and in
/// those before it, is only the beginning of what says what the stream is for, a call finds out
/// nothing and the reader is not done.
#[verifier::spinoff_prover]
#[verifier::rlimit(60)]
pub proof fn law_call_waits_for_the_last_byte<C: Connection>(
    stream_id: u64,
    history: Seq<Reply>,
    conn: C,
    replies: Seq<Reply>,
    next: C,
    end: ReaderState,
    res: Res<Option<NewStreamType>>,
)
    requires
        going_on(stream_id, history),
        arriving(replies),
        exchange(conn, after(fresh(stream_id), history), replies, next, end, res),
        incomplete(stream_id, handed_out(history) + handed_out(replies)),
    ensures
        res == Ok::<Option<NewStreamType>, Error>(None),
        end == fed(stream_id, handed_out(history) + handed_out(replies)),
        !(end is Done),
{
    let all = history + replies;
    let then = after(fresh(stream_id), history);
    lemma_going_on_fits(stream_id, history);
    law_call_follows_history(fresh(stream_id), history, conn, replies, next, end, res);
    lemma_going_on_concat(stream_id, history, replies);
    law_only_the_bytes_count(stream_id, all);
    if then is Done {
        assert(all =~= history);
    } else {
        assert(replies[replies.len() - 1] == replies.last());
        lemma_told_nothing(after(then, replies.drop_last()), replies.last());
    }
}

proof fn lemma_told_nothing(state: ReaderState, reply: Reply)
    requires
        reply matches Ok((_, fin)) && !fin,
        state.step(reply).1 is Some,
        !(state.step(reply).0 is Done),
        !(state.step(reply).1 matches Some(Err(_))),
    ensures
        state.step(reply).1 == Some(Ok::<Option<NewStreamType>, Error>(None)),
{
}

proof fn lemma_going_on_fits(stream_id: u64, replies: Seq<Reply>)
    requires
        going_on(stream_id, replies),
    ensures
        all_fit(fresh(stream_id), replies),
{
    assert forall|i: int| 0 <= i < replies.len() implies #[trigger] fits(
        fresh(stream_id),
        replies,
        i,
    ) by {
        assert(replies[i] == replies[i]);
    }
}

/// All answers in a call but the last go on with the stream.
proof fn lemma_call_goes_on<C: Connection>(
    stream_id: u64,
    history: Seq<Reply>,
    conn: C,
    replies: Seq<Reply>,
    next: C,
    end: ReaderState,
    res: Res<Option<NewStreamType>>,
)
    requires
        going_on(stream_id, history),
        replies.len() > 0,
        exchange(conn, after(fresh(stream_id), history), replies, next, end, res),
    ensures
        ({
            let prior = history + replies.drop_last();
            &&& going_on(stream_id, prior)
            &&& handed_out(prior) + data_of(replies.last()) == handed_out(history) + handed_out(
                replies,
            )
            &&& !(after(fresh(stream_id), prior) is Done)
            &&& data_of(replies.last()).len() <= after(fresh(stream_id), prior).wanted()
            &&& after(fresh(stream_id), prior).step(replies.last()) == (end, Some(res))
        }),
{
    let all = history + replies;
    let last = replies.drop_last();
    let prior = history + last;
    let then = after(fresh(stream_id), history);
    lemma_going_on_fits(stream_id, history);
    law_call_follows_history(fresh(stream_id), history, conn, replies, next, end, res);
    lemma_after_concat(fresh(stream_id), history, last);
    assert(all.drop_last() =~= prior);
    assert(all.last() == replies.last());
    assert(all.take(all.len() - 1) =~= prior);
    assert(fits(fresh(stream_id), all, all.len() - 1));
    lemma_asks_front(fresh(stream_id), all);
    lemma_quiet_arrives(then, last);
    lemma_going_on_concat(stream_id, history, last);
}

proof fn lemma_quiet_step(state: ReaderState, reply: Reply)
    requires
        state.step(reply).1 is None,
    ensures
        reply matches Ok((_, fin)) && !fin,
{
}

proof fn lemma_quiet_arrives(start: ReaderState, replies: Seq<Reply>)
    requires
        quiet(start, replies),
    ensures
        arriving(replies),
{
    assert forall|i: int| 0 <= i < replies.len() implies (
    #[trigger] replies[i] matches Ok((_, fin)) && !fin) by {
        lemma_quiet_step(state_at(start, replies, i), replies[i]);
    }
}

proof fn lemma_going_on_concat(stream_id: u64, history: Seq<Reply>, replies: Seq<Reply>)
    requires
        going_on(stream_id, history),
        arriving(replies),
        all_fit(fresh(stream_id), history + replies),
    ensures
        going_on(stream_id, history + replies),
{
    let all = history + replies;
    assert forall|i: int| 0 <= i < all.len() implies fits(fresh(stream_id), all, i) && (
    #[trigger] all[i] matches Ok((_, fin)) ==> !fin) by {
        assert(fits(fresh(stream_id), all, i));
        if i < history.len() {
            assert(all[i] == history[i]);
        } else {
            assert(all[i] == replies[i - history.len()]);
        }
    }
}

/// With the last byte it is found out what the stream is for: a call whose last answer brings
/// the last byte of the first integer gives what that integer makes of the stream.
pub proof fn law_call_tells_with_the_last_byte<C: Connection>(
    stream_id: u64,
    history: Seq<Reply>,
    conn: C,
    replies: Seq<Reply>,
    next: C,
    end: ReaderState,
    res: Res<Option<NewStreamType>>,
    data: Seq<u8>,
    fin: bool,
)
    requires
        going_on(stream_id, history),
        exchange(conn, after(fresh(stream_id), history), replies, next, end, res),
        replies.len() > 0,
        replies.last() == Ok::<(Seq<u8>, bool), TransportError>((data, fin)),
        data.len() > 0,
        is_varint(handed_out(history) + handed_out(replies)),
    ensures
        (end, Some(res)) == outcome(
            fresh(stream_id),
            handed_out(history) + handed_out(replies),
            fin,
        ),
{
    let prior = history + replies.drop_last();
    lemma_call_goes_on(stream_id, history, conn, replies, next, end, res);
    law_type_is_read_over_calls(stream_id, prior, data, fin);
}

/// The same for a WebTransport stream: a call whose last answer brings the last byte of the
/// number of the session gives that session.
#[verifier::spinoff_prover]
#[verifier::rlimit(60)]
pub proof fn law_call_tells_the_session<C: Connection>(
    stream_id: u64,
    history: Seq<Reply>,
    conn: C,
    replies: Seq<Reply>,
    next: C,
    end: ReaderState,
    res: Res<Option<NewStreamType>>,
    data: Seq<u8>,
    fin: bool,
)
    requires
        going_on(stream_id, history),
        exchange(conn, after(fresh(stream_id), history), replies, next, end, res),
        replies.len() > 0,
        replies.last() == Ok::<(Seq<u8>, bool), TransportError>((data, fin)),
        data.len() > 0,
        session_follows(stream_id, handed_out(history) + handed_out(replies)),
        is_varint(behind_type(handed_out(history) + handed_out(replies))),
    ensures
        end is Done,
        res == Ok::<Option<NewStreamType>, Error>(
            Some(
                NewStreamType::WebTransportStream(
                    varint_value(
                        behind_type(handed_out(history) + handed_out(replies)),
                    ) as u64,
                ),
            ),
        ),
{
    let prior = history + replies.drop_last();
    let before = handed_out(prior);
    let all = handed_out(history) + handed_out(replies);
    lemma_call_goes_on(stream_id, history, conn, replies, next, end, res);
    law_only_the_bytes_count(stream_id, prior);
    lemma_going_on_fits(stream_id, prior);
    law_state_is_what_was_read(stream_id, prior);
    lemma_session_ends(stream_id, before, after(fresh(stream_id), prior), data, fin);
}

#[verifier::spinoff_prover]
#[verifier::rlimit(60)]
proof fn lemma_session_ends(
    stream_id: u64,
    before: Seq<u8>,
    state: ReaderState,
    data: Seq<u8>,
    fin: bool,
)
    requires
        state == fed(stream_id, before),
        !(state is Done),
        has_read(stream_id, before, state),
        0 < data.len() <= state.wanted(),
        session_follows(stream_id, before + data),
        is_varint(behind_type(before + data)),
    ensures
        state.step(Ok((data, fin))) == (
            ReaderState::Done,
            Some(
                Ok::<Option<NewStreamType>, Error>(
                    Some(
                        NewStreamType::WebTransportStream(
                            varint_value(behind_type(before + data)) as u64,
                        ),
                    ),
                ),
            ),
        ),
{
    let all = before + data;
    if before.len() > 0 {
        assert(all[0] == before[0]);
    }
    if session_follows(stream_id, before) {
        assert(behind_type(all) =~= behind_type(before) + data);
    } else {
        assert(all.len() <= varint_len(all[0]));
    }
}

} // verus!
