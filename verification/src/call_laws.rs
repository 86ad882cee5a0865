//! What holds of the calls of a reader of stream types.
use vstd::prelude::*;

use crate::error::{Error, Res};
use crate::reader_state::{
    after, all_fit, asked, asks, concludes, data_of, exchange, fits, handed_out,
    lemma_after_concat, lemma_after_push, lemma_asked_concat, reading, silent, state_at,
    stays_silent, ReaderState,
};
use crate::recv_stream::NewStreamType;
use crate::transport::{Connection, Reply};
use crate::varint::{is_varint, is_varint_prefix, varint_missing, varint_value};

verus! {

/// An answer after which the state is what it was: nothing there yet, or an error.
pub open spec fn idle(reply: Reply) -> bool {
    match reply {
        Ok((data, fin)) => data.len() == 0 && !fin,
        Err(_) => true,
    }
}

/// A reader that is done stays so, has nothing to tell, and leaves the connection alone: it asks
/// for nothing.
pub proof fn law_done_is_final<C: Connection>(
    conn: C,
    start: ReaderState,
    replies: Seq<Reply>,
    next: C,
    end: ReaderState,
    res: Res<Option<NewStreamType>>,
)
    requires
        start is Done,
        exchange(conn, start, replies, next, end, res),
    ensures
        end is Done,
        res == Ok::<Option<NewStreamType>, Error>(None),
        next == conn,
        next.log() == conn.log(),
{
}

/// What a stream is for is told once: the reader is done with the answer that tells it.
pub proof fn law_type_is_told_once(
    start: ReaderState,
    replies: Seq<Reply>,
    end: ReaderState,
    res: Res<Option<NewStreamType>>,
)
    requires
        concludes(start, replies, end, res),
        res matches Ok(Some(_)),
    ensures
        end is Done,
{
}

/// A call that finds out nothing leaves the reader done if the connection has told the end of
/// the stream in its last answer, and only then.
pub proof fn law_done_only_at_the_end<C: Connection>(
    conn: C,
    start: ReaderState,
    replies: Seq<Reply>,
    next: C,
    end: ReaderState,
    res: Res<Option<NewStreamType>>,
)
    requires
        !(start is Done),
        exchange(conn, start, replies, next, end, res),
        res == Ok::<Option<NewStreamType>, Error>(None),
    ensures
        end is Done <==> (replies.last() matches Ok((_, fin)) && fin),
        !(end is Done) ==> (replies.last() matches Ok((data, _)) && data.len() == 0),
{
    let last = after(start, replies.drop_last());
    assert(replies.take(replies.len() - 1) =~= replies.drop_last());
    assert(fits(start, replies, replies.len() - 1));
    lemma_found_nothing(last, replies.last());
}

proof fn lemma_found_nothing(state: ReaderState, reply: Reply)
    requires
        state.step(reply).1 == Some(Ok::<Option<NewStreamType>, Error>(None)),
        !(state is Done),
    ensures
        state.step(reply).0 is Done <==> (reply matches Ok((_, fin)) && fin),
        !(state.step(reply).0 is Done) ==> (reply matches Ok((data, _)) && data.len() == 0),
{
}

/// A stream that ends leaves the reader done, unless what it starts with is no frame that can
/// stand there.
pub proof fn law_end_of_stream_is_final(state: ReaderState, data: Seq<u8>)
    ensures
        ({
            let (next, told) = state.step(Ok((data, true)));
            &&& told is Some
            &&& next is Done || told == Some(Err::<Option<NewStreamType>, Error>(Error::HttpFrame))
        }),
{
}

/// Waiting loses nothing: answers that bring no byte, and errors of the transport, can be left
/// out, and the others lead to the same state.
pub proof fn law_waiting_changes_nothing(start: ReaderState, replies: Seq<Reply>)
    ensures
        after(start, replies) == after(start, replies.filter(|reply: Reply| !idle(reply))),
    decreases replies.len(),
{
    let useful = |reply: Reply| !idle(reply);
    reveal(Seq::filter);
    if replies.len() > 0 {
        let prior = replies.drop_last();
        law_waiting_changes_nothing(start, prior);
        let state = after(start, prior);
        if idle(replies.last()) {
            let data = data_of(replies.last());
            assert(state.read() + data =~= state.read());
            assert(state.with_read(state.read()) == state);
        } else {
            lemma_after_push(start, prior.filter(useful), replies.last());
        }
    }
}

proof fn lemma_bad_frame(state: ReaderState, reply: Reply)
    requires
        state.step(reply).1 == Some(Err::<Option<NewStreamType>, Error>(Error::HttpFrame)),
    ensures
        ({
            let next = state.step(reply).0;
            next is Done || (next is ReadType && is_varint(next.read()))
        }),
{
}

proof fn lemma_nothing_wanted(state: ReaderState, reply: Reply)
    requires
        state is ReadType,
        is_varint(state.read()),
        data_of(reply).len() <= state.wanted(),
    ensures
        ({
            let (next, told) = state.step(reply);
            &&& next == state || next is Done
            &&& told is Some
            &&& !(told matches Some(Ok(Some(_))))
        }),
{
    assert(state.read() + data_of(reply) =~= state.read());
}

/// A reader that has found a frame where none of its kind can stand never finds out what the
/// stream is for, and takes nothing more from the stream.
pub proof fn law_bad_frame_is_final<C: Connection>(
    start: ReaderState,
    replies: Seq<Reply>,
    conn: C,
    middle: ReaderState,
    later: Seq<Reply>,
    next: C,
    end: ReaderState,
    res: Res<Option<NewStreamType>>,
)
    requires
        concludes(start, replies, middle, Err(Error::HttpFrame)),
        exchange(conn, middle, later, next, end, res),
    ensures
        end == middle || end is Done,
        !(res matches Ok(Some(_))),
        handed_out(later).len() == 0,
{
    let last = after(start, replies.drop_last());
    lemma_bad_frame(last, replies.last());
    if !(middle is Done) {
        let first = later[0];
        assert(later.take(0) =~= Seq::<Reply>::empty());
        assert(fits(middle, later, 0));
        lemma_nothing_wanted(middle, first);
        if later.len() > 1 {
            let quiet_part = later.drop_last();
            assert(quiet_part[0] == first);
            assert(quiet_part.take(0) =~= Seq::<Reply>::empty());
            assert(state_at(middle, quiet_part, 0).step(quiet_part[0]).1 is None);
        }
        assert(later.drop_last() =~= Seq::<Reply>::empty());
        assert(handed_out(later.drop_last()).len() == 0);
    }
}

/// One call takes up where the call before it has left off: two calls together ask the
/// connection for what the answers to both of them took, and for nothing else.
pub proof fn law_calls_continue<C: Connection>(
    conn: C,
    start: ReaderState,
    replies: Seq<Reply>,
    between: C,
    middle: ReaderState,
    res: Res<Option<NewStreamType>>,
    later: Seq<Reply>,
    next: C,
    end: ReaderState,
    later_res: Res<Option<NewStreamType>>,
)
    requires
        exchange(conn, start, replies, between, middle, res),
        exchange(between, middle, later, next, end, later_res),
    ensures
        middle == after(start, replies),
        end == after(start, replies + later),
        asked(conn, start, replies + later, next),
{
    lemma_concludes_end(start, replies, middle, res);
    lemma_concludes_end(middle, later, end, later_res);
    lemma_after_concat(start, replies, later);
    lemma_asked_concat(conn, start, replies, between, later, next);
}

pub proof fn lemma_concludes_end(
    start: ReaderState,
    replies: Seq<Reply>,
    end: ReaderState,
    res: Res<Option<NewStreamType>>,
)
    requires
        concludes(start, replies, end, res),
    ensures
        end == after(start, replies),
{
}

proof fn lemma_step_wf(state: ReaderState, reply: Reply)
    requires
        state.wf(),
        !(state is Done),
        data_of(reply).len() <= state.wanted(),
    ensures
        state.step(reply).0.wf(),
        state.step(reply).1 is None ==> !(state.step(reply).0 is Done),
{
    let read = state.read() + data_of(reply);
    if state.read().len() > 0 {
        assert(read[0] == state.read()[0]);
    }
    assert(state.with_read(state.read()) == state);
}

/// Before and after each answer, the bytes taken are the beginning of one integer.
pub proof fn lemma_wf_at(start: ReaderState, replies: Seq<Reply>, i: int)
    requires
        start.wf(),
        all_fit(start, replies),
        0 <= i <= replies.len(),
    ensures
        state_at(start, replies, i).wf(),
    decreases i,
{
    if i == 0 {
        assert(replies.take(0) =~= Seq::<Reply>::empty());
    } else {
        lemma_wf_at(start, replies, i - 1);
        assert(fits(start, replies, i - 1));
        assert(replies.take(i).drop_last() =~= replies.take(i - 1));
        lemma_step_wf(state_at(start, replies, i - 1), replies[i - 1]);
    }
}

/// A call leaves the reader with the beginning of one integer.
pub proof fn law_reader_stays_valid<C: Connection>(
    conn: C,
    start: ReaderState,
    replies: Seq<Reply>,
    next: C,
    end: ReaderState,
    res: Res<Option<NewStreamType>>,
)
    requires
        start.wf(),
        exchange(conn, start, replies, next, end, res),
    ensures
        end.wf(),
{
    lemma_concludes_end(start, replies, end, res);
    assert(replies.take(replies.len() as int) =~= replies);
    lemma_wf_at(start, replies, replies.len() as int);
}

pub proof fn lemma_same_stream(start: ReaderState, replies: Seq<Reply>, i: int)
    requires
        all_fit(start, replies),
        0 <= i < replies.len(),
    ensures
        state_at(start, replies, i).stream_id() == start.stream_id(),
    decreases i,
{
    assert(fits(start, replies, i));
    if i == 0 {
        assert(replies.take(0) =~= Seq::<Reply>::empty());
    } else {
        lemma_same_stream(start, replies, i - 1);
        assert(replies.take(i).drop_last() =~= replies.take(i - 1));
    }
}

/// Every request is for bytes of the reader's own stream, for eight of them at most, and no
/// answer brings more than that.
pub proof fn law_only_its_own_stream_is_asked<C: Connection>(
    conn: C,
    start: ReaderState,
    replies: Seq<Reply>,
    next: C,
    i: int,
)
    requires
        start.wf(),
        asked(conn, start, replies, next),
        conn.log().len() <= i < next.log().len(),
    ensures
        next.log()[i].stream_id == start.stream_id(),
        next.log()[i].max <= 8,
        data_of(next.log()[i].reply).len() <= next.log()[i].max,
{
    let k = i - conn.log().len();
    assert(next.log()[i] == asks(start, replies)[k]);
    assert(fits(start, replies, k));
    lemma_same_stream(start, replies, k);
    lemma_wf_at(start, replies, k);
}

/// How many bytes a reader can still take at most.
spec fn capacity(state: ReaderState) -> int {
    match state {
        ReaderState::ReadType { read, .. } => 16 - read.len(),
        ReaderState::ReadWtSessionId { read, .. } => 8 - read.len(),
        ReaderState::Done => 0,
    }
}

proof fn lemma_quiet_step_takes(state: ReaderState, reply: Reply)
    requires
        state.wf(),
        !(state is Done),
        data_of(reply).len() <= state.wanted(),
        state.step(reply).1 is None,
    ensures
        1 <= capacity(state.step(reply).0) < capacity(state),
{
    let read = state.read() + data_of(reply);
    if state.read().len() > 0 {
        assert(read[0] == state.read()[0]);
    }
}

proof fn lemma_capacity(
    start: ReaderState,
    replies: Seq<Reply>,
    end: ReaderState,
    res: Res<Option<NewStreamType>>,
    i: int,
)
    requires
        start.wf(),
        !(start is Done),
        all_fit(start, replies),
        concludes(start, replies, end, res),
        0 <= i < replies.len(),
    ensures
        0 <= capacity(state_at(start, replies, i)) <= 16 - i,
        0 < i ==> 1 <= capacity(state_at(start, replies, i)),
    decreases i,
{
    if i == 0 {
        assert(replies.take(0) =~= Seq::<Reply>::empty());
    } else {
        let before = state_at(start, replies, i - 1);
        lemma_capacity(start, replies, end, res, i - 1);
        lemma_wf_at(start, replies, i - 1);
        assert(fits(start, replies, i - 1));
        assert(replies.take(i).drop_last() =~= replies.take(i - 1));
        let quiet_part = replies.drop_last();
        assert(quiet_part.take(i - 1) =~= replies.take(i - 1));
        assert(state_at(start, quiet_part, i - 1).step(quiet_part[i - 1]).1 is None);
        lemma_quiet_step_takes(before, replies[i - 1]);
    }
}

/// A call ends: it asks the connection sixteen times at most, once for every byte that two
/// integers can take.
pub proof fn law_calls_are_bounded<C: Connection>(
    conn: C,
    start: ReaderState,
    replies: Seq<Reply>,
    next: C,
    end: ReaderState,
    res: Res<Option<NewStreamType>>,
)
    requires
        start.wf(),
        exchange(conn, start, replies, next, end, res),
    ensures
        conn.log().len() <= next.log().len() <= conn.log().len() + 16,
{
    if !(start is Done) {
        lemma_capacity(start, replies, end, res, replies.len() - 1);
    }
}

/// While an integer is read, its bytes are those that were taken before and those that the
/// answers so far have handed out.
#[verifier::spinoff_prover]
#[verifier::rlimit(60)]
proof fn lemma_silent_reads(start: ReaderState, replies: Seq<Reply>, i: int)
    requires
        start.wf(),
        !(start is Done),
        all_fit(start, replies),
        replies.len() > 0,
        silent(start, replies.drop_last()),
        0 <= i < replies.len(),
    ensures
        state_at(start, replies, i) == start.with_read(
            start.read() + handed_out(replies.take(i)),
        ),
        start.read().len() + i <= state_at(start, replies, i).read().len(),
        0 < i ==> !is_varint(state_at(start, replies, i).read()),
    decreases i,
{
    if i == 0 {
        assert(replies.take(0) =~= Seq::<Reply>::empty());
        assert(start.read() + handed_out(replies.take(0)) =~= start.read());
    } else {
        let quiet_part = replies.drop_last();
        let before = replies.take(i - 1);
        lemma_silent_reads(start, replies, i - 1);
        assert(replies.take(i).drop_last() =~= before);
        assert(quiet_part.take(i - 1) =~= before);
        assert(stays_silent(state_at(start, quiet_part, i - 1), quiet_part[i - 1]));
        let data = data_of(replies[i - 1]);
        assert((start.read() + handed_out(before)) + data =~= start.read() + (handed_out(before)
            + data));
    }
}

/// Reading one integer: the connection is asked eight times at most, each time for bytes of
/// the reader's own stream, and for as many as the integer lacks by then.
pub proof fn law_read_asks_for_what_is_missing<C: Connection>(
    conn: C,
    start: ReaderState,
    replies: Seq<Reply>,
    next: C,
    end: ReaderState,
    res: Res<(Option<u64>, bool)>,
)
    requires
        start.wf(),
        reading(conn, start, replies, next, end, res),
    ensures
        conn.log().len() <= next.log().len() <= conn.log().len() + 8,
        forall|i: int|
            0 <= i < replies.len() ==> {
                let ask = #[trigger] next.log()[conn.log().len() + i];
                &&& ask.stream_id == start.stream_id()
                &&& ask.max == varint_missing(start.read() + handed_out(replies.take(i)))
                &&& ask.reply == replies[i]
            },
        start is Done ==> next == conn,
{
    if !(start is Done) {
        let last = replies.len() - 1;
        lemma_silent_reads(start, replies, last);
        lemma_wf_at(start, replies, last);
        assert forall|i: int| 0 <= i < replies.len() implies {
            let ask = #[trigger] next.log()[conn.log().len() + i];
            &&& ask.stream_id == start.stream_id()
            &&& ask.max == varint_missing(start.read() + handed_out(replies.take(i)))
            &&& ask.reply == replies[i]
        } by {
            assert(next.log()[conn.log().len() + i] == asks(start, replies)[i]);
            lemma_silent_reads(start, replies, i);
            lemma_wf_at(start, replies, i);
        }
    }
}

/// Reading one integer: what has been read of it afterwards is what was read of it before and
/// what the answers have handed out. A value is given exactly when these are now all its bytes,
/// with whether the last answer ended the stream. No value is given when the last answer brought
/// no byte, or ended the stream.
#[verifier::spinoff_prover]
#[verifier::rlimit(60)]
pub proof fn law_read_takes_one_integer<C: Connection>(
    conn: C,
    start: ReaderState,
    replies: Seq<Reply>,
    next: C,
    end: ReaderState,
    res: Res<(Option<u64>, bool)>,
)
    requires
        start.wf(),
        !(start is Done),
        reading(conn, start, replies, next, end, res),
    ensures
        end == start.with_read(start.read() + handed_out(replies)),
        match res {
            Err(error) => {
                &&& replies.last() matches Err(failure)
                &&& error == Error::TransportError(failure)
            },
            Ok((Some(value), fin)) => {
                &&& replies.last() matches Ok((data, last_fin))
                &&& fin == last_fin
                &&& data.len() > 0
                &&& is_varint(end.read())
                &&& value == varint_value(end.read()) as u64
            },
            Ok((None, fin)) => {
                &&& replies.last() matches Ok((data, last_fin))
                &&& fin == last_fin
                &&& data.len() == 0 || fin
                &&& !is_varint(start.read()) ==> !is_varint(end.read())
            },
        },
{
    let last = replies.len() - 1;
    lemma_silent_reads(start, replies, last);
    assert(replies.take(last) =~= replies.drop_last());
    let data = data_of(replies.last());
    let before = handed_out(replies.drop_last());
    assert((start.read() + before) + data =~= start.read() + (before + data));
    if replies.last() is Err {
        assert(before + data =~= before);
    }
    if data.len() == 0 {
        assert((start.read() + before) + data =~= start.read() + before);
        assert(before.len() == 0 ==> start.read() + before =~= start.read());
    }
}

/// Reading one integer leaves the beginning of one integer, and where the connection has failed
/// an incomplete one.
pub proof fn law_read_leaves_a_beginning<C: Connection>(
    conn: C,
    start: ReaderState,
    replies: Seq<Reply>,
    next: C,
    end: ReaderState,
    res: Res<(Option<u64>, bool)>,
)
    requires
        start.wf(),
        !(start is Done),
        reading(conn, start, replies, next, end, res),
    ensures
        is_varint_prefix(end.read()),
        res is Err && !is_varint(start.read()) ==> !is_varint(end.read()),
{
    let last = replies.len() - 1;
    let state = state_at(start, replies, last);
    lemma_silent_reads(start, replies, last);
    lemma_wf_at(start, replies, last);
    assert(fits(start, replies, last));
    let data = data_of(replies.last());
    if state.read().len() > 0 {
        assert((state.read() + data)[0] == state.read()[0]);
    }
    if last == 0 {
        assert(replies.take(0) =~= Seq::<Reply>::empty());
    }
}

} // verus!
