//! What a reader of stream types makes of a stream whose bytes are at hand.
use vstd::prelude::*;

use crate::call_laws::{lemma_same_stream, lemma_wf_at};
use crate::error::{Error, Res};
use crate::reader_state::{
    after, all_fit, asks, exchange, lemma_asks_front, quiet, state_at, ReaderState,
};
use crate::recv_stream::NewStreamType;
use crate::stream_buffer::{Stream, StreamBuffer};
use crate::transport::{served, Connection, Reply};
use crate::varint::{is_varint, varint_len, varint_value};

verus! {

/// What a call comes to when a stream has `unread` to hand out and ends with it if `ended` is
/// set: the state of the reader afterwards, what is found out, and what is left unread.
///
/// The integer at hand is completed if its bytes are there. If not, all that is there is taken.
/// A reader whose integer is complete already lacks nothing, and takes nothing.
#[verifier::opaque]
pub open spec fn found(state: ReaderState, unread: Seq<u8>, ended: bool) -> (
    ReaderState,
    Res<Option<NewStreamType>>,
    Seq<u8>,
)
    decreases
        (if state is ReadType {
            1int
        } else {
            0int
        }),
{
    let bytes = state.read() + unread;
    if state is Done {
        (state, Ok(None), unread)
    } else if is_varint(state.read()) {
        (
            if ended && unread.len() == 0 {
                ReaderState::Done
            } else {
                state
            },
            Ok(None),
            unread,
        )
    } else if bytes.len() == 0 || bytes.len() < varint_len(bytes[0]) {
        (
            if ended {
                ReaderState::Done
            } else {
                state.with_read(bytes)
            },
            Ok(None),
            Seq::empty(),
        )
    } else {
        let integer = bytes.take(varint_len(bytes[0]) as int);
        let rest = bytes.skip(varint_len(bytes[0]) as int);
        let value = varint_value(integer) as u64;
        match state.with_read(integer).settle(Some(value), ended && rest.len() == 0) {
            (next, Some(res)) => (next, res, rest),
            (next, None) => found(next, rest, ended),
        }
    }
}

proof fn lemma_found_step(state: ReaderState, stream: Stream)
    requires
        state.wf(),
        !(state is Done),
        stream.stream_id == state.stream_id(),
    ensures
        ({
            let max = state.wanted() as usize;
            let (next, told) = state.step(stream.reply(stream.stream_id, max));
            let left = stream.next(stream.stream_id, max);
            match told {
                Some(res) => found(state, stream.unread, stream.ended) == (next, res, left.unread),
                None => found(state, stream.unread, stream.ended) == found(
                    next,
                    left.unread,
                    stream.ended,
                ),
            }
        }),
{
    reveal(found);
    let max = state.wanted() as usize;
    let amount = stream.amount(max);
    let data = stream.unread.take(amount);
    let left = stream.unread.skip(amount);
    let bytes = state.read() + stream.unread;
    assert(data + left =~= stream.unread);
    assert((state.read() + data) + left =~= bytes);
    if state.read().len() > 0 {
        assert(bytes[0] == state.read()[0]);
        assert((state.read() + data)[0] == state.read()[0]);
    }
    if amount == 0 {
        assert(state.read() + data =~= state.read());
        assert(left =~= stream.unread);
        assert(state.with_read(state.read()) == state);
    } else {
        assert((state.read() + data)[0] == bytes[0]);
        if is_varint(state.read() + data) {
            assert(bytes.take(varint_len(bytes[0]) as int) =~= state.read() + data);
            assert(bytes.skip(varint_len(bytes[0]) as int) =~= left);
        }
    }
}

/// As long as there is nothing to tell, a call comes to what it would come to from where it
/// stands.
proof fn lemma_found_prior(
    buffer: StreamBuffer,
    start: ReaderState,
    replies: Seq<Reply>,
    next: StreamBuffer,
)
    requires
        start.wf(),
        buffer@.stream_id == start.stream_id(),
        all_fit(start, replies),
        quiet(start, replies),
        served(buffer, asks(start, replies), next),
    ensures
        found(start, buffer@.unread, buffer@.ended) == found(
            after(start, replies),
            next@.unread,
            next@.ended,
        ),
        next@.ended == buffer@.ended,
        next@.stream_id == buffer@.stream_id,
    decreases replies.len(),
{
    if replies.len() > 0 {
        let prior = replies.drop_last();
        let last = replies.len() - 1;
        let state = after(start, prior);
        lemma_asks_front(start, replies);
        let middle = choose|middle: StreamBuffer|
            served(buffer, asks(start, replies).drop_last(), middle) && #[trigger] middle.answers(
                asks(start, replies).last(),
                next,
            );
        assert(replies.take(last) =~= prior);
        assert forall|i: int| 0 <= i < prior.len() implies state_at(start, prior, i).step(
            #[trigger] prior[i],
        ).1 is None by {
            assert(prior.take(i) =~= replies.take(i));
            assert(state_at(start, replies, i).step(replies[i]).1 is None);
        }
        lemma_found_prior(buffer, start, prior, middle);
        lemma_wf_at(start, replies, last);
        lemma_same_stream(start, replies, last);
        assert(state_at(start, replies, last).step(replies[last]).1 is None);
        lemma_found_step(state, middle@);
    }
}

/// A call on a buffered stream is decided by the bytes that have arrived: they settle what is
/// found out, the state of the reader and what is left unread.
pub proof fn law_buffered_bytes_decide(
    buffer: StreamBuffer,
    start: ReaderState,
    replies: Seq<Reply>,
    next: StreamBuffer,
    end: ReaderState,
    res: Res<Option<NewStreamType>>,
)
    requires
        start.wf(),
        !(start is Done) ==> buffer@.stream_id == start.stream_id(),
        exchange(buffer, start, replies, next, end, res),
    ensures
        (end, res, next@.unread) == found(start, buffer@.unread, buffer@.ended),
        next@.ended == buffer@.ended,
        next@.stream_id == buffer@.stream_id,
{
    reveal(found);
    if !(start is Done) {
        let prior = replies.drop_last();
        let last = replies.len() - 1;
        let state = after(start, prior);
        lemma_asks_front(start, replies);
        let middle = choose|middle: StreamBuffer|
            served(buffer, asks(start, replies).drop_last(), middle) && #[trigger] middle.answers(
                asks(start, replies).last(),
                next,
            );
        assert(replies.take(last) =~= prior);
        lemma_found_prior(buffer, start, prior, middle);
        lemma_wf_at(start, replies, last);
        lemma_same_stream(start, replies, last);
        lemma_found_step(state, middle@);
    }
}

/// Whether one call stops right behind the first integer of a WebTransport stream, and the next
/// one is told that the stream ends there.
pub open spec fn ends_before_session(
    start: ReaderState,
    early: Seq<u8>,
    late: Seq<u8>,
    ended: bool,
) -> bool {
    let middle = found(start, early, false).0;
    &&& ended && late.len() == 0
    &&& start is ReadType && middle is ReadWtSessionId && middle.read().len() == 0
}

/// Bytes may arrive late: when a call has found out nothing, the next call comes to what a
/// single call would have come to, had all bytes been there from the start. Only where a
/// WebTransport stream ends right behind its first integer it makes a difference whether the end
/// is told with that integer.
pub proof fn law_late_bytes_are_as_good(
    start: ReaderState,
    early: Seq<u8>,
    late: Seq<u8>,
    ended: bool,
)
    requires
        found(start, early, false).1 == Ok::<Option<NewStreamType>, Error>(None),
        !ends_before_session(start, early, late, ended),
    ensures
        ({
            let (middle, _, left) = found(start, early, false);
            found(middle, left + late, ended) == found(start, early + late, ended)
        }),
    decreases
        (if start is ReadType {
            1int
        } else {
            0int
        }),
{
    reveal(found);
    let bytes = start.read() + early;
    let (middle, _, left) = found(start, early, false);
    assert((start.read() + early) + late =~= start.read() + (early + late));
    if start is Done || is_varint(start.read()) {
        assert(left == early);
    } else if bytes.len() == 0 || bytes.len() < varint_len(bytes[0]) {
        assert(left + late =~= late);
        assert(middle == start.with_read(bytes));
        assert(!is_varint(bytes));
    } else {
        let len = varint_len(bytes[0]) as int;
        let integer = bytes.take(len);
        let rest = bytes.skip(len);
        assert((bytes + late)[0] == bytes[0]);
        assert((bytes + late).take(len) =~= integer);
        assert((bytes + late).skip(len) =~= rest + late);
        let value = varint_value(integer) as u64;
        let (next, told) = start.with_read(integer).settle(Some(value), false);
        if told is None {
            law_late_bytes_are_as_good(next, rest, late, ended);
        }
    }
}

/// What has been found out stands: more bytes behind those that tell what the stream is for
/// change nothing and are left unread.
pub proof fn law_bytes_behind_are_left(
    start: ReaderState,
    early: Seq<u8>,
    late: Seq<u8>,
    ended: bool,
)
    requires
        found(start, early, false).1 != Ok::<Option<NewStreamType>, Error>(None),
        late.len() > 0,
    ensures
        ({
            let (end, res, left) = found(start, early, false);
            found(start, early + late, ended) == (end, res, left + late)
        }),
    decreases
        (if start is ReadType {
            1int
        } else {
            0int
        }),
{
    reveal(found);
    let bytes = start.read() + early;
    assert((start.read() + early) + late =~= start.read() + (early + late));
    if !(start is Done) && !is_varint(start.read()) && bytes.len() > 0 && bytes.len() >= varint_len(
        bytes[0],
    ) {
        let len = varint_len(bytes[0]) as int;
        let integer = bytes.take(len);
        let rest = bytes.skip(len);
        assert((bytes + late)[0] == bytes[0]);
        assert((bytes + late).take(len) =~= integer);
        assert((bytes + late).skip(len) =~= rest + late);
        let value = varint_value(integer) as u64;
        let (next, told) = start.with_read(integer).settle(Some(value), false);
        if told is None {
            law_bytes_behind_are_left(next, rest, late, ended);
        }
    }
}

} // verus!
