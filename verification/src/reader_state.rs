//! How a reader of stream types goes from one answer of the transport to the next.
use vstd::prelude::*;

use crate::error::{Error, Res};
use crate::recv_stream::NewStreamType;
use crate::stream_type::{decoded_stream_type, ended_stream};
use crate::transport::{
    ask_of, lemma_served_concat, lemma_served_push, reply_of, served, stream_type_of, Ask,
    Connection, Reply, StreamRecv,
};
use crate::varint::{is_varint, is_varint_prefix, varint_missing, varint_value};

verus! {

/// A reader, with the bytes that it has taken of the integer at hand.
pub enum ReaderState {
    ReadType { read: Seq<u8>, stream_id: u64 },
    ReadWtSessionId { read: Seq<u8>, stream_id: u64 },
    Done,
}

impl ReaderState {
    /// The bytes taken so far are the beginning of one integer.
    pub open spec fn wf(self) -> bool {
        is_varint_prefix(self.read())
    }

    /// The bytes taken of the integer at hand.
    pub open spec fn read(self) -> Seq<u8> {
        match self {
            ReaderState::ReadType { read, .. } => read,
            ReaderState::ReadWtSessionId { read, .. } => read,
            ReaderState::Done => Seq::empty(),
        }
    }

    /// The stream that is read from.
    pub open spec fn stream_id(self) -> u64
        recommends
            !(self is Done),
    {
        match self {
            ReaderState::ReadType { stream_id, .. } => stream_id,
            ReaderState::ReadWtSessionId { stream_id, .. } => stream_id,
            ReaderState::Done => 0,
        }
    }

    /// The same state with other bytes taken.
    pub open spec fn with_read(self, read: Seq<u8>) -> ReaderState {
        match self {
            ReaderState::ReadType { stream_id, .. } => ReaderState::ReadType { read, stream_id },
            ReaderState::ReadWtSessionId { stream_id, .. } => {
                ReaderState::ReadWtSessionId { read, stream_id }
            },
            ReaderState::Done => ReaderState::Done,
        }
    }

    /// How many bytes the transport is asked for.
    pub open spec fn wanted(self) -> nat
        recommends
            self.wf(),
            !(self is Done),
    {
        varint_missing(self.read())
    }

    /// What becomes of the state when the transport hands out `data`, which it ends the stream
    /// with if `fin` is set, and what there is to show for it: the integer at hand, if it is
    /// complete, and `fin`. Nothing at all means that the transport is to be asked again.
    pub open spec fn absorb(self, data: Seq<u8>, fin: bool) -> (
        ReaderState,
        Option<(Option<u64>, bool)>,
    ) {
        let read = self.read() + data;
        let value = if data.len() > 0 && is_varint(read) {
            Some(varint_value(read) as u64)
        } else {
            None
        };
        (
            self.with_read(read),
            if data.len() == 0 || value is Some || fin {
                Some((value, fin))
            } else {
                None
            },
        )
    }

    /// What becomes of the state when an integer has been read, or can not be read for now, and
    /// the answer that follows. No answer means that another integer has to be read.
    pub open spec fn settle(self, output: Option<u64>, fin: bool) -> (
        ReaderState,
        Option<Res<Option<NewStreamType>>>,
    ) {
        match (output, self) {
            (None, _) => (
                if fin {
                    ReaderState::Done
                } else {
                    self
                },
                Some(Ok(None)),
            ),
            (Some(value), ReaderState::ReadType { stream_id, .. }) => {
                match decoded_stream_type(value, stream_type_of(stream_id)) {
                    Err(error) => (self, Some(Err(error))),
                    Ok(decoded) => if fin {
                        (ReaderState::Done, Some(ended_stream(decoded)))
                    } else if decoded is Some {
                        (ReaderState::Done, Some(Ok(decoded)))
                    } else {
                        (ReaderState::ReadWtSessionId { read: Seq::empty(), stream_id }, None)
                    },
                }
            },
            (Some(value), _) => (
                ReaderState::Done,
                Some(Ok(Some(NewStreamType::WebTransportStream(value)))),
            ),
        }
    }

    /// What becomes of the state when the transport gives an answer, and what the caller of
    /// the reader is told. Nothing to tell means that the transport is to be asked again.
    pub open spec fn step(self, reply: Reply) -> (
        ReaderState,
        Option<Res<Option<NewStreamType>>>,
    ) {
        match reply {
            Err(error) => (self, Some(Err(Error::TransportError(error)))),
            Ok((data, fin)) => {
                let (next, shown) = self.absorb(data, fin);
                match shown {
                    None => (next, None),
                    Some((output, fin)) => next.settle(output, fin),
                }
            },
        }
    }

    /// How far the reader is from having read all that it can.
    pub open spec fn budget(self) -> int {
        match self {
            ReaderState::ReadType { read, .. } => 17 - read.len(),
            ReaderState::ReadWtSessionId { read, .. } => 8 - read.len(),
            ReaderState::Done => 0,
        }
    }
}

/// The state that answers of the transport lead to, one after the other.
pub open spec fn after(start: ReaderState, replies: Seq<Reply>) -> ReaderState
    decreases replies.len(),
{
    if replies.len() == 0 {
        start
    } else {
        after(start, replies.drop_last()).step(replies.last()).0
    }
}

/// The state in which the answer with the index `i` is asked for.
pub open spec fn state_at(start: ReaderState, replies: Seq<Reply>, i: int) -> ReaderState {
    after(start, replies.take(i))
}

/// What is asked for to get these answers, each of them together with the answer itself.
pub open spec fn asks(start: ReaderState, replies: Seq<Reply>) -> Seq<Ask> {
    Seq::new(
        replies.len(),
        |i: int|
            Ask {
                stream_id: state_at(start, replies, i).stream_id(),
                max: state_at(start, replies, i).wanted() as usize,
                reply: replies[i],
            },
    )
}

/// The bytes that an answer hands out.
pub open spec fn data_of(reply: Reply) -> Seq<u8> {
    match reply {
        Ok((data, _)) => data,
        Err(_) => Seq::empty(),
    }
}

/// Whether the answer with the index `i` comes to a reader that asks, and stays within what it
/// asks for.
pub open spec fn fits(start: ReaderState, replies: Seq<Reply>, i: int) -> bool {
    let state = state_at(start, replies, i);
    !(state is Done) && data_of(replies[i]).len() <= state.wanted()
}

/// Whether all of the answers come to a reader that asks, and stay within what it asks for.
pub open spec fn all_fit(start: ReaderState, replies: Seq<Reply>) -> bool {
    forall|i: int| 0 <= i < replies.len() ==> #[trigger] fits(start, replies, i)
}

/// The connection was `conn`, has been asked by a reader in the state `start` for these answers,
/// one after the other and for nothing else, and is `next` now.
pub open spec fn asked<C: Connection>(
    conn: C,
    start: ReaderState,
    replies: Seq<Reply>,
    next: C,
) -> bool {
    &&& all_fit(start, replies)
    &&& next.log() == conn.log() + asks(start, replies)
    &&& served(conn, asks(start, replies), next)
}

/// Whether the integer at hand is still incomplete after this answer and the stream goes on.
pub open spec fn stays_silent(state: ReaderState, reply: Reply) -> bool {
    reply matches Ok((data, fin)) && state.absorb(data, fin).1 is None
}

/// Whether the integer at hand is still incomplete after all of the answers.
pub open spec fn silent(start: ReaderState, replies: Seq<Reply>) -> bool {
    forall|i: int|
        0 <= i < replies.len() ==> stays_silent(
            state_at(start, replies, i),
            #[trigger] replies[i],
        )
}

/// Reading the integer at hand: all answers but the last leave it incomplete, and the last
/// one leads to the state `end` and to `res`. A reader that is done needs no answer.
pub open spec fn concludes_reading(
    start: ReaderState,
    replies: Seq<Reply>,
    end: ReaderState,
    res: Res<(Option<u64>, bool)>,
) -> bool {
    if start is Done {
        replies.len() == 0 && end == start && res == Ok::<(Option<u64>, bool), Error>((None, false))
    } else {
        let last = state_at(start, replies, replies.len() - 1);
        &&& replies.len() > 0
        &&& silent(start, replies.drop_last())
        &&& match replies.last() {
            Err(error) => end == last && res == Err::<(Option<u64>, bool), Error>(
                Error::TransportError(error),
            ),
            Ok((data, fin)) => {
                let (next, shown) = last.absorb(data, fin);
                end == next && shown is Some && res == Ok::<(Option<u64>, bool), Error>(shown->0)
            },
        }
    }
}

/// One call of `read`, on the connection `conn`, which it leaves as `next`: the connection is
/// asked for these answers and for nothing else, and they lead to the state `end` and to `res`.
pub open spec fn reading<C: Connection>(
    conn: C,
    start: ReaderState,
    replies: Seq<Reply>,
    next: C,
    end: ReaderState,
    res: Res<(Option<u64>, bool)>,
) -> bool {
    asked(conn, start, replies, next) && concludes_reading(start, replies, end, res)
}

/// Whether after each of the answers there is nothing to tell yet.
pub open spec fn quiet(start: ReaderState, replies: Seq<Reply>) -> bool {
    forall|i: int|
        0 <= i < replies.len() ==> state_at(start, replies, i).step(
            #[trigger] replies[i],
        ).1 is None
}

/// Finding out what the stream is for: to all answers but the last there is nothing to tell,
/// and the last one leads to the state `end` and to `res`. A reader that is done needs no
/// answer.
pub open spec fn concludes(
    start: ReaderState,
    replies: Seq<Reply>,
    end: ReaderState,
    res: Res<Option<NewStreamType>>,
) -> bool {
    if start is Done {
        replies.len() == 0 && end == start && res == Ok::<Option<NewStreamType>, Error>(None)
    } else {
        &&& replies.len() > 0
        &&& quiet(start, replies.drop_last())
        &&& conclusion(start, replies) == (end, Some(res))
    }
}

/// One call of `get_type`, on the connection `conn`, which it leaves as `next`: the connection
/// is asked for these answers and for nothing else, and they lead to the state `end` and to
/// `res`.
pub open spec fn exchange<C: Connection>(
    conn: C,
    start: ReaderState,
    replies: Seq<Reply>,
    next: C,
    end: ReaderState,
    res: Res<Option<NewStreamType>>,
) -> bool {
    asked(conn, start, replies, next) && concludes(start, replies, end, res)
}

pub proof fn lemma_after_concat(start: ReaderState, first: Seq<Reply>, second: Seq<Reply>)
    ensures
        after(start, first + second) == after(after(start, first), second),
    decreases second.len(),
{
    if second.len() == 0 {
        assert(first + second =~= first);
    } else {
        lemma_after_concat(start, first, second.drop_last());
        assert((first + second).drop_last() =~= first + second.drop_last());
    }
}

pub proof fn lemma_state_at_concat(
    start: ReaderState,
    prior: Seq<Reply>,
    latest: Seq<Reply>,
    i: int,
)
    requires
        0 <= i < prior.len() + latest.len(),
    ensures
        state_at(start, prior + latest, i) == (if i < prior.len() {
            state_at(start, prior, i)
        } else {
            state_at(after(start, prior), latest, i - prior.len())
        }),
{
    if i < prior.len() {
        assert((prior + latest).take(i) =~= prior.take(i));
    } else {
        assert((prior + latest).take(i) =~= prior + latest.take(i - prior.len()));
        lemma_after_concat(start, prior, latest.take(i - prior.len()));
    }
}

/// The answers to come take up where the answers so far have led.
pub proof fn lemma_asked_concat<C: Connection>(
    conn: C,
    start: ReaderState,
    prior: Seq<Reply>,
    middle: C,
    latest: Seq<Reply>,
    next: C,
)
    requires
        asked(conn, start, prior, middle),
        asked(middle, after(start, prior), latest, next),
    ensures
        asked(conn, start, prior + latest, next),
{
    let replies = prior + latest;
    let then = after(start, prior);
    assert forall|i: int| 0 <= i < replies.len() implies #[trigger] fits(start, replies, i) by {
        lemma_state_at_concat(start, prior, latest, i);
        if i < prior.len() {
            assert(replies[i] == prior[i]);
            assert(fits(start, prior, i));
        } else {
            assert(replies[i] == latest[i - prior.len()]);
            assert(fits(then, latest, i - prior.len()));
        }
    }
    assert forall|i: int| 0 <= i < replies.len() implies #[trigger] asks(start, replies)[i] == (
    asks(start, prior) + asks(then, latest))[i] by {
        lemma_state_at_concat(start, prior, latest, i);
        if i < prior.len() {
            assert(replies[i] == prior[i]);
        } else {
            assert(replies[i] == latest[i - prior.len()]);
        }
    }
    assert(asks(start, replies) =~= asks(start, prior) + asks(then, latest));
    lemma_served_concat(conn, asks(start, prior), middle, asks(then, latest), next);
    assert(conn.log() + asks(start, prior) + asks(then, latest) =~= conn.log() + (asks(start, prior)
        + asks(then, latest)));
}

/// All answers but the last, and the last one.
pub proof fn lemma_asks_front(start: ReaderState, replies: Seq<Reply>)
    requires
        replies.len() > 0,
    ensures
        ({
            let prior = replies.drop_last();
            let last = after(start, prior);
            &&& asks(start, replies).drop_last() == asks(start, prior)
            &&& asks(start, replies).last() == (Ask {
                stream_id: last.stream_id(),
                max: last.wanted() as usize,
                reply: replies.last(),
            })
            &&& all_fit(start, replies) ==> all_fit(start, prior) && fits(
                start,
                replies,
                replies.len() - 1,
            )
        }),
{
    let prior = replies.drop_last();
    assert(replies.take(replies.len() - 1) =~= prior);
    assert forall|i: int| 0 <= i < prior.len() implies #[trigger] asks(start, prior)[i] == asks(
        start,
        replies,
    )[i] by {
        assert(prior.take(i) =~= replies.take(i));
    }
    assert(asks(start, replies).drop_last() =~= asks(start, prior));
    if all_fit(start, replies) {
        assert forall|i: int| 0 <= i < prior.len() implies #[trigger] fits(start, prior, i) by {
            assert(prior.take(i) =~= replies.take(i));
            assert(fits(start, replies, i));
        }
    }
}

pub proof fn lemma_quiet_concat(start: ReaderState, prior: Seq<Reply>, latest: Seq<Reply>)
    requires
        quiet(start, prior),
        quiet(after(start, prior), latest),
    ensures
        quiet(start, prior + latest),
{
    let replies = prior + latest;
    assert forall|i: int| 0 <= i < replies.len() implies state_at(start, replies, i).step(
        #[trigger] replies[i],
    ).1 is None by {
        lemma_state_at_concat(start, prior, latest, i);
        if i < prior.len() {
            assert(replies[i] == prior[i]);
        } else {
            assert(replies[i] == latest[i - prior.len()]);
        }
    }
}

pub proof fn lemma_quiet_push(start: ReaderState, replies: Seq<Reply>, reply: Reply)
    requires
        quiet(start, replies),
        after(start, replies).step(reply).1 is None,
    ensures
        quiet(start, replies.push(reply)),
{
    let latest = seq![reply];
    assert(latest.take(0) =~= Seq::<Reply>::empty());
    assert(quiet(after(start, replies), latest));
    lemma_quiet_concat(start, replies, latest);
    assert(replies + latest =~= replies.push(reply));
}

pub proof fn lemma_silent_is_quiet(start: ReaderState, replies: Seq<Reply>)
    requires
        silent(start, replies),
    ensures
        quiet(start, replies),
{
    assert forall|i: int| 0 <= i < replies.len() implies state_at(start, replies, i).step(
        #[trigger] replies[i],
    ).1 is None by {
        assert(stays_silent(state_at(start, replies, i), replies[i]));
    }
}

pub proof fn lemma_silent_push(start: ReaderState, replies: Seq<Reply>, reply: Reply)
    requires
        silent(start, replies),
        stays_silent(after(start, replies), reply),
    ensures
        silent(start, replies.push(reply)),
        after(start, replies.push(reply)) == after(start, replies).step(reply).0,
{
    let all = replies.push(reply);
    lemma_after_push(start, replies, reply);
    assert forall|i: int| 0 <= i < all.len() implies stays_silent(
        state_at(start, all, i),
        #[trigger] all[i],
    ) by {
        if i < replies.len() {
            assert(all.take(i) =~= replies.take(i));
            assert(all[i] == replies[i]);
        } else {
            assert(all.take(i) =~= replies);
        }
    }
}

/// One request more: for bytes of the stream, and for as many as the integer at hand lacks.
pub proof fn lemma_asked_push<C: Connection>(
    conn: C,
    start: ReaderState,
    replies: Seq<Reply>,
    middle: C,
    answer: StreamRecv,
    next: C,
)
    requires
        asked(conn, start, replies, middle),
        !(after(start, replies) is Done),
        data_of(reply_of(answer)).len() <= after(start, replies).wanted(),
        ({
            let state = after(start, replies);
            let ask = ask_of(state.stream_id(), state.wanted() as usize, answer);
            next.log() == middle.log().push(ask) && middle.answers(ask, next)
        }),
    ensures
        asked(conn, start, replies.push(reply_of(answer)), next),
{
    let state = after(start, replies);
    let ask = ask_of(state.stream_id(), state.wanted() as usize, answer);
    let latest = seq![reply_of(answer)];
    assert(latest.take(0) =~= Seq::<Reply>::empty());
    assert(fits(state, latest, 0));
    assert(asks(state, latest) =~= Seq::empty().push(ask));
    assert(middle.log() + asks(state, latest) =~= middle.log().push(ask));
    lemma_served_push(middle, Seq::empty(), middle, ask, next);
    lemma_asked_concat(conn, start, replies, middle, latest, next);
    assert(replies + latest =~= replies.push(reply_of(answer)));
}

/// Reading one integer goes on where the answers so far have led.
pub proof fn lemma_continue(
    start: ReaderState,
    prior: Seq<Reply>,
    latest: Seq<Reply>,
    middle: ReaderState,
    read: Res<(Option<u64>, bool)>,
)
    requires
        quiet(start, prior),
        !(after(start, prior) is Done),
        concludes_reading(after(start, prior), latest, middle, read),
    ensures
        ({
            let replies = prior + latest;
            let outcome = match read {
                Err(error) => (middle, Some(Err(error))),
                Ok((output, fin)) => middle.settle(output, fin),
            };
            &&& replies.len() > 0
            &&& quiet(start, replies.drop_last())
            &&& conclusion(start, replies) == outcome
            &&& after(start, replies) == outcome.0
            &&& outcome.1 is None ==> quiet(start, replies)
        }),
{
    let replies = prior + latest;
    let then = after(start, prior);
    assert(latest.take(latest.len() - 1) =~= latest.drop_last());
    lemma_silent_is_quiet(then, latest.drop_last());
    lemma_quiet_concat(start, prior, latest.drop_last());
    assert(replies.drop_last() =~= prior + latest.drop_last());
    lemma_after_concat(start, prior, latest.drop_last());
    assert(replies.last() == latest.last());
    if conclusion(start, replies).1 is None {
        lemma_quiet_push(start, replies.drop_last(), replies.last());
        assert(replies.drop_last().push(replies.last()) =~= replies);
    }
}

pub proof fn lemma_after_push(start: ReaderState, replies: Seq<Reply>, reply: Reply)
    ensures
        after(start, replies.push(reply)) == after(start, replies).step(reply).0,
{
    assert(replies.push(reply).drop_last() =~= replies);
}

/// A reader that has just been made for the stream with the number `stream_id`.
pub open spec fn fresh(stream_id: u64) -> ReaderState {
    ReaderState::ReadType { read: Seq::empty(), stream_id }
}

/// The bytes that answers hand out, one after the other.
pub open spec fn handed_out(replies: Seq<Reply>) -> Seq<u8>
    decreases replies.len(),
{
    if replies.len() == 0 {
        Seq::empty()
    } else {
        handed_out(replies.drop_last()) + data_of(replies.last())
    }
}

pub proof fn lemma_handed_out_concat(first: Seq<Reply>, second: Seq<Reply>)
    ensures
        handed_out(first + second) == handed_out(first) + handed_out(second),
    decreases second.len(),
{
    if second.len() == 0 {
        assert(first + second =~= first);
        assert(handed_out(first) + handed_out(second) =~= handed_out(first));
    } else {
        lemma_handed_out_concat(first, second.drop_last());
        assert((first + second).drop_last() =~= first + second.drop_last());
        assert(handed_out(first) + (handed_out(second.drop_last()) + data_of(second.last()))
            =~= (handed_out(first) + handed_out(second.drop_last())) + data_of(second.last()));
    }
}

/// What the last of the answers leads to.
pub open spec fn conclusion(start: ReaderState, replies: Seq<Reply>) -> (
    ReaderState,
    Option<Res<Option<NewStreamType>>>,
)
    recommends
        replies.len() > 0,
{
    after(start, replies.drop_last()).step(replies.last())
}

/// What a reader at the beginning of an integer makes of its bytes, all or some of them.
pub open spec fn outcome(state: ReaderState, bytes: Seq<u8>, fin: bool) -> (
    ReaderState,
    Option<Res<Option<NewStreamType>>>,
) {
    let next = state.with_read(bytes);
    if is_varint(bytes) {
        next.settle(Some(varint_value(bytes) as u64), fin)
    } else if fin {
        (ReaderState::Done, Some(Ok(None)))
    } else {
        (next, None)
    }
}

} // verus!
