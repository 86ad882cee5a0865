//! The bytes that say what a stream is for can be cut into pieces anywhere.
use vstd::prelude::*;

use crate::error::{Error, Res};
use crate::reader_state::{
    after, conclusion, data_of, fits, fresh, handed_out, lemma_after_concat, lemma_after_push,
    lemma_handed_out_concat, lemma_quiet_concat, lemma_quiet_push, lemma_state_at_concat, outcome,
    quiet, state_at, ReaderState,
};
use crate::recv_stream::NewStreamType;
use crate::stream_type::{decoded_stream_type, ended_stream};
use crate::transport::{stream_type_of, Reply, TransportError};
use crate::varint::{is_varint, is_varint_prefix, varint_value};

verus! {

/// Whether the answers hand out `data` in any number of pieces, as the reader asks for them, and
/// end the stream with the last piece if `fin` is set.
pub open spec fn splits(start: ReaderState, replies: Seq<Reply>, data: Seq<u8>, fin: bool) -> bool {
    &&& replies.len() > 0
    &&& handed_out(replies) == data
    &&& forall|i: int|
        0 <= i < replies.len() ==> {
            &&& fits(start, replies, i)
            &&& data_of(#[trigger] replies[i]).len() > 0
            &&& replies[i] == Ok::<(Seq<u8>, bool), TransportError>(
                (data_of(replies[i]), fin && i == replies.len() - 1),
            )
        }
}

/// One piece or two: an answer can be cut anywhere.
proof fn lemma_cut(state: ReaderState, first: Seq<u8>, second: Seq<u8>, fin: bool)
    requires
        state.wf(),
        !(state is Done),
        first.len() > 0,
        second.len() > 0,
        first.len() + second.len() <= state.wanted(),
    ensures
        ({
            let (next, told) = state.step(Ok((first, false)));
            &&& told is None
            &&& next == state.with_read(state.read() + first)
            &&& next.wf()
            &&& next.wanted() == state.wanted() - first.len()
            &&& next.step(Ok((second, fin))) == state.step(Ok((first + second, fin)))
        }),
{
    let next = state.with_read(state.read() + first);
    assert((state.read() + first) + second =~= state.read() + (first + second));
    assert(state.read().len() > 0);
    assert((state.read() + first)[0] == state.read()[0]);
}

/// The answers that hand out the bytes of `data` one at a time.
pub open spec fn bytewise(data: Seq<u8>, fin: bool) -> Seq<Reply> {
    Seq::new(data.len(), |i: int| Ok((seq![data[i]], fin && i == data.len() - 1)))
}

/// One piece or single bytes.
proof fn lemma_bytewise_piece(state: ReaderState, data: Seq<u8>, fin: bool)
    requires
        state.wf(),
        !(state is Done),
        0 < data.len() <= state.wanted(),
    ensures
        conclusion(state, bytewise(data, fin)) == state.step(Ok((data, fin))),
        quiet(state, bytewise(data, fin).drop_last()),
    decreases data.len(),
{
    let replies = bytewise(data, fin);
    if data.len() == 1 {
        assert(seq![data[0]] =~= data);
    } else {
        let first = data.drop_last();
        let second = seq![data.last()];
        assert(first + second =~= data);
        lemma_cut(state, first, second, fin);
        lemma_bytewise_piece(state, first, false);
        let prior = bytewise(first, false);
        assert(replies.drop_last() =~= prior);
        assert(prior.drop_last().push(prior.last()) =~= prior);
        lemma_quiet_push(state, prior.drop_last(), prior.last());
        assert(after(state, prior) == state.step(Ok((first, false))).0);
    }
}

/// What the pieces so far lead to, in a reader that still asks.
proof fn lemma_splits_prior(start: ReaderState, replies: Seq<Reply>, data: Seq<u8>, fin: bool)
    requires
        start.wf(),
        splits(start, replies, data, fin),
    ensures
        quiet(start, replies.drop_last()),
        after(start, replies.drop_last()).wf(),
        !(after(start, replies.drop_last()) is Done),
    decreases replies.len(),
{
    let prior = replies.drop_last();
    assert(replies.take(replies.len() - 1) =~= prior);
    assert(fits(start, replies, replies.len() - 1));
    if prior.len() > 0 {
        lemma_splits_front(start, replies, data, fin);
        lemma_splits_prior(start, prior, handed_out(prior), false);
        let before = after(start, prior.drop_last());
        let reply = prior.last();
        assert(prior.take(prior.len() - 1) =~= prior.drop_last());
        assert(fits(start, prior, prior.len() - 1));
        assert(data_of(replies[replies.len() - 1]).len() > 0);
        if before.read().len() > 0 {
            assert((before.read() + data_of(reply))[0] == before.read()[0]);
        }
        assert(before.step(reply).1 is None);
        lemma_quiet_push(start, prior.drop_last(), reply);
        assert(prior.drop_last().push(reply) =~= prior);
    }
}

/// Pieces or single bytes.
proof fn lemma_splits_bytewise(start: ReaderState, replies: Seq<Reply>, data: Seq<u8>, fin: bool)
    requires
        start.wf(),
        splits(start, replies, data, fin),
    ensures
        conclusion(start, replies) == conclusion(start, bytewise(data, fin)),
        quiet(start, bytewise(data, fin).drop_last()),
    decreases replies.len(),
{
    let prior = replies.drop_last();
    let piece = data_of(replies.last());
    let state = after(start, prior);
    lemma_splits_prior(start, replies, data, fin);
    assert(fits(start, replies, replies.len() - 1));
    assert(data_of(replies[replies.len() - 1]).len() > 0);
    assert(replies.take(replies.len() - 1) =~= prior);
    lemma_bytewise_piece(state, piece, fin);
    if prior.len() == 0 {
        assert(handed_out(prior) =~= Seq::<u8>::empty());
        assert(data =~= piece);
    } else {
        let head = handed_out(prior);
        lemma_splits_front(start, replies, data, fin);
        lemma_splits_bytewise(start, prior, head, false);
        let first = bytewise(head, false);
        lemma_handed_out_len(start, prior, head, false);
        lemma_quiet_last(start, prior);
        lemma_quiet_push(start, first.drop_last(), first.last());
        assert(first.drop_last().push(first.last()) =~= first);
        assert(data == head + piece);
        lemma_bytewise_concat(start, head, piece, fin);
    }
}

proof fn lemma_quiet_last(start: ReaderState, replies: Seq<Reply>)
    requires
        replies.len() > 0,
        quiet(start, replies),
    ensures
        conclusion(start, replies).1 is None,
{
    let last = replies.len() - 1;
    assert(replies.take(last) =~= replies.drop_last());
    assert(state_at(start, replies, last).step(replies[last]).1 is None);
}

proof fn lemma_bytewise_concat(start: ReaderState, head: Seq<u8>, piece: Seq<u8>, fin: bool)
    requires
        piece.len() > 0,
        quiet(start, bytewise(head, false)),
        quiet(after(start, bytewise(head, false)), bytewise(piece, fin).drop_last()),
    ensures
        conclusion(start, bytewise(head + piece, fin)) == conclusion(
            after(start, bytewise(head, false)),
            bytewise(piece, fin),
        ),
        quiet(start, bytewise(head + piece, fin).drop_last()),
{
    let first = bytewise(head, false);
    let second = bytewise(piece, fin);
    let all = bytewise(head + piece, fin);
    assert(all =~= first + second);
    assert(all.drop_last() =~= first + second.drop_last());
    lemma_quiet_concat(start, first, second.drop_last());
    lemma_after_concat(start, first, second.drop_last());
}

/// All pieces but the last.
proof fn lemma_splits_front(start: ReaderState, replies: Seq<Reply>, data: Seq<u8>, fin: bool)
    requires
        splits(start, replies, data, fin),
        replies.len() > 1,
    ensures
        splits(start, replies.drop_last(), handed_out(replies.drop_last()), false),
{
    let prior = replies.drop_last();
    assert forall|i: int| 0 <= i < prior.len() implies fits(start, prior, i) && data_of(
        #[trigger] prior[i],
    ).len() > 0 && prior[i] == Ok::<(Seq<u8>, bool), TransportError>(
        (data_of(prior[i]), false),
    ) by {
        assert(prior[i] == replies[i]);
        assert(prior.take(i) =~= replies.take(i));
        assert(fits(start, replies, i));
    }
}

proof fn lemma_handed_out_len(start: ReaderState, replies: Seq<Reply>, data: Seq<u8>, fin: bool)
    requires
        splits(start, replies, data, fin),
    ensures
        data.len() > 0,
{
    assert(data_of(replies[replies.len() - 1]).len() > 0);
}

/// However the bytes of a stream are cut into pieces, they lead to the same state and to the
/// same answer.
pub proof fn law_pieces_do_not_matter(
    start: ReaderState,
    replies: Seq<Reply>,
    others: Seq<Reply>,
    data: Seq<u8>,
    fin: bool,
)
    requires
        start.wf(),
        splits(start, replies, data, fin),
        splits(start, others, data, fin),
    ensures
        quiet(start, replies.drop_last()),
        quiet(start, others.drop_last()),
        conclusion(start, replies) == conclusion(start, others),
{
    lemma_splits_prior(start, replies, data, fin);
    lemma_splits_prior(start, others, data, fin);
    lemma_splits_bytewise(start, replies, data, fin);
    lemma_splits_bytewise(start, others, data, fin);
}

/// The first byte of an integer by itself, then the others together.
spec fn pieces(bytes: Seq<u8>, fin: bool) -> Seq<Reply> {
    if bytes.len() == 1 {
        seq![Ok((bytes, fin))]
    } else {
        seq![Ok((bytes.take(1), false)), Ok((bytes.skip(1), fin))]
    }
}

proof fn lemma_pieces(state: ReaderState, bytes: Seq<u8>, fin: bool)
    requires
        !(state is Done),
        state.read().len() == 0,
        bytes.len() > 0,
        is_varint_prefix(bytes),
    ensures
        splits(state, pieces(bytes, fin), bytes, fin),
        conclusion(state, pieces(bytes, fin)) == outcome(state, bytes, fin),
        quiet(state, pieces(bytes, fin).drop_last()),
{
    let replies = pieces(bytes, fin);
    let first = bytes.take(1);
    reveal_with_fuel(handed_out, 3);
    reveal_with_fuel(after, 2);
    assert(replies.take(0) =~= Seq::<Reply>::empty());
    assert(fits(state, replies, 0));
    if bytes.len() == 1 {
        assert(state.read() + bytes =~= bytes);
        assert(replies.drop_last() =~= Seq::<Reply>::empty());
        assert(handed_out(replies) =~= bytes);
    } else {
        let rest = bytes.skip(1);
        assert(state.read() + first =~= first);
        assert(first + rest =~= bytes);
        let next = state.with_read(first);
        assert(replies.drop_last() =~= seq![replies[0]]);
        assert(replies.take(1) =~= seq![replies[0]]);
        assert(seq![replies[0]].drop_last() =~= Seq::<Reply>::empty());
        assert(state.step(replies[0]) == (next, None::<Res<Option<NewStreamType>>>));
        assert(after(state, seq![replies[0]]) == next);
        assert(fits(state, replies, 1));
        assert(handed_out(replies) =~= bytes);
        lemma_quiet_push(state, Seq::empty(), replies[0]);
        assert(Seq::empty().push(replies[0]) =~= seq![replies[0]]);
    }
}

/// The first integer on a stream decides: as soon as its last byte is there, and no sooner, the
/// reader tells what the stream is for, refuses it, or goes on to read the number of a session.
pub proof fn law_type_is_read(stream_id: u64, replies: Seq<Reply>, bytes: Seq<u8>, fin: bool)
    requires
        is_varint(bytes),
        splits(fresh(stream_id), replies, bytes, fin),
    ensures
        quiet(fresh(stream_id), replies.drop_last()),
        conclusion(fresh(stream_id), replies) == (match decoded_stream_type(
            varint_value(bytes) as u64,
            stream_type_of(stream_id),
        ) {
            Err(error) => (
                ReaderState::ReadType { read: bytes, stream_id },
                Some(Err::<Option<NewStreamType>, Error>(error)),
            ),
            Ok(decoded) => if fin {
                (ReaderState::Done, Some(ended_stream(decoded)))
            } else if decoded is Some {
                (ReaderState::Done, Some(Ok(decoded)))
            } else {
                (ReaderState::ReadWtSessionId { read: Seq::empty(), stream_id }, None)
            },
        }),
{
    lemma_pieces(fresh(stream_id), bytes, fin);
    law_pieces_do_not_matter(fresh(stream_id), replies, pieces(bytes, fin), bytes, fin);
}

/// As long as the first integer is not complete, nothing is told, unless the stream ends.
pub proof fn law_type_is_awaited(stream_id: u64, replies: Seq<Reply>, bytes: Seq<u8>, fin: bool)
    requires
        is_varint_prefix(bytes),
        !is_varint(bytes),
        splits(fresh(stream_id), replies, bytes, fin),
    ensures
        quiet(fresh(stream_id), replies.drop_last()),
        conclusion(fresh(stream_id), replies) == (if fin {
            (ReaderState::Done, Some(Ok::<Option<NewStreamType>, Error>(None)))
        } else {
            (ReaderState::ReadType { read: bytes, stream_id }, None)
        }),
{
    lemma_handed_out_len(fresh(stream_id), replies, bytes, fin);
    lemma_pieces(fresh(stream_id), bytes, fin);
    law_pieces_do_not_matter(fresh(stream_id), replies, pieces(bytes, fin), bytes, fin);
}

proof fn lemma_splits_concat(
    start: ReaderState,
    first: Seq<Reply>,
    data: Seq<u8>,
    second: Seq<Reply>,
    more: Seq<u8>,
    fin: bool,
)
    requires
        splits(start, first, data, false),
        splits(after(start, first), second, more, fin),
    ensures
        splits(start, first + second, data + more, fin),
        conclusion(start, first + second) == conclusion(after(start, first), second),
{
    let replies = first + second;
    lemma_handed_out_concat(first, second);
    assert forall|i: int| 0 <= i < replies.len() implies fits(start, replies, i) && data_of(
        #[trigger] replies[i],
    ).len() > 0 && replies[i] == Ok::<(Seq<u8>, bool), TransportError>(
        (data_of(replies[i]), fin && i == replies.len() - 1),
    ) by {
        lemma_state_at_concat(start, first, second, i);
        if i < first.len() {
            assert(replies[i] == first[i]);
            assert(fits(start, first, i));
        } else {
            assert(replies[i] == second[i - first.len()]);
            assert(fits(after(start, first), second, i - first.len()));
        }
    }
    assert(replies.drop_last() =~= first + second.drop_last());
    lemma_after_concat(start, first, second.drop_last());
}

/// The number of a session follows the first integer of a WebTransport stream: as soon as its
/// last byte is there, and no sooner, the reader tells the session that the stream belongs to.
#[verifier::spinoff_prover]
#[verifier::rlimit(60)]
pub proof fn law_session_is_read(
    stream_id: u64,
    replies: Seq<Reply>,
    first: Seq<u8>,
    second: Seq<u8>,
    fin: bool,
)
    requires
        is_varint(first),
        decoded_stream_type(varint_value(first) as u64, stream_type_of(stream_id)) == Ok::<
            Option<NewStreamType>,
            Error,
        >(None),
        second.len() > 0,
        is_varint_prefix(second),
        splits(fresh(stream_id), replies, first + second, fin),
    ensures
        quiet(fresh(stream_id), replies.drop_last()),
        conclusion(fresh(stream_id), replies) == (if is_varint(second) {
            (
                ReaderState::Done,
                Some(
                    Ok::<Option<NewStreamType>, Error>(
                        Some(NewStreamType::WebTransportStream(varint_value(second) as u64)),
                    ),
                ),
            )
        } else if fin {
            (ReaderState::Done, Some(Ok(None)))
        } else {
            (ReaderState::ReadWtSessionId { read: second, stream_id }, None)
        }),
{
    let start = fresh(stream_id);
    let next = ReaderState::ReadWtSessionId { read: Seq::empty(), stream_id };
    lemma_pieces(start, first, false);
    lemma_pieces(next, second, fin);
    let others = pieces(first, false);
    assert(others.drop_last().push(others.last()) =~= others);
    lemma_after_push(start, others.drop_last(), others.last());
    assert(after(start, others) == next);
    lemma_splits_concat(start, others, first, pieces(second, fin), second, fin);
    law_pieces_do_not_matter(
        start,
        replies,
        others + pieces(second, fin),
        first + second,
        fin,
    );
}

/// The bytes of the first integer may come one by one: nothing is told before the last of them.
pub proof fn law_type_is_read_byte_by_byte(stream_id: u64, bytes: Seq<u8>, fin: bool)
    requires
        is_varint(bytes),
    ensures
        quiet(fresh(stream_id), bytewise(bytes, fin).drop_last()),
        conclusion(fresh(stream_id), bytewise(bytes, fin)) == outcome(
            fresh(stream_id),
            bytes,
            fin,
        ),
{
    lemma_pieces(fresh(stream_id), bytes, fin);
    lemma_splits_bytewise(fresh(stream_id), pieces(bytes, fin), bytes, fin);
}

} // verus!
