//! What holds of the queue of client events over its operations.
use vstd::prelude::*;

use crate::client_events::{
    has_promise, is_of_push, is_of_stream, is_promise, is_recv_side, is_send_side, off_creatable,
    off_push, off_recv_side, off_send_side, off_stream, off_web_transport, off_zero_rtt, relevant,
    Http3ClientEvent,
};
use crate::client_state::{Header, Http3State};
use crate::transport::AppError;

verus! {

/// What is left of the events when the first `n` have been taken.
pub open spec fn after_taking(events: Seq<Http3ClientEvent>, n: nat) -> Seq<Http3ClientEvent>
    decreases n,
{
    if n == 0 || events.len() == 0 {
        events
    } else {
        after_taking(events.drop_first(), (n - 1) as nat)
    }
}

proof fn lemma_after_taking(events: Seq<Http3ClientEvent>, n: nat)
    requires
        n <= events.len(),
    ensures
        after_taking(events, n) == events.skip(n as int),
    decreases n,
{
    if n == 0 {
        assert(events.skip(0) =~= events);
    } else {
        lemma_after_taking(events.drop_first(), (n - 1) as nat);
        assert(events.drop_first().skip(n - 1) =~= events.skip(n as int));
    }
}

/// First come, first taken: an event is taken when all that stood before it have been.
pub proof fn law_first_come_first_taken(events: Seq<Http3ClientEvent>, n: nat)
    requires
        n < events.len(),
    ensures
        after_taking(events, n).len() > 0,
        after_taking(events, n)[0] == events[n as int],
{
    lemma_after_taking(events, n);
}

/// A new event is taken after all others.
pub proof fn law_newest_is_taken_last(events: Seq<Http3ClientEvent>, event: Http3ClientEvent)
    ensures
        after_taking(events.push(event), events.len()) == seq![event],
{
    lemma_after_taking(events.push(event), events.len());
    assert(events.push(event).skip(events.len() as int) =~= seq![event]);
}

/// Whether `kept` are events out of `all`, found at the places `at`, in the order in which
/// they stand there.
pub open spec fn in_order(
    all: Seq<Http3ClientEvent>,
    kept: Seq<Http3ClientEvent>,
    at: Seq<int>,
) -> bool {
    &&& at.len() == kept.len()
    &&& forall|k: int| 0 <= k < at.len() ==> 0 <= #[trigger] at[k] < all.len()
    &&& forall|k: int| 0 <= k < at.len() ==> kept[k] == all[#[trigger] at[k]]
    &&& forall|j: int, k: int| 0 <= j < k < at.len() ==> at[j] < at[k]
}

/// Dropping events leaves the others in their order.
pub proof fn law_order_is_kept(
    events: Seq<Http3ClientEvent>,
    keep: spec_fn(Http3ClientEvent) -> bool,
)
    ensures
        exists|at: Seq<int>| in_order(events, events.filter(keep), at),
    decreases events.len(),
{
    reveal(Seq::filter);
    if events.len() == 0 {
        assert(in_order(events, events.filter(keep), Seq::<int>::empty()));
    } else {
        let prior = events.drop_last();
        law_order_is_kept(prior, keep);
        let at = choose|at: Seq<int>| in_order(prior, prior.filter(keep), at);
        if keep(events.last()) {
            assert(in_order(events, events.filter(keep), at.push(events.len() - 1)));
        } else {
            assert(in_order(events, events.filter(keep), at));
        }
    }
}

/// Dropping drops what it should, and nothing else.
pub proof fn law_dropping_is_exact(
    events: Seq<Http3ClientEvent>,
    keep: spec_fn(Http3ClientEvent) -> bool,
    event: Http3ClientEvent,
)
    ensures
        events.filter(keep).contains(event) <==> events.contains(event) && keep(event),
    decreases events.len(),
{
    reveal(Seq::filter);
    if events.len() > 0 {
        let prior = events.drop_last();
        let last = events.last();
        law_dropping_is_exact(prior, keep, event);
        assert(events =~= prior.push(last));
        lemma_push_contains(prior, last, event);
        lemma_push_contains(prior.filter(keep), last, event);
    }
}

pub proof fn lemma_push_contains(
    events: Seq<Http3ClientEvent>,
    last: Http3ClientEvent,
    event: Http3ClientEvent,
)
    ensures
        events.push(last).contains(event) <==> events.contains(event) || event == last,
{
    let all = events.push(last);
    if events.contains(event) {
        let i = choose|i: int| 0 <= i < events.len() && events[i] == event;
        assert(all[i] == event);
    }
    if event == last {
        assert(all[events.len() as int] == event);
    }
    if all.contains(event) {
        let i = choose|i: int| 0 <= i < all.len() && all[i] == event;
        if i < events.len() {
            assert(events[i] == event);
        }
    }
}

/// Dropping twice is dropping once, by both tests.
proof fn lemma_filter_twice(
    events: Seq<Http3ClientEvent>,
    first: spec_fn(Http3ClientEvent) -> bool,
    second: spec_fn(Http3ClientEvent) -> bool,
    both: spec_fn(Http3ClientEvent) -> bool,
)
    requires
        forall|event: Http3ClientEvent| #[trigger] both(event) <==> first(event) && second(event),
    ensures
        events.filter(first).filter(second) == events.filter(both),
    decreases events.len(),
{
    reveal(Seq::filter);
    if events.len() > 0 {
        let prior = events.drop_last();
        lemma_filter_twice(prior, first, second, both);
        assert(both(events.last()) <==> first(events.last()) && second(events.last()));
        if first(events.last()) {
            assert(prior.filter(first).push(events.last()).drop_last() =~= prior.filter(first));
        }
    }
}

/// Dropping the same events again changes nothing.
pub proof fn law_dropping_again_changes_nothing(
    events: Seq<Http3ClientEvent>,
    keep: spec_fn(Http3ClientEvent) -> bool,
)
    ensures
        events.filter(keep).filter(keep) == events.filter(keep),
{
    lemma_filter_twice(events, keep, keep, keep);
}

/// Removing the events of a stream is removing those about what it has received, those about
/// what can be sent on it, and those about it as a stream of WebTransport, in any order.
pub proof fn law_stream_is_removed_in_parts(events: Seq<Http3ClientEvent>, stream_id: u64)
    ensures
        ({
            let recv = off_recv_side(stream_id);
            let send = off_send_side(stream_id);
            let web_transport = off_web_transport(stream_id);
            let left = events.filter(off_stream(stream_id));
            &&& left == events.filter(recv).filter(send).filter(web_transport)
            &&& left == events.filter(recv).filter(web_transport).filter(send)
            &&& left == events.filter(send).filter(recv).filter(web_transport)
            &&& left == events.filter(send).filter(web_transport).filter(recv)
            &&& left == events.filter(web_transport).filter(recv).filter(send)
            &&& left == events.filter(web_transport).filter(send).filter(recv)
        }),
{
    let recv = off_recv_side(stream_id);
    let send = off_send_side(stream_id);
    let web_transport = off_web_transport(stream_id);
    lemma_filter_three_times(events, recv, send, web_transport, off_stream(stream_id));
    lemma_filter_three_times(events, recv, web_transport, send, off_stream(stream_id));
    lemma_filter_three_times(events, send, recv, web_transport, off_stream(stream_id));
    lemma_filter_three_times(events, send, web_transport, recv, off_stream(stream_id));
    lemma_filter_three_times(events, web_transport, recv, send, off_stream(stream_id));
    lemma_filter_three_times(events, web_transport, send, recv, off_stream(stream_id));
}

proof fn lemma_filter_three_times(
    events: Seq<Http3ClientEvent>,
    first: spec_fn(Http3ClientEvent) -> bool,
    second: spec_fn(Http3ClientEvent) -> bool,
    third: spec_fn(Http3ClientEvent) -> bool,
    all: spec_fn(Http3ClientEvent) -> bool,
)
    requires
        forall|event: Http3ClientEvent| #[trigger]
            all(event) <==> first(event) && second(event) && third(event),
    ensures
        events.filter(first).filter(second).filter(third) == events.filter(all),
{
    let both = |event: Http3ClientEvent| first(event) && second(event);
    lemma_filter_twice(events, first, second, both);
    lemma_filter_twice(events, both, third, all);
}

/// Nothing is left of a stream whose events have been removed, and the events of everything
/// else are still there.
pub proof fn law_removed_stream_is_gone(
    events: Seq<Http3ClientEvent>,
    stream_id: u64,
    event: Http3ClientEvent,
)
    ensures
        events.filter(off_stream(stream_id)).contains(event) <==> events.contains(event)
            && !is_of_stream(event, stream_id),
{
    law_dropping_is_exact(events, off_stream(stream_id), event);
}

/// A reset is the last word on what a stream has received: no other event speaks of it, and
/// the events of everything else are as they were.
pub proof fn law_reset_is_the_last_word(
    events: Seq<Http3ClientEvent>,
    stream_id: u64,
    error: AppError,
    local: bool,
)
    ensures
        ({
            let reset = Http3ClientEvent::Reset { stream_id, error, local };
            let after = events.filter(off_recv_side(stream_id)).push(reset);
            &&& after.last() == reset
            &&& forall|i: int|
                0 <= i < after.len() - 1 ==> !is_recv_side(#[trigger] after[i], stream_id)
            &&& after.filter(off_recv_side(stream_id)) == events.filter(off_recv_side(stream_id))
        }),
{
    let keep = off_recv_side(stream_id);
    lemma_kept(events, keep);
    lemma_push_dropped(events, keep, Http3ClientEvent::Reset { stream_id, error, local });
}

/// When the peer stops a stream, that is the only event about sending on it, and the events of
/// everything else are as they were.
pub proof fn law_stop_is_the_last_word(
    events: Seq<Http3ClientEvent>,
    stream_id: u64,
    error: AppError,
)
    ensures
        ({
            let stop = Http3ClientEvent::StopSending { stream_id, error };
            let after = events.filter(off_send_side(stream_id)).push(stop);
            &&& after.last() == stop
            &&& forall|i: int|
                0 <= i < after.len() - 1 ==> !is_send_side(#[trigger] after[i], stream_id)
            &&& after.filter(off_send_side(stream_id)) == events.filter(off_send_side(stream_id))
        }),
{
    let keep = off_send_side(stream_id);
    lemma_kept(events, keep);
    lemma_push_dropped(events, keep, Http3ClientEvent::StopSending { stream_id, error });
}

proof fn lemma_kept(events: Seq<Http3ClientEvent>, keep: spec_fn(Http3ClientEvent) -> bool)
    ensures
        forall|i: int|
            0 <= i < events.filter(keep).len() ==> keep(#[trigger] events.filter(keep)[i]),
{
    let kept = events.filter(keep);
    assert forall|i: int| 0 <= i < kept.len() implies keep(#[trigger] kept[i]) by {
        law_dropping_is_exact(events, keep, kept[i]);
        assert(kept.contains(kept[i]));
    }
}

proof fn lemma_push_dropped(
    events: Seq<Http3ClientEvent>,
    keep: spec_fn(Http3ClientEvent) -> bool,
    event: Http3ClientEvent,
)
    requires
        !keep(event),
    ensures
        events.filter(keep).push(event).filter(keep) == events.filter(keep),
{
    reveal(Seq::filter);
    law_dropping_again_changes_nothing(events, keep);
    assert(events.filter(keep).push(event).drop_last() =~= events.filter(keep));
}

/// A promise is found until it is taken or withdrawn.
pub proof fn law_promise_is_found(
    events: Seq<Http3ClientEvent>,
    push_id: u64,
    request_stream_id: u64,
    headers: Vec<Header>,
    other: u64,
)
    ensures
        ({
            let promise = Http3ClientEvent::PushPromise { push_id, request_stream_id, headers };
            let after = events.push(promise);
            &&& has_promise(after, push_id)
            &&& other != push_id ==> has_promise(after, other) == has_promise(events, other)
        }),
{
    let promise = Http3ClientEvent::PushPromise { push_id, request_stream_id, headers };
    let after = events.push(promise);
    assert(is_promise(after[events.len() as int], push_id));
    if other != push_id {
        lemma_push_no_promise(events, promise, other);
    }
}

proof fn lemma_push_no_promise(
    events: Seq<Http3ClientEvent>,
    event: Http3ClientEvent,
    push_id: u64,
)
    requires
        !is_promise(event, push_id),
    ensures
        has_promise(events.push(event), push_id) == has_promise(events, push_id),
{
    let after = events.push(event);
    if has_promise(events, push_id) {
        let i = choose|i: int| 0 <= i < events.len() && is_promise(#[trigger] events[i], push_id);
        assert(is_promise(after[i], push_id));
    }
    if has_promise(after, push_id) {
        let i = choose|i: int| 0 <= i < after.len() && is_promise(#[trigger] after[i], push_id);
        assert(is_promise(events[i], push_id));
    }
}

/// A push whose events have been removed is not promised, and other pushes are promised as
/// before.
pub proof fn law_removed_push_is_not_promised(
    events: Seq<Http3ClientEvent>,
    push_id: u64,
    other: u64,
)
    ensures
        !has_promise(events.filter(off_push(push_id)), push_id),
        other != push_id ==> has_promise(events.filter(off_push(push_id)), other) == has_promise(
            events,
            other,
        ),
{
    let keep = off_push(push_id);
    let kept = events.filter(keep);
    lemma_kept(events, keep);
    if has_promise(kept, push_id) {
        let i = choose|i: int| 0 <= i < kept.len() && is_promise(#[trigger] kept[i], push_id);
        assert(is_of_push(kept[i], push_id));
        assert(keep(kept[i]));
    }
    if other != push_id && has_promise(events, other) {
        let i = choose|i: int| 0 <= i < events.len() && is_promise(#[trigger] events[i], other);
        assert(events.contains(events[i]));
        law_dropping_is_exact(events, keep, events[i]);
        let j = choose|j: int| 0 <= j < kept.len() && kept[j] == events[i];
        assert(is_promise(kept[j], other));
    }
    if other != push_id && has_promise(kept, other) {
        let i = choose|i: int| 0 <= i < kept.len() && is_promise(#[trigger] kept[i], other);
        assert(kept.contains(kept[i]));
        law_dropping_is_exact(events, keep, kept[i]);
        let j = choose|j: int| 0 <= j < events.len() && events[j] == kept[i];
        assert(is_promise(events[j], other));
    }
}

/// A push that is canceled or reset is no longer promised, and other pushes are promised as
/// before.
pub proof fn law_ended_push_is_not_promised(
    events: Seq<Http3ClientEvent>,
    push_id: u64,
    error: AppError,
    other: u64,
)
    ensures
        ({
            let kept = events.filter(off_push(push_id));
            let canceled = kept.push(Http3ClientEvent::PushCanceled { push_id });
            let reset = kept.push(Http3ClientEvent::PushReset { push_id, error });
            &&& !has_promise(canceled, push_id)
            &&& !has_promise(reset, push_id)
            &&& other != push_id ==> has_promise(canceled, other) == has_promise(events, other)
            &&& other != push_id ==> has_promise(reset, other) == has_promise(events, other)
        }),
{
    let kept = events.filter(off_push(push_id));
    law_removed_push_is_not_promised(events, push_id, other);
    lemma_push_no_promise(kept, Http3ClientEvent::PushCanceled { push_id }, push_id);
    lemma_push_no_promise(kept, Http3ClientEvent::PushReset { push_id, error }, push_id);
    lemma_push_no_promise(kept, Http3ClientEvent::PushCanceled { push_id }, other);
    lemma_push_no_promise(kept, Http3ClientEvent::PushReset { push_id, error }, other);
}

/// Once the peer goes away, no event invites new requests, and the last one tells of it.
pub proof fn law_no_invitation_after_goaway(events: Seq<Http3ClientEvent>)
    ensures
        ({
            let after = events.filter(off_creatable()).push(Http3ClientEvent::GoawayReceived);
            &&& !after.contains(Http3ClientEvent::RequestsCreatable)
            &&& after.last() == Http3ClientEvent::GoawayReceived
        }),
{
    let event = Http3ClientEvent::RequestsCreatable;
    law_dropping_is_exact(events, off_creatable(), event);
    lemma_push_contains(
        events.filter(off_creatable()),
        Http3ClientEvent::GoawayReceived,
        event,
    );
}

/// A connection that closes or is closed has nothing else to tell.
pub proof fn law_closing_is_all_there_is(events: Seq<Http3ClientEvent>, state: Http3State)
    requires
        state is Closing || state is Closed,
    ensures
        relevant(events, state).push(Http3ClientEvent::StateChange(state)) == seq![
            Http3ClientEvent::StateChange(state),
        ],
{
    assert(relevant(events, state).push(Http3ClientEvent::StateChange(state)) =~= seq![
        Http3ClientEvent::StateChange(state),
    ]);
}

/// Once a connection is established, no event announces early data.
pub proof fn law_no_early_data_once_connected(events: Seq<Http3ClientEvent>)
    ensures
        !relevant(events, Http3State::Connected).push(
            Http3ClientEvent::StateChange(Http3State::Connected),
        ).contains(Http3ClientEvent::StateChange(Http3State::ZeroRtt)),
{
    let event = Http3ClientEvent::StateChange(Http3State::ZeroRtt);
    law_dropping_is_exact(events, off_zero_rtt(), event);
    lemma_push_contains(
        events.filter(off_zero_rtt()),
        Http3ClientEvent::StateChange(Http3State::Connected),
        event,
    );
}

} // verus!
