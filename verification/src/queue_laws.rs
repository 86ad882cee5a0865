//! What the operations on the queue of client events do, event by event.
use vstd::prelude::*;

use crate::client_events::{
    is_promise, off_creatable, off_push, off_recv_side, off_send_side, off_stream, off_zero_rtt,
    Http3ClientEvent, Http3ClientEvents,
};
use crate::client_state::{Header, Http3State, ResumptionToken};
use crate::event_laws::{in_order, law_dropping_is_exact, law_order_is_kept, lemma_push_contains};
use crate::transport::{AppError, ConnectionError, StreamId, StreamType};

verus! {

proof fn lemma_count_kept(
    events: Seq<Http3ClientEvent>,
    keep: spec_fn(Http3ClientEvent) -> bool,
    event: Http3ClientEvent,
)
    ensures
        events.filter(keep).to_multiset().count(event) == (if keep(event) {
            events.to_multiset().count(event)
        } else {
            0
        }),
    decreases events.len(),
{
    broadcast use vstd::seq_lib::group_to_multiset_ensures;

    reveal(Seq::filter);
    if events.len() > 0 {
        let prior = events.drop_last();
        lemma_count_kept(prior, keep, event);
        assert(prior.push(events.last()) =~= events);
        assert(events.to_multiset() =~= prior.to_multiset().insert(events.last()));
        if keep(events.last()) {
            assert(events.filter(keep).to_multiset() =~= prior.filter(keep).to_multiset().insert(
                events.last(),
            ));
        }
    } else {
        assert(events.filter(keep) =~= events);
        assert(!events.contains(event));
        assert(events.to_multiset().count(event) == 0);
    }
}

/// What is kept, is kept in its order and as often as it was there, and nothing else is there.
proof fn lemma_sifted(events: Seq<Http3ClientEvent>, keep: spec_fn(Http3ClientEvent) -> bool)
    ensures
        exists|at: Seq<int>| in_order(events, events.filter(keep), at),
        forall|event: Http3ClientEvent|
            #![trigger events.filter(keep).contains(event)]
            events.filter(keep).contains(event) ==> keep(event),
        forall|event: Http3ClientEvent|
            #![trigger events.filter(keep).to_multiset().count(event)]
            keep(event) ==> events.filter(keep).to_multiset().count(event)
                == events.to_multiset().count(event),
{
    law_order_is_kept(events, keep);
    assert forall|event: Http3ClientEvent|
        #![trigger events.filter(keep).contains(event)]
        events.filter(keep).contains(event) implies keep(event) by {
        law_dropping_is_exact(events, keep, event);
    }
    assert forall|event: Http3ClientEvent|
        #![trigger events.filter(keep).to_multiset().count(event)]
        keep(event) implies events.filter(keep).to_multiset().count(event)
        == events.to_multiset().count(event) by {
        lemma_count_kept(events, keep, event);
    }
}

/// The same with a new event behind what is kept.
proof fn lemma_sifted_push(
    events: Seq<Http3ClientEvent>,
    keep: spec_fn(Http3ClientEvent) -> bool,
    last: Http3ClientEvent,
)
    ensures
        ({
            let after = events.filter(keep).push(last);
            &&& after.drop_last() == events.filter(keep)
            &&& after.last() == last
            &&& forall|event: Http3ClientEvent| #[trigger]
                after.contains(event) ==> keep(event) || event == last
        }),
{
    let after = events.filter(keep).push(last);
    lemma_sifted(events, keep);
    assert(after.drop_last() =~= events.filter(keep));
    assert forall|event: Http3ClientEvent| #[trigger] after.contains(event) implies keep(event)
        || event == last by {
        lemma_push_contains(events.filter(keep), last, event);
    }
}

/// After a reset nothing is left of what the stream had received: no headers, whatever they
/// are, no data, no promise and no earlier reset. The reset stands behind everything else, and
/// everything else stays, as often and in the order in which it was there.
pub proof fn law_reset_drops_what_was_received(
    events: &mut Http3ClientEvents,
    stream_id: u64,
    error: AppError,
    local: bool,
)
    requires
        call_ensures(Http3ClientEvents::reset, (events, stream_id, error, local), ()),
    ensures
        final(events)@.len() > 0,
        final(events)@.last() == (Http3ClientEvent::Reset { stream_id, error, local }),
        forall|headers: Vec<Header>, interim: bool, fin: bool|
            !#[trigger] final(events)@.contains(
                (Http3ClientEvent::HeaderReady { stream_id, headers, interim, fin }),
            ),
        !final(events)@.contains((Http3ClientEvent::DataReadable { stream_id })),
        forall|push_id: u64, headers: Vec<Header>|
            !#[trigger] final(events)@.contains(
                (Http3ClientEvent::PushPromise { push_id, request_stream_id: stream_id, headers }),
            ),
        forall|code: AppError, by_us: bool|
            !#[trigger] final(events)@.drop_last().contains(
                (Http3ClientEvent::Reset { stream_id, error: code, local: by_us }),
            ),
        forall|event: Http3ClientEvent|
            (match event {
                Http3ClientEvent::HeaderReady { stream_id: id, .. } => id != stream_id,
                Http3ClientEvent::DataReadable { stream_id: id } => id != stream_id,
                Http3ClientEvent::PushPromise { request_stream_id: id, .. } => id != stream_id,
                Http3ClientEvent::Reset { stream_id: id, .. } => id != stream_id,
                _ => true,
            }) ==> #[trigger] final(events)@.drop_last().to_multiset().count(event)
                == old(events)@.to_multiset().count(event),
        exists|at: Seq<int>| in_order(old(events)@, final(events)@.drop_last(), at),
{
    let last = Http3ClientEvent::Reset { stream_id, error, local };
    lemma_sifted(old(events)@, off_recv_side(stream_id));
    lemma_sifted_push(old(events)@, off_recv_side(stream_id), last);
}

/// When the events about sending on a stream are removed, no word is left of whether data can be
/// written or sending was stopped, and everything else stays, as often and in its order.
pub proof fn law_remove_send_side_event(
    events: &mut Http3ClientEvents,
    stream_id: u64,
)
    requires
        call_ensures(Http3ClientEvents::remove_send_side_event, (events, stream_id), ()),
    ensures
        !final(events)@.contains((Http3ClientEvent::DataWritable { stream_id })),
        forall|code: AppError|
            !#[trigger] final(events)@.contains(
                (Http3ClientEvent::StopSending { stream_id, error: code }),
            ),
        forall|event: Http3ClientEvent|
            (match event {
                Http3ClientEvent::DataWritable { stream_id: id } => id != stream_id,
                Http3ClientEvent::StopSending { stream_id: id, .. } => id != stream_id,
                _ => true,
            }) ==> #[trigger] final(events)@.to_multiset().count(event)
                == old(events)@.to_multiset().count(event),
        exists|at: Seq<int>| in_order(old(events)@, final(events)@, at),
{
    lemma_sifted(old(events)@, off_send_side(stream_id));
}

/// After the peer has stopped a stream no data can be written, and no earlier stop is left. The
/// stop stands behind everything else, and everything else stays, as often and in its order.
pub proof fn law_stop_sending_drops_writability(
    events: &mut Http3ClientEvents,
    stream_id: u64,
    error: AppError,
)
    requires
        call_ensures(Http3ClientEvents::stop_sending, (events, stream_id, error), ()),
    ensures
        final(events)@.len() > 0,
        final(events)@.last() == (Http3ClientEvent::StopSending { stream_id, error }),
        !final(events)@.contains((Http3ClientEvent::DataWritable { stream_id })),
        forall|code: AppError|
            !#[trigger] final(events)@.drop_last().contains(
                (Http3ClientEvent::StopSending { stream_id, error: code }),
            ),
        forall|event: Http3ClientEvent|
            (match event {
                Http3ClientEvent::DataWritable { stream_id: id } => id != stream_id,
                Http3ClientEvent::StopSending { stream_id: id, .. } => id != stream_id,
                _ => true,
            }) ==> #[trigger] final(events)@.drop_last().to_multiset().count(event)
                == old(events)@.to_multiset().count(event),
        exists|at: Seq<int>| in_order(old(events)@, final(events)@.drop_last(), at),
{
    let last = Http3ClientEvent::StopSending { stream_id, error };
    lemma_sifted(old(events)@, off_send_side(stream_id));
    lemma_sifted_push(old(events)@, off_send_side(stream_id), last);
}

/// When the events of a stream are removed, no event is left that bears its number, and everything
/// else stays, as often and in its order.
pub proof fn law_remove_events_for_stream_id(
    events: &mut Http3ClientEvents,
    stream_id: u64,
)
    requires
        call_ensures(Http3ClientEvents::remove_events_for_stream_id, (events, stream_id), ()),
    ensures
        forall|headers: Vec<Header>, interim: bool, fin: bool|
            !#[trigger] final(events)@.contains(
                (Http3ClientEvent::HeaderReady { stream_id, headers, interim, fin }),
            ),
        !final(events)@.contains((Http3ClientEvent::DataReadable { stream_id })),
        forall|push_id: u64, headers: Vec<Header>|
            !#[trigger] final(events)@.contains(
                (Http3ClientEvent::PushPromise { push_id, request_stream_id: stream_id, headers }),
            ),
        forall|code: AppError, by_us: bool|
            !#[trigger] final(events)@.contains(
                (Http3ClientEvent::Reset { stream_id, error: code, local: by_us }),
            ),
        !final(events)@.contains((Http3ClientEvent::DataWritable { stream_id })),
        forall|code: AppError|
            !#[trigger] final(events)@.contains(
                (Http3ClientEvent::StopSending { stream_id, error: code }),
            ),
        forall|success: bool|
            !#[trigger] final(events)@.contains(
                (Http3ClientEvent::WebTransportSessionNegotiated { stream_id, success }),
            ),
        !final(events)@.contains((Http3ClientEvent::WebTransportNewStream { stream_id })),
        !final(events)@.contains((Http3ClientEvent::WebTransportDataReadable { stream_id })),
        forall|code: AppError|
            !#[trigger] final(events)@.contains(
                (Http3ClientEvent::WebTransportStreamReset { stream_id, error: code }),
            ),
        !final(events)@.contains((Http3ClientEvent::WebTransportDataWritable { stream_id })),
        forall|code: AppError|
            !#[trigger] final(events)@.contains(
                (Http3ClientEvent::WebTransportStreamStopSending { stream_id, error: code }),
            ),
        forall|event: Http3ClientEvent|
            (match event {
                Http3ClientEvent::HeaderReady { stream_id: id, .. } => id != stream_id,
                Http3ClientEvent::DataReadable { stream_id: id } => id != stream_id,
                Http3ClientEvent::PushPromise { request_stream_id: id, .. } => id != stream_id,
                Http3ClientEvent::Reset { stream_id: id, .. } => id != stream_id,
                Http3ClientEvent::DataWritable { stream_id: id } => id != stream_id,
                Http3ClientEvent::StopSending { stream_id: id, .. } => id != stream_id,
                Http3ClientEvent::WebTransportSessionNegotiated { stream_id: id, .. } => {
                    id != stream_id
                },
                Http3ClientEvent::WebTransportNewStream { stream_id: id } => id != stream_id,
                Http3ClientEvent::WebTransportDataReadable { stream_id: id } => id != stream_id,
                Http3ClientEvent::WebTransportStreamReset { stream_id: id, .. } => id != stream_id,
                Http3ClientEvent::WebTransportDataWritable { stream_id: id } => id != stream_id,
                Http3ClientEvent::WebTransportStreamStopSending { stream_id: id, .. } => {
                    id != stream_id
                },
                _ => true,
            }) ==> #[trigger] final(events)@.to_multiset().count(event)
                == old(events)@.to_multiset().count(event),
        exists|at: Seq<int>| in_order(old(events)@, final(events)@, at),
{
    lemma_sifted(old(events)@, off_stream(stream_id));
}

/// When the events of a push are removed, no promise, no headers, whatever they are, no data and no
/// cancellation of it is left, and everything else stays, as often and in its order.
pub proof fn law_remove_events_for_push_id(
    events: &mut Http3ClientEvents,
    push_id: u64,
)
    requires
        call_ensures(Http3ClientEvents::remove_events_for_push_id, (events, push_id), ()),
    ensures
        forall|request_stream_id: u64, headers: Vec<Header>|
            !#[trigger] final(events)@.contains(
                (Http3ClientEvent::PushPromise { push_id, request_stream_id, headers }),
            ),
        forall|headers: Vec<Header>, interim: bool, fin: bool|
            !#[trigger] final(events)@.contains(
                (Http3ClientEvent::PushHeaderReady { push_id, headers, interim, fin }),
            ),
        !final(events)@.contains((Http3ClientEvent::PushDataReadable { push_id })),
        !final(events)@.contains((Http3ClientEvent::PushCanceled { push_id })),
        forall|event: Http3ClientEvent|
            (match event {
                Http3ClientEvent::PushPromise { push_id: id, .. } => id != push_id,
                Http3ClientEvent::PushHeaderReady { push_id: id, .. } => id != push_id,
                Http3ClientEvent::PushDataReadable { push_id: id } => id != push_id,
                Http3ClientEvent::PushCanceled { push_id: id } => id != push_id,
                _ => true,
            }) ==> #[trigger] final(events)@.to_multiset().count(event)
                == old(events)@.to_multiset().count(event),
        exists|at: Seq<int>| in_order(old(events)@, final(events)@, at),
{
    lemma_sifted(old(events)@, off_push(push_id));
}

/// After a push is canceled no promise, no headers, whatever they are, and no data of it is left,
/// and it is canceled once. The cancellation stands behind everything else, and everything else
/// stays, as often and in its order.
pub proof fn law_push_canceled_drops_the_push(
    events: &mut Http3ClientEvents,
    push_id: u64,
)
    requires
        call_ensures(Http3ClientEvents::push_canceled, (events, push_id), ()),
    ensures
        final(events)@.len() > 0,
        final(events)@.last() == (Http3ClientEvent::PushCanceled { push_id }),
        forall|request_stream_id: u64, headers: Vec<Header>|
            !#[trigger] final(events)@.contains(
                (Http3ClientEvent::PushPromise { push_id, request_stream_id, headers }),
            ),
        forall|headers: Vec<Header>, interim: bool, fin: bool|
            !#[trigger] final(events)@.contains(
                (Http3ClientEvent::PushHeaderReady { push_id, headers, interim, fin }),
            ),
        !final(events)@.contains((Http3ClientEvent::PushDataReadable { push_id })),
        !final(events)@.drop_last().contains((Http3ClientEvent::PushCanceled { push_id })),
        forall|event: Http3ClientEvent|
            (match event {
                Http3ClientEvent::PushPromise { push_id: id, .. } => id != push_id,
                Http3ClientEvent::PushHeaderReady { push_id: id, .. } => id != push_id,
                Http3ClientEvent::PushDataReadable { push_id: id } => id != push_id,
                Http3ClientEvent::PushCanceled { push_id: id } => id != push_id,
                _ => true,
            }) ==> #[trigger] final(events)@.drop_last().to_multiset().count(event)
                == old(events)@.to_multiset().count(event),
        exists|at: Seq<int>| in_order(old(events)@, final(events)@.drop_last(), at),
{
    let last = Http3ClientEvent::PushCanceled { push_id };
    lemma_sifted(old(events)@, off_push(push_id));
    lemma_sifted_push(old(events)@, off_push(push_id), last);
}

/// After a push is reset no promise, no headers, whatever they are, no data and no cancellation of
/// it is left. The reset stands behind everything else, and everything else stays, as often and in
/// its order.
pub proof fn law_push_reset_drops_the_push(
    events: &mut Http3ClientEvents,
    push_id: u64,
    error: AppError,
)
    requires
        call_ensures(Http3ClientEvents::push_reset, (events, push_id, error), ()),
    ensures
        final(events)@.len() > 0,
        final(events)@.last() == (Http3ClientEvent::PushReset { push_id, error }),
        forall|request_stream_id: u64, headers: Vec<Header>|
            !#[trigger] final(events)@.contains(
                (Http3ClientEvent::PushPromise { push_id, request_stream_id, headers }),
            ),
        forall|headers: Vec<Header>, interim: bool, fin: bool|
            !#[trigger] final(events)@.contains(
                (Http3ClientEvent::PushHeaderReady { push_id, headers, interim, fin }),
            ),
        !final(events)@.contains((Http3ClientEvent::PushDataReadable { push_id })),
        !final(events)@.contains((Http3ClientEvent::PushCanceled { push_id })),
        forall|event: Http3ClientEvent|
            (match event {
                Http3ClientEvent::PushPromise { push_id: id, .. } => id != push_id,
                Http3ClientEvent::PushHeaderReady { push_id: id, .. } => id != push_id,
                Http3ClientEvent::PushDataReadable { push_id: id } => id != push_id,
                Http3ClientEvent::PushCanceled { push_id: id } => id != push_id,
                _ => true,
            }) ==> #[trigger] final(events)@.drop_last().to_multiset().count(event)
                == old(events)@.to_multiset().count(event),
        exists|at: Seq<int>| in_order(old(events)@, final(events)@.drop_last(), at),
{
    let last = Http3ClientEvent::PushReset { push_id, error };
    lemma_sifted(old(events)@, off_push(push_id));
    lemma_sifted_push(old(events)@, off_push(push_id), last);
}

/// Once the peer goes away, no event invites new requests. That it goes away stands behind
/// everything else, and everything else stays, as often and in its order.
pub proof fn law_goaway_received_drops_invitations(events: &mut Http3ClientEvents)
    requires
        call_ensures(Http3ClientEvents::goaway_received, (events,), ()),
    ensures
        final(events)@.len() > 0,
        final(events)@.last() == Http3ClientEvent::GoawayReceived,
        !final(events)@.contains(Http3ClientEvent::RequestsCreatable),
        forall|event: Http3ClientEvent|
            event != Http3ClientEvent::RequestsCreatable
                ==> #[trigger] final(events)@.drop_last().to_multiset().count(event)
                == old(events)@.to_multiset().count(event),
        exists|at: Seq<int>| in_order(old(events)@, final(events)@.drop_last(), at),
{
    lemma_sifted(old(events)@, off_creatable());
    lemma_sifted_push(old(events)@, off_creatable(), Http3ClientEvent::GoawayReceived);
}

/// Once the connection is established, the announcement of early data is dropped and nothing
/// else: every other event stays, as often and in its order, before the new one.
pub proof fn law_connected_drops_early_data_alone(events: &mut Http3ClientEvents)
    requires
        call_ensures(
            Http3ClientEvents::connection_state_change,
            (events, Http3State::Connected),
            (),
        ),
    ensures
        final(events)@.len() > 0,
        final(events)@.last() == Http3ClientEvent::StateChange(Http3State::Connected),
        !final(events)@.contains(Http3ClientEvent::StateChange(Http3State::ZeroRtt)),
        forall|event: Http3ClientEvent|
            event != Http3ClientEvent::StateChange(Http3State::ZeroRtt)
                ==> #[trigger] final(events)@.drop_last().to_multiset().count(event)
                == old(events)@.to_multiset().count(event),
        exists|at: Seq<int>| in_order(old(events)@, final(events)@.drop_last(), at),
{
    let last = Http3ClientEvent::StateChange(Http3State::Connected);
    lemma_sifted(old(events)@, off_zero_rtt());
    lemma_sifted_push(old(events)@, off_zero_rtt(), last);
}

/// A connection that closes, or is closed, for whatever reason has nothing else to tell.
pub proof fn law_closing_drops_everything(events: &mut Http3ClientEvents, reason: ConnectionError)
    ensures
        call_ensures(
            Http3ClientEvents::connection_state_change,
            (events, Http3State::Closing(reason)),
            (),
        ) ==> final(events)@ == seq![Http3ClientEvent::StateChange(Http3State::Closing(reason))],
        call_ensures(
            Http3ClientEvents::connection_state_change,
            (events, Http3State::Closed(reason)),
            (),
        ) ==> final(events)@ == seq![Http3ClientEvent::StateChange(Http3State::Closed(reason))],
{
}

/// Any other change of state drops nothing.
pub proof fn law_other_states_drop_nothing(events: &mut Http3ClientEvents, stream_id: StreamId)
    ensures
        call_ensures(
            Http3ClientEvents::connection_state_change,
            (events, Http3State::Initializing),
            (),
        ) ==> final(events)@ == old(events)@.push(
            Http3ClientEvent::StateChange(Http3State::Initializing),
        ),
        call_ensures(
            Http3ClientEvents::connection_state_change,
            (events, Http3State::ZeroRtt),
            (),
        ) ==> final(events)@ == old(events)@.push(
            Http3ClientEvent::StateChange(Http3State::ZeroRtt),
        ),
        call_ensures(
            Http3ClientEvents::connection_state_change,
            (events, Http3State::GoingAway(stream_id)),
            (),
        ) ==> final(events)@ == old(events)@.push(
            Http3ClientEvent::StateChange(Http3State::GoingAway(stream_id)),
        ),
{
}

/// A push is there exactly when its promise is, with whatever headers and on whatever stream.
pub proof fn law_has_push_finds_promises(events: &Http3ClientEvents, push_id: u64, found: bool)
    requires
        call_ensures(Http3ClientEvents::has_push, (events, push_id), found),
    ensures
        found <==> exists|request_stream_id: u64, headers: Vec<Header>| #[trigger]
            events@.contains(
                (Http3ClientEvent::PushPromise { push_id, request_stream_id, headers }),
            ),
{
    if found {
        let i = choose|i: int|
            0 <= i < events@.len() && is_promise(#[trigger] events@[i], push_id);
        match events@[i] {
            Http3ClientEvent::PushPromise { request_stream_id, headers, .. } => {
                assert(events@.contains(
                    (Http3ClientEvent::PushPromise { push_id, request_stream_id, headers }),
                ));
            },
            _ => {},
        }
    }
    if exists|request_stream_id: u64, headers: Vec<Header>| #[trigger]
        events@.contains(
            (Http3ClientEvent::PushPromise { push_id, request_stream_id, headers }),
        ) {
        let (request_stream_id, headers) = choose|request_stream_id: u64, headers: Vec<Header>|
         #[trigger]
            events@.contains(
                (Http3ClientEvent::PushPromise { push_id, request_stream_id, headers }),
            );
        let promise = Http3ClientEvent::PushPromise { push_id, request_stream_id, headers };
        let i = choose|i: int| 0 <= i < events@.len() && events@[i] == promise;
        assert(is_promise(events@[i], push_id));
    }
}

/// A new event makes a push found if it is the promise of it. Any other event, be it of the
/// same push, leaves the answer as it was.
pub proof fn law_insert_and_has_push(
    events: &mut Http3ClientEvents,
    event: Http3ClientEvent,
    before: &Http3ClientEvents,
    after: &Http3ClientEvents,
    push_id: u64,
    found_before: bool,
    found_after: bool,
)
    requires
        *before == *old(events),
        *after == *final(events),
        call_ensures(Http3ClientEvents::has_push, (before, push_id), found_before),
        call_ensures(Http3ClientEvents::insert, (events, event), ()),
        call_ensures(Http3ClientEvents::has_push, (after, push_id), found_after),
    ensures
        found_after == (found_before || (event matches Http3ClientEvent::PushPromise {
            push_id: id,
            ..
        } && id == push_id)),
{
    let all = before@.push(event);
    law_has_push_finds_promises(before, push_id, found_before);
    law_has_push_finds_promises(after, push_id, found_after);
    assert forall|other: Http3ClientEvent| #[trigger] all.contains(other) <==> before@.contains(
        other,
    ) || other == event by {
        lemma_push_contains(before@, event, other);
    }
    if found_before {
        let (request_stream_id, headers) = choose|request_stream_id: u64, headers: Vec<Header>|
         #[trigger]
            before@.contains(
                (Http3ClientEvent::PushPromise { push_id, request_stream_id, headers }),
            );
        assert(after@.contains(
            (Http3ClientEvent::PushPromise { push_id, request_stream_id, headers }),
        ));
    }
    match event {
        Http3ClientEvent::PushPromise { push_id: id, request_stream_id, headers } => {
            if id == push_id {
                assert(after@.contains(
                    (Http3ClientEvent::PushPromise { push_id, request_stream_id, headers }),
                ));
            }
        },
        _ => {},
    }
}

/// Taking an event loses a push only if the event is the promise of it. Taking any other event,
/// be it of the same push, leaves the answer as it was.
pub proof fn law_next_event_and_has_push(
    events: &mut Http3ClientEvents,
    event: Option<Http3ClientEvent>,
    before: &Http3ClientEvents,
    after: &Http3ClientEvents,
    push_id: u64,
    found_before: bool,
    found_after: bool,
)
    requires
        *before == *old(events),
        *after == *final(events),
        call_ensures(Http3ClientEvents::has_push, (before, push_id), found_before),
        call_ensures(Http3ClientEvents::next_event, (events,), event),
        call_ensures(Http3ClientEvents::has_push, (after, push_id), found_after),
    ensures
        found_before == (found_after || (event matches Some(Http3ClientEvent::PushPromise {
            push_id: id,
            ..
        }) && id == push_id)),
{
    law_has_push_finds_promises(before, push_id, found_before);
    law_has_push_finds_promises(after, push_id, found_after);
    if before@.len() > 0 {
        let first = before@[0];
        assert forall|other: Http3ClientEvent| #[trigger]
            before@.contains(other) <==> after@.contains(other) || other == first by {
            if before@.contains(other) {
                let i = choose|i: int| 0 <= i < before@.len() && before@[i] == other;
                if i > 0 {
                    assert(after@[i - 1] == other);
                }
            }
            if after@.contains(other) {
                let i = choose|i: int| 0 <= i < after@.len() && after@[i] == other;
                assert(before@[i + 1] == other);
            }
        }
        if found_after {
            let (request_stream_id, headers) = choose|
                request_stream_id: u64,
                headers: Vec<Header>,
            | #[trigger]
                after@.contains(
                    (Http3ClientEvent::PushPromise { push_id, request_stream_id, headers }),
                );
            assert(before@.contains(
                (Http3ClientEvent::PushPromise { push_id, request_stream_id, headers }),
            ));
        }
        match first {
            Http3ClientEvent::PushPromise { push_id: id, request_stream_id, headers } => {
                if id == push_id {
                    assert(before@.contains(
                        (Http3ClientEvent::PushPromise { push_id, request_stream_id, headers }),
                    ));
                }
            },
            _ => {},
        }
    }
}

/// A new queue is empty, and nothing can be taken from an empty queue.
pub proof fn law_new_queue_is_empty(
    empty: Http3ClientEvents,
    present: bool,
    events: &mut Http3ClientEvents,
    event: Option<Http3ClientEvent>,
)
    requires
        call_ensures(<Http3ClientEvents as Default>::default, (), empty),
        call_ensures(Http3ClientEvents::has_events, (&empty,), present),
        *old(events) == empty,
        call_ensures(Http3ClientEvents::next_event, (events,), event),
    ensures
        empty@ == Seq::<Http3ClientEvent>::empty(),
        !present,
        event is None,
        final(events)@ == Seq::<Http3ClientEvent>::empty(),
{
}

/// There is something to take exactly when something is said to be present. What is taken is the
/// first event, and the others stay behind in their order.
pub proof fn law_first_event_is_taken(
    events: &mut Http3ClientEvents,
    before: &Http3ClientEvents,
    present: bool,
    event: Option<Http3ClientEvent>,
)
    requires
        *before == *old(events),
        call_ensures(Http3ClientEvents::has_events, (before,), present),
        call_ensures(Http3ClientEvents::next_event, (events,), event),
    ensures
        present <==> event is Some,
        present <==> old(events)@.len() > 0,
        match event {
            Some(first) => old(events)@ == seq![first] + final(events)@,
            None => final(events)@ == old(events)@,
        },
{
    if event is Some {
        assert(old(events)@ =~= seq![event->0] + final(events)@);
    }
}

/// What happens on a stream is told behind everything else, and drops nothing.
pub proof fn law_stream_events_go_last(
    events: &mut Http3ClientEvents,
    stream_id: u64,
    headers: Vec<Header>,
    interim: bool,
    fin: bool,
)
    ensures
        call_ensures(
            Http3ClientEvents::header_ready,
            (events, stream_id, headers, interim, fin),
            (),
        ) ==> final(events)@ == old(events)@.push(
            (Http3ClientEvent::HeaderReady { stream_id, headers, interim, fin }),
        ),
        call_ensures(Http3ClientEvents::data_readable, (events, stream_id), ()) ==> final(events)@
            == old(events)@.push((Http3ClientEvent::DataReadable { stream_id })),
        call_ensures(Http3ClientEvents::data_writable, (events, stream_id), ()) ==> final(events)@
            == old(events)@.push((Http3ClientEvent::DataWritable { stream_id })),
{
}

/// What happens on a stream of WebTransport is told behind everything else, and drops nothing.
/// New sessions are not told of at all.
pub proof fn law_web_transport_events_go_last(
    events: &mut Http3ClientEvents,
    stream_id: u64,
    headers: Vec<Header>,
    error: AppError,
    success: bool,
)
    ensures
        call_ensures(
            Http3ClientEvents::web_transport_new_session,
            (events, stream_id, headers),
            (),
        ) ==> final(events)@ == old(events)@,
        call_ensures(
            Http3ClientEvents::web_transport_session_negotiated,
            (events, stream_id, success),
            (),
        ) ==> final(events)@ == old(events)@.push(
            (Http3ClientEvent::WebTransportSessionNegotiated { stream_id, success }),
        ),
        call_ensures(Http3ClientEvents::web_transport_new_stream, (events, stream_id), ())
            ==> final(events)@ == old(events)@.push(
            (Http3ClientEvent::WebTransportNewStream { stream_id }),
        ),
        call_ensures(Http3ClientEvents::web_transport_data_readable, (events, stream_id), ())
            ==> final(events)@ == old(events)@.push(
            (Http3ClientEvent::WebTransportDataReadable { stream_id }),
        ),
        call_ensures(Http3ClientEvents::web_transport_stream_reset, (events, stream_id, error), ())
            ==> final(events)@ == old(events)@.push(
            (Http3ClientEvent::WebTransportStreamReset { stream_id, error }),
        ),
        call_ensures(Http3ClientEvents::web_transport_data_writable, (events, stream_id), ())
            ==> final(events)@ == old(events)@.push(
            (Http3ClientEvent::WebTransportDataWritable { stream_id }),
        ),
        call_ensures(
            Http3ClientEvents::web_transport_stream_stop_sending,
            (events, stream_id, error),
            (),
        ) ==> final(events)@ == old(events)@.push(
            (Http3ClientEvent::WebTransportStreamStopSending { stream_id, error }),
        ),
        call_ensures(Http3ClientEvents::web_transport_negotiation_done, (events, success), ())
            ==> final(events)@ == old(events)@.push(
            Http3ClientEvent::WebTransportNegotiated(success),
        ),
{
}

/// What happens to the connection is told behind everything else, and drops nothing. Only
/// streams that can carry requests invite new requests.
pub proof fn law_connection_events_go_last(
    events: &mut Http3ClientEvents,
    event: Http3ClientEvent,
    push_id: u64,
    request_stream_id: u64,
    headers: Vec<Header>,
    public_name: String,
    token: ResumptionToken,
)
    ensures
        call_ensures(Http3ClientEvents::insert, (events, event), ()) ==> final(events)@
            == old(events)@.push(event),
        call_ensures(
            Http3ClientEvents::push_promise,
            (events, push_id, request_stream_id, headers),
            (),
        ) ==> final(events)@ == old(events)@.push(
            (Http3ClientEvent::PushPromise { push_id, request_stream_id, headers }),
        ),
        call_ensures(Http3ClientEvents::new_requests_creatable, (events, StreamType::BiDi), ())
            ==> final(events)@ == old(events)@.push(Http3ClientEvent::RequestsCreatable),
        call_ensures(Http3ClientEvents::new_requests_creatable, (events, StreamType::UniDi), ())
            ==> final(events)@ == old(events)@,
        call_ensures(Http3ClientEvents::authentication_needed, (events,), ()) ==> final(events)@
            == old(events)@.push(Http3ClientEvent::AuthenticationNeeded),
        call_ensures(
            Http3ClientEvents::ech_fallback_authentication_needed,
            (events, public_name),
            (),
        ) ==> final(events)@ == old(events)@.push(
            (Http3ClientEvent::EchFallbackAuthenticationNeeded { public_name }),
        ),
        call_ensures(Http3ClientEvents::resumption_token, (events, token), ()) ==> final(events)@
            == old(events)@.push(Http3ClientEvent::ResumptionToken(token)),
        call_ensures(Http3ClientEvents::zero_rtt_rejected, (events,), ()) ==> final(events)@
            == old(events)@.push(Http3ClientEvent::ZeroRttRejected),
{
}

} // verus!
