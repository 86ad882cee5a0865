//! The events that a client is to hear of, in the order in which they came up.
use std::collections::VecDeque;

use vstd::prelude::*;

use crate::client_state::{Header, Http3State, ResumptionToken};
use crate::transport::{AppError, StreamType};

verus! {

#[derive(Debug, PartialOrd, Ord, PartialEq, Eq, Clone)]
pub enum Http3ClientEvent {
    /// Response headers are received.
    HeaderReady { stream_id: u64, headers: Vec<Header>, interim: bool, fin: bool },
    /// A stream can accept new data.
    DataWritable { stream_id: u64 },
    /// New bytes available for reading.
    DataReadable { stream_id: u64 },
    /// Peer reset the stream or there was a parsing error.
    Reset { stream_id: u64, error: AppError, local: bool },
    /// Peer has sent a STOP_SENDING.
    StopSending { stream_id: u64, error: AppError },
    /// A new push promise.
    PushPromise { push_id: u64, request_stream_id: u64, headers: Vec<Header> },
    /// Push response headers are ready.
    PushHeaderReady { push_id: u64, headers: Vec<Header>, interim: bool, fin: bool },
    /// New bytes are available on a push stream for reading.
    PushDataReadable { push_id: u64 },
    /// A push has been canceled.
    PushCanceled { push_id: u64 },
    /// A push stream has been reset because of a general protocol error, most often malformed
    /// response headers.
    PushReset { push_id: u64, error: AppError },
    /// New stream can be created.
    RequestsCreatable,
    /// Cert authentication needed.
    AuthenticationNeeded,
    /// Encrypted client hello fallback occurred. The certificate for the name `public_name`
    /// needs to be authenticated in order to get an updated ECH configuration.
    EchFallbackAuthenticationNeeded { public_name: String },
    /// A new resumption token.
    ResumptionToken(ResumptionToken),
    /// Zero Rtt has been rejected.
    ZeroRttRejected,
    /// Client has received a GOAWAY frame.
    GoawayReceived,
    /// Connection state change.
    StateChange(Http3State),
    /// WebTransport successfully negotiated.
    WebTransportNegotiated(bool),
    WebTransportSessionNegotiated { stream_id: u64, success: bool },
    WebTransportNewStream { stream_id: u64 },
    WebTransportDataReadable { stream_id: u64 },
    WebTransportStreamReset { stream_id: u64, error: AppError },
    WebTransportDataWritable { stream_id: u64 },
    WebTransportStreamStopSending { stream_id: u64, error: AppError },
}

/// Whether the event is about what has been received on the stream `stream_id`.
pub open spec fn is_recv_side(event: Http3ClientEvent, stream_id: u64) -> bool {
    match event {
        Http3ClientEvent::HeaderReady { stream_id: id, .. } => id == stream_id,
        Http3ClientEvent::DataReadable { stream_id: id } => id == stream_id,
        Http3ClientEvent::PushPromise { request_stream_id: id, .. } => id == stream_id,
        Http3ClientEvent::Reset { stream_id: id, .. } => id == stream_id,
        _ => false,
    }
}

/// Whether the event is about what can be sent on the stream `stream_id`.
pub open spec fn is_send_side(event: Http3ClientEvent, stream_id: u64) -> bool {
    match event {
        Http3ClientEvent::DataWritable { stream_id: id } => id == stream_id,
        Http3ClientEvent::StopSending { stream_id: id, .. } => id == stream_id,
        _ => false,
    }
}

/// Whether the event is about the stream `stream_id` as one of WebTransport.
pub open spec fn is_web_transport(event: Http3ClientEvent, stream_id: u64) -> bool {
    match event {
        Http3ClientEvent::WebTransportSessionNegotiated { stream_id: id, .. } => id == stream_id,
        Http3ClientEvent::WebTransportNewStream { stream_id: id } => id == stream_id,
        Http3ClientEvent::WebTransportDataReadable { stream_id: id } => id == stream_id,
        Http3ClientEvent::WebTransportStreamReset { stream_id: id, .. } => id == stream_id,
        Http3ClientEvent::WebTransportDataWritable { stream_id: id } => id == stream_id,
        Http3ClientEvent::WebTransportStreamStopSending { stream_id: id, .. } => id == stream_id,
        _ => false,
    }
}

/// Whether the event is for the stream `stream_id`, in whatever way.
pub open spec fn is_of_stream(event: Http3ClientEvent, stream_id: u64) -> bool {
    ||| is_recv_side(event, stream_id)
    ||| is_send_side(event, stream_id)
    ||| is_web_transport(event, stream_id)
}

/// Whether the event is about the push `push_id` as it goes on.
pub open spec fn is_of_push(event: Http3ClientEvent, push_id: u64) -> bool {
    match event {
        Http3ClientEvent::PushPromise { push_id: id, .. } => id == push_id,
        Http3ClientEvent::PushHeaderReady { push_id: id, .. } => id == push_id,
        Http3ClientEvent::PushDataReadable { push_id: id } => id == push_id,
        Http3ClientEvent::PushCanceled { push_id: id } => id == push_id,
        _ => false,
    }
}

/// Whether the event promises the push `push_id`.
pub open spec fn is_promise(event: Http3ClientEvent, push_id: u64) -> bool {
    event matches Http3ClientEvent::PushPromise { push_id: id, .. } && id == push_id
}

/// Picks the events that are not about what has been received on the stream `stream_id`.
pub open spec fn off_recv_side(stream_id: u64) -> spec_fn(Http3ClientEvent) -> bool {
    |event: Http3ClientEvent| !is_recv_side(event, stream_id)
}

/// Picks the events that are not about what can be sent on the stream `stream_id`.
pub open spec fn off_send_side(stream_id: u64) -> spec_fn(Http3ClientEvent) -> bool {
    |event: Http3ClientEvent| !is_send_side(event, stream_id)
}

/// Picks the events that are not about the stream `stream_id` as one of WebTransport.
pub open spec fn off_web_transport(stream_id: u64) -> spec_fn(Http3ClientEvent) -> bool {
    |event: Http3ClientEvent| !is_web_transport(event, stream_id)
}

/// Picks the events that are not for the stream `stream_id`.
pub open spec fn off_stream(stream_id: u64) -> spec_fn(Http3ClientEvent) -> bool {
    |event: Http3ClientEvent| !is_of_stream(event, stream_id)
}

/// Picks the events that are not about the push `push_id` as it goes on.
pub open spec fn off_push(push_id: u64) -> spec_fn(Http3ClientEvent) -> bool {
    |event: Http3ClientEvent| !is_of_push(event, push_id)
}

/// Picks the events that do not invite new requests.
pub open spec fn off_creatable() -> spec_fn(Http3ClientEvent) -> bool {
    |event: Http3ClientEvent| event != Http3ClientEvent::RequestsCreatable
}

/// Picks the events that do not announce early data.
pub open spec fn off_zero_rtt() -> spec_fn(Http3ClientEvent) -> bool {
    |event: Http3ClientEvent| event != Http3ClientEvent::StateChange(Http3State::ZeroRtt)
}

/// Whether one of the events promises the push `push_id`.
pub open spec fn has_promise(events: Seq<Http3ClientEvent>, push_id: u64) -> bool {
    exists|i: int| 0 <= i < events.len() && is_promise(#[trigger] events[i], push_id)
}

/// The events that still matter when the connection goes over to `state`: none once it is
/// closing, and no announcement of early data once it is established.
pub open spec fn relevant(events: Seq<Http3ClientEvent>, state: Http3State) -> Seq<
    Http3ClientEvent,
> {
    match state {
        Http3State::Closing(_) | Http3State::Closed(_) => Seq::empty(),
        Http3State::Connected => events.filter(off_zero_rtt()),
        _ => events,
    }
}

/// The events that are still to be taken, the oldest first.
#[derive(Debug)]
pub struct Http3ClientEvents {
    events: VecDeque<Http3ClientEvent>,
}

impl View for Http3ClientEvents {
    type V = Seq<Http3ClientEvent>;

    closed spec fn view(&self) -> Seq<Http3ClientEvent> {
        self.events@
    }
}

impl Default for Http3ClientEvents {
    fn default() -> (events: Self)
        ensures
            events@ == Seq::<Http3ClientEvent>::empty(),
    {
        Http3ClientEvents { events: VecDeque::new() }
    }
}

impl Http3ClientEvents {
    /// Adds an event behind all others.
    pub fn insert(&mut self, event: Http3ClientEvent)
        ensures
            final(self)@ == old(self)@.push(event),
    {
        self.events.push_back(event);
    }

    /// Drops the events that `f` picks and keeps the others in their order. `keep` says which
    /// those are.
    fn remove<F: Fn(&Http3ClientEvent) -> bool>(
        &mut self,
        f: F,
        Ghost(keep): Ghost<spec_fn(Http3ClientEvent) -> bool>,
    )
        requires
            forall|event: &Http3ClientEvent| #[trigger] call_requires(f, (event,)),
            forall|event: &Http3ClientEvent, picked: bool| #[trigger]
                call_ensures(f, (event,), picked) ==> picked == !keep(*event),
        ensures
            final(self)@ == old(self)@.filter(keep),
    {
        let ghost all = self@;
        let len: usize = self.events.len();
        let mut i: usize = 0;
        assert(all.skip(0) + all.take(0).filter(keep) =~= all) by {
            reveal(Seq::filter);
        }
        while i < len
            invariant
                i <= len == all.len(),
                self@ == all.skip(i as int) + all.take(i as int).filter(keep),
                forall|event: &Http3ClientEvent| #[trigger] call_requires(f, (event,)),
                forall|event: &Http3ClientEvent, picked: bool| #[trigger]
                    call_ensures(f, (event,), picked) ==> picked == !keep(*event),
            decreases len - i,
        {
            let ghost before = self@;
            if let Some(event) = self.events.pop_front() {
                assert(event == all[i as int]);
                if !f(&event) {
                    self.events.push_back(event);
                }
                proof {
                    reveal(Seq::filter);
                    assert(all.take(i + 1).drop_last() =~= all.take(i as int));
                    assert(before.subrange(1, before.len() as int) =~= all.skip(i + 1) + all.take(
                        i as int,
                    ).filter(keep));
                    assert(self@ =~= all.skip(i + 1) + all.take(i + 1).filter(keep));
                }
            }
            i = i + 1;
        }
        assert(all.take(len as int) =~= all);
        assert(all.skip(len as int) + all.filter(keep) =~= all.filter(keep));
    }

    /// Add a new `HeaderReady` event.
    pub fn header_ready(
        &mut self,
        stream_id: u64,
        headers: Vec<Header>,
        interim: bool,
        fin: bool,
    )
        ensures
            final(self)@ == old(self)@.push(
                (Http3ClientEvent::HeaderReady { stream_id, headers, interim, fin }),
            ),
    {
        self.insert(Http3ClientEvent::HeaderReady { stream_id, headers, interim, fin });
    }

    /// Add a new `DataReadable` event.
    pub fn data_readable(&mut self, stream_id: u64)
        ensures
            final(self)@ == old(self)@.push((Http3ClientEvent::DataReadable { stream_id })),
    {
        self.insert(Http3ClientEvent::DataReadable { stream_id });
    }

    /// Add a new `Reset` event. What the stream had received before no longer matters.
    pub fn reset(&mut self, stream_id: u64, error: AppError, local: bool)
        ensures
            final(self)@ == old(self)@.filter(off_recv_side(stream_id)).push(
                (Http3ClientEvent::Reset { stream_id, error, local }),
            ),
    {
        let picks = |evt: &Http3ClientEvent| -> (picked: bool)
            ensures
                picked == is_recv_side(*evt, stream_id),
            {
                match evt {
                    Http3ClientEvent::HeaderReady { stream_id: x, .. }
                    | Http3ClientEvent::DataReadable { stream_id: x }
                    | Http3ClientEvent::PushPromise { request_stream_id: x, .. }
                    | Http3ClientEvent::Reset { stream_id: x, .. } => *x == stream_id,
                    _ => false,
                }
            };
        self.remove(picks, Ghost(off_recv_side(stream_id)));
        self.insert(Http3ClientEvent::Reset { stream_id, error, local });
    }

    /// A client opens WebTransport sessions and is never asked for one: there is no event.
    pub fn web_transport_new_session(&mut self, _stream_id: u64, _headers: Vec<Header>)
        ensures
            final(self)@ == old(self)@,
    {
    }

    /// Add a new `DataWritable` event.
    pub fn data_writable(&mut self, stream_id: u64)
        ensures
            final(self)@ == old(self)@.push((Http3ClientEvent::DataWritable { stream_id })),
    {
        self.insert(Http3ClientEvent::DataWritable { stream_id });
    }

    /// Remove the events that are about sending on a stream.
    pub fn remove_send_side_event(&mut self, stream_id: u64)
        ensures
            final(self)@ == old(self)@.filter(off_send_side(stream_id)),
    {
        let picks = |evt: &Http3ClientEvent| -> (picked: bool)
            ensures
                picked == is_send_side(*evt, stream_id),
            {
                match evt {
                    Http3ClientEvent::DataWritable { stream_id: x }
                    | Http3ClientEvent::StopSending { stream_id: x, .. } => *x == stream_id,
                    _ => false,
                }
            };
        self.remove(picks, Ghost(off_send_side(stream_id)));
    }

    /// Add a new `StopSending` event.
    pub fn stop_sending(&mut self, stream_id: u64, error: AppError)
        ensures
            final(self)@ == old(self)@.filter(off_send_side(stream_id)).push(
                (Http3ClientEvent::StopSending { stream_id, error }),
            ),
    {
        // The stream has received a STOP_SENDING frame, so any DataWritable event goes.
        self.remove_send_side_event(stream_id);
        self.insert(Http3ClientEvent::StopSending { stream_id, error });
    }

    pub fn web_transport_session_negotiated(&mut self, stream_id: u64, success: bool)
        ensures
            final(self)@ == old(self)@.push(
                (Http3ClientEvent::WebTransportSessionNegotiated { stream_id, success }),
            ),
    {
        self.insert(Http3ClientEvent::WebTransportSessionNegotiated { stream_id, success });
    }

    pub fn web_transport_new_stream(&mut self, stream_id: u64)
        ensures
            final(self)@ == old(self)@.push(
                (Http3ClientEvent::WebTransportNewStream { stream_id }),
            ),
    {
        self.insert(Http3ClientEvent::WebTransportNewStream { stream_id });
    }

    pub fn web_transport_data_readable(&mut self, stream_id: u64)
        ensures
            final(self)@ == old(self)@.push(
                (Http3ClientEvent::WebTransportDataReadable { stream_id }),
            ),
    {
        self.insert(Http3ClientEvent::WebTransportDataReadable { stream_id });
    }

    pub fn web_transport_stream_reset(&mut self, stream_id: u64, error: AppError)
        ensures
            final(self)@ == old(self)@.push(
                (Http3ClientEvent::WebTransportStreamReset { stream_id, error }),
            ),
    {
        self.insert(Http3ClientEvent::WebTransportStreamReset { stream_id, error });
    }

    pub fn web_transport_data_writable(&mut self, stream_id: u64)
        ensures
            final(self)@ == old(self)@.push(
                (Http3ClientEvent::WebTransportDataWritable { stream_id }),
            ),
    {
        self.insert(Http3ClientEvent::WebTransportDataWritable { stream_id });
    }

    pub fn web_transport_stream_stop_sending(&mut self, stream_id: u64, error: AppError)
        ensures
            final(self)@ == old(self)@.push(
                (Http3ClientEvent::WebTransportStreamStopSending { stream_id, error }),
            ),
    {
        self.insert(Http3ClientEvent::WebTransportStreamStopSending { stream_id, error });
    }

    pub fn push_promise(&mut self, push_id: u64, request_stream_id: u64, headers: Vec<Header>)
        ensures
            final(self)@ == old(self)@.push(
                (Http3ClientEvent::PushPromise { push_id, request_stream_id, headers }),
            ),
    {
        self.insert(Http3ClientEvent::PushPromise { push_id, request_stream_id, headers });
    }

    pub fn push_canceled(&mut self, push_id: u64)
        ensures
            final(self)@ == old(self)@.filter(off_push(push_id)).push(
                (Http3ClientEvent::PushCanceled { push_id }),
            ),
    {
        self.remove_events_for_push_id(push_id);
        self.insert(Http3ClientEvent::PushCanceled { push_id });
    }

    pub fn push_reset(&mut self, push_id: u64, error: AppError)
        ensures
            final(self)@ == old(self)@.filter(off_push(push_id)).push(
                (Http3ClientEvent::PushReset { push_id, error }),
            ),
    {
        self.remove_events_for_push_id(push_id);
        self.insert(Http3ClientEvent::PushReset { push_id, error });
    }

    /// Add a new `RequestsCreatable` event, if streams of the kind that carries requests can be
    /// created.
    pub fn new_requests_creatable(&mut self, stream_type: StreamType)
        ensures
            final(self)@ == (match stream_type {
                StreamType::BiDi => old(self)@.push(Http3ClientEvent::RequestsCreatable),
                StreamType::UniDi => old(self)@,
            }),
    {
        if stream_type == StreamType::BiDi {
            self.insert(Http3ClientEvent::RequestsCreatable);
        }
    }

    /// Add a new `AuthenticationNeeded` event.
    pub fn authentication_needed(&mut self)
        ensures
            final(self)@ == old(self)@.push(Http3ClientEvent::AuthenticationNeeded),
    {
        self.insert(Http3ClientEvent::AuthenticationNeeded);
    }

    /// Add a new `EchFallbackAuthenticationNeeded` event.
    pub fn ech_fallback_authentication_needed(&mut self, public_name: String)
        ensures
            final(self)@ == old(self)@.push(
                (Http3ClientEvent::EchFallbackAuthenticationNeeded { public_name }),
            ),
    {
        self.insert(Http3ClientEvent::EchFallbackAuthenticationNeeded { public_name });
    }

    /// Add a new resumption token event.
    pub fn resumption_token(&mut self, token: ResumptionToken)
        ensures
            final(self)@ == old(self)@.push(Http3ClientEvent::ResumptionToken(token)),
    {
        self.insert(Http3ClientEvent::ResumptionToken(token));
    }

    /// Add a new `ZeroRttRejected` event.
    pub fn zero_rtt_rejected(&mut self)
        ensures
            final(self)@ == old(self)@.push(Http3ClientEvent::ZeroRttRejected),
    {
        self.insert(Http3ClientEvent::ZeroRttRejected);
    }

    /// Add a new `GoawayReceived` event. New requests are no longer wanted.
    pub fn goaway_received(&mut self)
        ensures
            final(self)@ == old(self)@.filter(off_creatable()).push(
                Http3ClientEvent::GoawayReceived,
            ),
    {
        let picks = |evt: &Http3ClientEvent| -> (picked: bool)
            ensures
                picked == (*evt == Http3ClientEvent::RequestsCreatable),
            { matches!(evt, Http3ClientEvent::RequestsCreatable) };
        self.remove(picks, Ghost(off_creatable()));
        self.insert(Http3ClientEvent::GoawayReceived);
    }

    /// Add a new `StateChange` event.
    pub fn connection_state_change(&mut self, state: Http3State)
        ensures
            final(self)@ == relevant(old(self)@, state).push(Http3ClientEvent::StateChange(state)),
    {
        match &state {
            // If closing, existing events no longer relevant.
            Http3State::Closing(_) | Http3State::Closed(_) => self.events.clear(),
            Http3State::Connected => {
                let picks = |evt: &Http3ClientEvent| -> (picked: bool)
                    ensures
                        picked == (*evt == Http3ClientEvent::StateChange(Http3State::ZeroRtt)),
                    { matches!(evt, Http3ClientEvent::StateChange(Http3State::ZeroRtt)) };
                self.remove(picks, Ghost(off_zero_rtt()));
            },
            _ => (),
        }
        self.insert(Http3ClientEvent::StateChange(state));
    }

    /// Remove all events for a stream.
    pub fn remove_events_for_stream_id(&mut self, stream_id: u64)
        ensures
            final(self)@ == old(self)@.filter(off_stream(stream_id)),
    {
        let picks = |evt: &Http3ClientEvent| -> (picked: bool)
            ensures
                picked == is_of_stream(*evt, stream_id),
            {
                match evt {
                    Http3ClientEvent::HeaderReady { stream_id: x, .. }
                    | Http3ClientEvent::DataWritable { stream_id: x }
                    | Http3ClientEvent::DataReadable { stream_id: x }
                    | Http3ClientEvent::PushPromise { request_stream_id: x, .. }
                    | Http3ClientEvent::Reset { stream_id: x, .. }
                    | Http3ClientEvent::StopSending { stream_id: x, .. }
                    | Http3ClientEvent::WebTransportSessionNegotiated { stream_id: x, .. }
                    | Http3ClientEvent::WebTransportNewStream { stream_id: x }
                    | Http3ClientEvent::WebTransportDataReadable { stream_id: x }
                    | Http3ClientEvent::WebTransportStreamReset { stream_id: x, .. }
                    | Http3ClientEvent::WebTransportDataWritable { stream_id: x }
                    | Http3ClientEvent::WebTransportStreamStopSending { stream_id: x, .. } => {
                        *x == stream_id
                    },
                    _ => false,
                }
            };
        self.remove(picks, Ghost(off_stream(stream_id)));
    }

    /// Whether a push is promised in an event that has not been taken yet.
    pub fn has_push(&self, push_id: u64) -> (found: bool)
        ensures
            found == has_promise(self@, push_id),
    {
        let len: usize = self.events.len();
        for i in 0..len
            invariant
                len == self@.len(),
                forall|j: int| 0 <= j < i ==> !is_promise(#[trigger] self@[j], push_id),
        {
            if let Http3ClientEvent::PushPromise { push_id: x, .. } = &self.events[i] {
                if *x == push_id {
                    assert(is_promise(self@[i as int], push_id));
                    return true;
                }
            }
        }
        false
    }

    /// Remove the events about a push as it goes on.
    pub fn remove_events_for_push_id(&mut self, push_id: u64)
        ensures
            final(self)@ == old(self)@.filter(off_push(push_id)),
    {
        let picks = |evt: &Http3ClientEvent| -> (picked: bool)
            ensures
                picked == is_of_push(*evt, push_id),
            {
                match evt {
                    Http3ClientEvent::PushPromise { push_id: x, .. }
                    | Http3ClientEvent::PushHeaderReady { push_id: x, .. }
                    | Http3ClientEvent::PushDataReadable { push_id: x }
                    | Http3ClientEvent::PushCanceled { push_id: x } => *x == push_id,
                    _ => false,
                }
            };
        self.remove(picks, Ghost(off_push(push_id)));
    }

    pub fn web_transport_negotiation_done(&mut self, enabled: bool)
        ensures
            final(self)@ == old(self)@.push(Http3ClientEvent::WebTransportNegotiated(enabled)),
    {
        self.insert(Http3ClientEvent::WebTransportNegotiated(enabled));
    }

    /// Check if there is any event present.
    pub fn has_events(&self) -> (present: bool)
        ensures
            present == (self@.len() > 0),
    {
        self.events.len() > 0
    }

    /// Take the first event.
    pub fn next_event(&mut self) -> (event: Option<Http3ClientEvent>)
        ensures
            event == (if old(self)@.len() > 0 {
                Some(old(self)@[0])
            } else {
                None
            }),
            final(self)@ == (if old(self)@.len() > 0 {
                old(self)@.drop_first()
            } else {
                old(self)@
            }),
    {
        self.events.pop_front()
    }
}

} // verus!
