use neqo_http3::client_events::{Http3ClientEvent, Http3ClientEvents};
use neqo_http3::client_state::{Header, Http3State, ResumptionToken};
use neqo_http3::transport::{ConnectionError, StreamId, StreamType, TransportError};

fn headers() -> Vec<Header> {
    vec![Header {
        name: String::from(":status"),
        value: String::from("200"),
    }]
}

fn drain(events: &mut Http3ClientEvents) -> Vec<Http3ClientEvent> {
    let mut taken = Vec::new();
    while let Some(event) = events.next_event() {
        taken.push(event);
    }
    assert!(!events.has_events());
    taken
}

/// One event of every kind, for the streams 4 and 8 and the pushes 1 and 2 where it has any.
fn everything() -> Http3ClientEvents {
    let mut events = Http3ClientEvents::default();
    for stream_id in [4, 8] {
        events.header_ready(stream_id, headers(), false, false);
        events.data_writable(stream_id);
        events.data_readable(stream_id);
        events.insert(Http3ClientEvent::Reset {
            stream_id,
            error: 1,
            local: true,
        });
        events.insert(Http3ClientEvent::StopSending {
            stream_id,
            error: 2,
        });
        events.push_promise(stream_id / 4, stream_id, headers());
        events.web_transport_session_negotiated(stream_id, true);
        events.web_transport_new_stream(stream_id);
        events.web_transport_data_readable(stream_id);
        events.web_transport_stream_reset(stream_id, 3);
        events.web_transport_data_writable(stream_id);
        events.web_transport_stream_stop_sending(stream_id, 4);
    }
    for push_id in [1, 2] {
        events.insert(Http3ClientEvent::PushHeaderReady {
            push_id,
            headers: headers(),
            interim: false,
            fin: true,
        });
        events.insert(Http3ClientEvent::PushDataReadable { push_id });
        events.insert(Http3ClientEvent::PushCanceled { push_id });
        events.insert(Http3ClientEvent::PushReset { push_id, error: 5 });
    }
    events.new_requests_creatable(StreamType::BiDi);
    events.authentication_needed();
    events.ech_fallback_authentication_needed(String::from("public.example"));
    events.resumption_token(ResumptionToken {
        token: vec![1, 2, 3],
        expiration_time: 99,
    });
    events.zero_rtt_rejected();
    events.insert(Http3ClientEvent::GoawayReceived);
    events.connection_state_change(Http3State::ZeroRtt);
    events.connection_state_change(Http3State::GoingAway(StreamId::new(4)));
    events.web_transport_negotiation_done(true);
    events
}

/// What is left of `everything` without the events that `dropped` picks.
fn everything_but(dropped: impl Fn(&Http3ClientEvent) -> bool) -> Vec<Http3ClientEvent> {
    let mut all = drain(&mut everything());
    assert_eq!(all.len(), 41);
    all.retain(|event| !dropped(event));
    all
}

#[test]
fn starts_empty() {
    let mut events = Http3ClientEvents::default();
    assert!(!events.has_events());
    assert_eq!(events.next_event(), None);
    assert!(!events.has_push(0));
}

#[test]
fn first_come_first_taken() {
    let mut events = Http3ClientEvents::default();
    events.data_readable(4);
    events.data_writable(0);
    assert!(events.has_events());
    assert_eq!(
        events.next_event(),
        Some(Http3ClientEvent::DataReadable { stream_id: 4 })
    );
    events.header_ready(8, headers(), true, false);
    assert_eq!(
        drain(&mut events),
        vec![
            Http3ClientEvent::DataWritable { stream_id: 0 },
            Http3ClientEvent::HeaderReady {
                stream_id: 8,
                headers: headers(),
                interim: true,
                fin: false
            },
        ]
    );
}

#[test]
fn simple_events() {
    let mut events = Http3ClientEvents::default();
    events.web_transport_new_session(1, headers());
    assert!(!events.has_events());
    events.web_transport_session_negotiated(1, false);
    events.web_transport_new_stream(2);
    events.web_transport_data_readable(3);
    events.web_transport_stream_reset(4, 40);
    events.web_transport_data_writable(5);
    events.web_transport_stream_stop_sending(6, 60);
    events.push_promise(7, 8, headers());
    events.authentication_needed();
    events.ech_fallback_authentication_needed(String::from("a"));
    events.resumption_token(ResumptionToken {
        token: vec![9],
        expiration_time: 1,
    });
    events.zero_rtt_rejected();
    events.web_transport_negotiation_done(false);
    assert_eq!(
        drain(&mut events),
        vec![
            Http3ClientEvent::WebTransportSessionNegotiated {
                stream_id: 1,
                success: false
            },
            Http3ClientEvent::WebTransportNewStream { stream_id: 2 },
            Http3ClientEvent::WebTransportDataReadable { stream_id: 3 },
            Http3ClientEvent::WebTransportStreamReset {
                stream_id: 4,
                error: 40
            },
            Http3ClientEvent::WebTransportDataWritable { stream_id: 5 },
            Http3ClientEvent::WebTransportStreamStopSending {
                stream_id: 6,
                error: 60
            },
            Http3ClientEvent::PushPromise {
                push_id: 7,
                request_stream_id: 8,
                headers: headers()
            },
            Http3ClientEvent::AuthenticationNeeded,
            Http3ClientEvent::EchFallbackAuthenticationNeeded {
                public_name: String::from("a")
            },
            Http3ClientEvent::ResumptionToken(ResumptionToken {
                token: vec![9],
                expiration_time: 1
            }),
            Http3ClientEvent::ZeroRttRejected,
            Http3ClientEvent::WebTransportNegotiated(false),
        ]
    );
}

#[test]
fn reset_is_the_last_word() {
    let mut events = everything();
    events.reset(4, 77, false);
    let mut expected = everything_but(|event| {
        matches!(
            event,
            Http3ClientEvent::HeaderReady { stream_id: 4, .. }
                | Http3ClientEvent::DataReadable { stream_id: 4 }
                | Http3ClientEvent::PushPromise {
                    request_stream_id: 4,
                    ..
                }
                | Http3ClientEvent::Reset { stream_id: 4, .. }
        )
    });
    assert_eq!(expected.len(), 37);
    expected.push(Http3ClientEvent::Reset {
        stream_id: 4,
        error: 77,
        local: false,
    });
    assert_eq!(drain(&mut events), expected);
}

#[test]
fn stop_sending_is_the_last_word() {
    let send_side = |event: &Http3ClientEvent| {
        matches!(
            event,
            Http3ClientEvent::DataWritable { stream_id: 8 }
                | Http3ClientEvent::StopSending { stream_id: 8, .. }
        )
    };
    let mut events = everything();
    events.remove_send_side_event(8);
    assert_eq!(drain(&mut events), everything_but(send_side));

    let mut events = everything();
    events.stop_sending(8, 78);
    let mut expected = everything_but(send_side);
    assert_eq!(expected.len(), 39);
    expected.push(Http3ClientEvent::StopSending {
        stream_id: 8,
        error: 78,
    });
    assert_eq!(drain(&mut events), expected);
}

#[test]
fn removed_stream_is_gone() {
    let mut events = everything();
    events.remove_events_for_stream_id(8);
    let expected = everything_but(|event| {
        matches!(
            event,
            Http3ClientEvent::HeaderReady { stream_id: 8, .. }
                | Http3ClientEvent::DataWritable { stream_id: 8 }
                | Http3ClientEvent::DataReadable { stream_id: 8 }
                | Http3ClientEvent::PushPromise {
                    request_stream_id: 8,
                    ..
                }
                | Http3ClientEvent::Reset { stream_id: 8, .. }
                | Http3ClientEvent::StopSending { stream_id: 8, .. }
                | Http3ClientEvent::WebTransportSessionNegotiated { stream_id: 8, .. }
                | Http3ClientEvent::WebTransportNewStream { stream_id: 8 }
                | Http3ClientEvent::WebTransportDataReadable { stream_id: 8 }
                | Http3ClientEvent::WebTransportStreamReset { stream_id: 8, .. }
                | Http3ClientEvent::WebTransportDataWritable { stream_id: 8 }
                | Http3ClientEvent::WebTransportStreamStopSending { stream_id: 8, .. }
        )
    });
    assert_eq!(expected.len(), 29);
    assert_eq!(drain(&mut events), expected);

    // A reset in between changes nothing: it is an event of the stream too.
    let mut events = everything();
    events.reset(8, 0, true);
    events.remove_events_for_stream_id(8);
    assert_eq!(drain(&mut events), expected);

    // A second time changes nothing.
    let mut events = everything();
    events.remove_events_for_stream_id(8);
    events.remove_events_for_stream_id(8);
    assert_eq!(drain(&mut events), expected);
}

#[test]
fn removed_web_transport_stream_is_gone() {
    let mut events = Http3ClientEvents::default();
    events.web_transport_data_readable(4);
    events.remove_events_for_stream_id(4);
    assert!(!events.has_events());

    // WebTransport itself is no matter of one stream.
    events.web_transport_negotiation_done(true);
    events.web_transport_new_stream(8);
    events.remove_events_for_stream_id(4);
    assert_eq!(
        drain(&mut events),
        vec![
            Http3ClientEvent::WebTransportNegotiated(true),
            Http3ClientEvent::WebTransportNewStream { stream_id: 8 },
        ]
    );
}

#[test]
fn pushes() {
    let of_push = |event: &Http3ClientEvent| {
        matches!(
            event,
            Http3ClientEvent::PushPromise { push_id: 1, .. }
                | Http3ClientEvent::PushHeaderReady { push_id: 1, .. }
                | Http3ClientEvent::PushDataReadable { push_id: 1 }
                | Http3ClientEvent::PushCanceled { push_id: 1 }
        )
    };
    let mut events = everything();
    assert!(events.has_push(1));
    assert!(events.has_push(2));
    assert!(!events.has_push(4));
    events.remove_events_for_push_id(1);
    assert!(!events.has_push(1));
    assert!(events.has_push(2));
    let left = everything_but(of_push);
    assert_eq!(left.len(), 37);
    // That a push was reset is told even when the push is removed.
    assert!(left.contains(&Http3ClientEvent::PushReset {
        push_id: 1,
        error: 5
    }));
    assert_eq!(drain(&mut events), left);

    let mut events = everything();
    events.push_canceled(1);
    assert!(!events.has_push(1));
    assert!(events.has_push(2));
    let mut expected = left.clone();
    expected.push(Http3ClientEvent::PushCanceled { push_id: 1 });
    assert_eq!(drain(&mut events), expected);

    let mut events = everything();
    events.push_reset(1, 79);
    assert!(!events.has_push(1));
    assert!(events.has_push(2));
    let mut expected = left;
    expected.push(Http3ClientEvent::PushReset {
        push_id: 1,
        error: 79,
    });
    assert_eq!(drain(&mut events), expected);
}

#[test]
fn requests_creatable() {
    let mut events = Http3ClientEvents::default();
    events.new_requests_creatable(StreamType::UniDi);
    assert!(!events.has_events());
    events.new_requests_creatable(StreamType::BiDi);
    events.new_requests_creatable(StreamType::BiDi);
    assert_eq!(
        drain(&mut events),
        vec![
            Http3ClientEvent::RequestsCreatable,
            Http3ClientEvent::RequestsCreatable
        ]
    );
}

#[test]
fn no_invitation_after_goaway() {
    let mut events = everything();
    events.new_requests_creatable(StreamType::BiDi);
    events.goaway_received();
    let mut expected = everything_but(|event| *event == Http3ClientEvent::RequestsCreatable);
    expected.push(Http3ClientEvent::GoawayReceived);
    assert_eq!(drain(&mut events), expected);
}

#[test]
fn closing_is_all_there_is() {
    let reasons = [
        ConnectionError::Application(0x100),
        ConnectionError::Transport(TransportError { code: 7 }),
    ];
    for reason in reasons {
        for state in [Http3State::Closing(reason), Http3State::Closed(reason)] {
            let mut events = everything();
            events.connection_state_change(state.clone());
            assert_eq!(
                drain(&mut events),
                vec![Http3ClientEvent::StateChange(state)]
            );
        }
    }
}

#[test]
fn no_early_data_once_connected() {
    let mut events = everything();
    events.connection_state_change(Http3State::Connected);
    let mut expected =
        everything_but(|event| *event == Http3ClientEvent::StateChange(Http3State::ZeroRtt));
    assert_eq!(expected.len(), 40);
    expected.push(Http3ClientEvent::StateChange(Http3State::Connected));
    assert_eq!(drain(&mut events), expected);
}

#[test]
fn other_states_drop_nothing() {
    for state in [
        Http3State::Initializing,
        Http3State::ZeroRtt,
        Http3State::GoingAway(StreamId::new(0)),
    ] {
        let mut events = everything();
        events.connection_state_change(state.clone());
        let mut expected = everything_but(|_| false);
        expected.push(Http3ClientEvent::StateChange(state));
        assert_eq!(drain(&mut events), expected);
    }
}
